use vstd::prelude::*;

verus! {

/// A movement command.
#[derive(Clone, Copy, Debug, PartialEq, Eq, Structural)]
pub enum Key {
    Forward,
    Backward,
    Left,
    Right,
    Up,
    Down,
    TurnLeft,
    TurnRight,
}

/// Whether a key went down or up.
#[derive(Clone, Copy, Debug, PartialEq, Eq, Structural)]
pub enum KeyState {
    Press,
    Release,
}

/// A physical key as the window reports it, reduced to the keys the
/// controller reacts to.
#[derive(Clone, Copy, Debug, PartialEq, Eq, Structural)]
pub enum InputKey {
    Space,
    ShiftLeft,
    KeyW,
    KeyS,
    KeyA,
    KeyD,
    KeyQ,
    KeyE,
    Other,
}

/// Which movement commands are held.
#[derive(Clone, Copy, Debug, PartialEq, Eq, Structural)]
pub struct ControllerKey {
    pub forward: bool,
    pub backward: bool,
    pub left: bool,
    pub right: bool,
    pub up: bool,
    pub down: bool,
    pub turnleft: bool,
    pub turnright: bool,
}

/// Whether `key` is held in `k`.
pub open spec fn held(k: ControllerKey, key: Key) -> bool {
    match key {
        Key::Forward => k.forward,
        Key::Backward => k.backward,
        Key::Left => k.left,
        Key::Right => k.right,
        Key::Up => k.up,
        Key::Down => k.down,
        Key::TurnLeft => k.turnleft,
        Key::TurnRight => k.turnright,
    }
}

impl Default for ControllerKey {
    fn default() -> (r: Self)
        ensures
            forall|key: Key| !held(r, key),
    {
        ControllerKey {
            forward: false,
            backward: false,
            left: false,
            right: false,
            up: false,
            down: false,
            turnleft: false,
            turnright: false,
        }
    }
}

/// The command a physical key stands for: space raises, left shift
/// lowers, W/S/A/D move, Q/E turn.
pub open spec fn key_for_spec(input: InputKey) -> Option<Key> {
    match input {
        InputKey::Space => Some(Key::Up),
        InputKey::ShiftLeft => Some(Key::Down),
        InputKey::KeyW => Some(Key::Forward),
        InputKey::KeyS => Some(Key::Backward),
        InputKey::KeyA => Some(Key::Left),
        InputKey::KeyD => Some(Key::Right),
        InputKey::KeyQ => Some(Key::TurnLeft),
        InputKey::KeyE => Some(Key::TurnRight),
        InputKey::Other => None,
    }
}

/// The command a physical key stands for, if any.
pub fn key_for(input: InputKey) -> (r: Option<Key>)
    ensures
        r == key_for_spec(input),
{
    match input {
        InputKey::Space => Some(Key::Up),
        InputKey::ShiftLeft => Some(Key::Down),
        InputKey::KeyW => Some(Key::Forward),
        InputKey::KeyS => Some(Key::Backward),
        InputKey::KeyA => Some(Key::Left),
        InputKey::KeyD => Some(Key::Right),
        InputKey::KeyQ => Some(Key::TurnLeft),
        InputKey::KeyE => Some(Key::TurnRight),
        InputKey::Other => None,
    }
}

/// Tracks which movement commands are held.
pub struct Controller {
    keys: ControllerKey,
}

impl Controller {
    /// The held commands.
    pub closed spec fn view(&self) -> ControllerKey {
        self.keys
    }

    /// A controller with nothing held.
    pub fn new() -> (r: Self)
        ensures
            forall|key: Key| !held(r@, key),
    {
        Controller { keys: ControllerKey::default() }
    }

    pub fn get_state(&self) -> (r: &ControllerKey)
        ensures
            *r == self@,
    {
        &self.keys
    }

    /// Marks `key` held or released; the other commands keep their state.
    pub fn set_state(&mut self, key: Key, state: bool)
        ensures
            forall|k: Key| held(final(self)@, k) == if k == key { state } else { held(old(self)@, k) },
    {
        match key {
            Key::Forward => { self.keys.forward = state; },
            Key::Backward => { self.keys.backward = state; },
            Key::Left => { self.keys.left = state; },
            Key::Right => { self.keys.right = state; },
            Key::Up => { self.keys.up = state; },
            Key::Down => { self.keys.down = state; },
            Key::TurnLeft => { self.keys.turnleft = state; },
            Key::TurnRight => { self.keys.turnright = state; },
        }
    }

    /// Applies a key event: the command the key stands for is held while
    /// the key is pressed. Returns whether the key was handled.
    pub fn handle_input(&mut self, input: InputKey, pressed: bool) -> (r: bool)
        ensures
            r == key_for_spec(input).is_some(),
            forall|k: Key| held(final(self)@, k) == if key_for_spec(input) == Some(k) { pressed } else { held(old(self)@, k) },
    {
        match key_for(input) {
            Some(key) => {
                self.set_state(key, pressed);
                true
            },
            None => false,
        }
    }
}

} // verus!
