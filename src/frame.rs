use vstd::prelude::*;

verus! {

/// Size of the presentation surface in pixels.
#[derive(Clone, Copy, Debug, PartialEq, Eq, Structural)]
pub struct SurfaceSize {
    pub width: u32,
    pub height: u32,
}

/// What a frame does first.
#[derive(Clone, Copy, Debug, PartialEq, Eq, Structural)]
pub enum FrameStep {
    /// The surface has no area: draw nothing this frame.
    Skip,
    /// Reconfigure the surface to this size and recreate the depth
    /// attachment, then draw.
    Reconfigure(SurfaceSize),
    /// Draw with the surface as it is.
    Draw,
}

/// The per-frame decisions of the renderer: pending resizes and elapsed time.
pub struct FrameState {
    size: SurfaceSize,
    size_changed: bool,
    timer: u64,
}

impl FrameState {
    pub closed spec fn size(&self) -> SurfaceSize {
        self.size
    }

    pub closed spec fn resize_pending(&self) -> bool {
        self.size_changed
    }

    pub closed spec fn timer(&self) -> u64 {
        self.timer
    }

    /// A surface of the given size, nothing pending, no time elapsed.
    pub fn new(size: SurfaceSize) -> (r: Self)
        ensures
            r.size() == size,
            !r.resize_pending(),
            r.timer() == 0,
    {
        FrameState { size, size_changed: false, timer: 0 }
    }

    pub fn get_size(&self) -> (r: SurfaceSize)
        ensures
            r == self.size(),
    {
        self.size
    }

    pub fn elapsed(&self) -> (r: u64)
        ensures
            r == self.timer(),
    {
        self.timer
    }

    /// Records a new window size; the same size again changes nothing.
    pub fn set_window_resized(&mut self, new_size: SurfaceSize)
        ensures
            final(self).size() == new_size,
            final(self).resize_pending() == (old(self).resize_pending() || new_size != old(self).size()),
            final(self).timer() == old(self).timer(),
    {
        if new_size == self.size {
            return;
        }
        self.size = new_size;
        self.size_changed = true;
    }

    /// Adds the time elapsed since the last frame.
    pub fn update(&mut self, dt: u64)
        requires
            old(self).timer() + dt <= u64::MAX,
        ensures
            final(self).timer() == old(self).timer() + dt,
            final(self).size() == old(self).size(),
            final(self).resize_pending() == old(self).resize_pending(),
    {
        self.timer = self.timer + dt;
    }

    /// Decides how a frame starts. A surface without area skips the frame
    /// and keeps a pending resize; otherwise a pending resize is handled
    /// first, before the next image is acquired, and then cleared.
    pub fn begin_frame(&mut self) -> (r: FrameStep)
        ensures
            final(self).size() == old(self).size(),
            final(self).timer() == old(self).timer(),
            old(self).size().width == 0 || old(self).size().height == 0 ==> r == FrameStep::Skip
                && final(self).resize_pending() == old(self).resize_pending(),
            old(self).size().width != 0 && old(self).size().height != 0 ==> !final(self).resize_pending()
                && r == if old(self).resize_pending() { FrameStep::Reconfigure(old(self).size()) } else { FrameStep::Draw },
    {
        if self.size.width == 0 || self.size.height == 0 {
            return FrameStep::Skip;
        }
        if self.size_changed {
            self.size_changed = false;
            FrameStep::Reconfigure(self.size)
        } else {
            FrameStep::Draw
        }
    }
}

} // verus!
