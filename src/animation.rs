use vstd::prelude::*;
use vstd::arithmetic::div_mod::{lemma_div_is_ordered, lemma_div_multiples_vanish, lemma_mod_add_multiples_vanish};
use vstd::arithmetic::mul::lemma_mul_inequality;

verus! {

/// Fixed-point scale of keyframe values: this integer stands for 1.0.
pub const FIXED_ONE: i32 = 65536;

/// A translation or scale value, in fixed point.
#[derive(Clone, Copy, Debug, PartialEq, Eq, Structural)]
pub struct Vec3 {
    pub x: i32,
    pub y: i32,
    pub z: i32,
}

/// A rotation quaternion, in fixed point.
#[derive(Clone, Copy, Debug, PartialEq, Eq, Structural)]
pub struct Quat {
    pub x: i32,
    pub y: i32,
    pub z: i32,
    pub w: i32,
}

/// One sample of a track: a time in ticks and a value.
#[derive(Clone, Copy, Debug, PartialEq, Eq, Structural)]
pub struct Keyframe<V> {
    pub time: u64,
    pub value: V,
}

/// Where a track is sampled: at no key (the channel's identity), exactly at
/// one key, or between two keys with weight `num / den`.
#[derive(Clone, Copy, Debug, PartialEq, Eq, Structural)]
pub enum SamplePoint {
    Identity,
    Key(usize),
    Blend { prev: usize, curr: usize, num: u64, den: u64 },
}

/// The timestamps of a track.
pub open spec fn times_of<V>(keys: Seq<Keyframe<V>>) -> Seq<u64> {
    keys.map_values(|k: Keyframe<V>| k.time)
}

/// The time a track is read at: wrapped into the period when looping,
/// held at the period's end otherwise.
pub open spec fn effective_time_spec(time: u64, period: u64, looping: bool) -> u64
    recommends
        period > 0,
{
    if looping {
        (time % period) as u64
    } else if time <= period {
        time
    } else {
        period
    }
}

/// First position from `i` on whose time is at or after `t`; the length if none.
pub open spec fn first_at_or_after(ts: Seq<u64>, t: u64, i: int) -> int
    decreases ts.len() - i,
{
    if i < 0 || i >= ts.len() {
        ts.len() as int
    } else if t <= ts[i] {
        i
    } else {
        first_at_or_after(ts, t, i + 1)
    }
}

/// Where a track with timestamps `ts` is sampled at `time`. No keys or an
/// empty period give the identity; at or before the first key, or with a
/// single key, that key's raw value; past the last key, the last key's raw
/// value; otherwise the bracketing pair found by an ascending scan.
pub open spec fn sample_spec(ts: Seq<u64>, period: u64, looping: bool, time: u64) -> SamplePoint {
    if ts.len() == 0 || period == 0 {
        SamplePoint::Identity
    } else {
        let t = effective_time_spec(time, period, looping);
        if ts.len() == 1 || t <= ts[0] {
            SamplePoint::Key(0)
        } else {
            let j = first_at_or_after(ts, t, 1);
            if j >= ts.len() {
                SamplePoint::Key((ts.len() - 1) as usize)
            } else {
                SamplePoint::Blend {
                    prev: (j - 1) as usize,
                    curr: j as usize,
                    num: (t - ts[j - 1]) as u64,
                    den: (ts[j] - ts[j - 1]) as u64,
                }
            }
        }
    }
}

/// The time a track is read at.
pub fn effective_time(time: u64, period: u64, looping: bool) -> (r: u64)
    requires
        period > 0,
    ensures
        r == effective_time_spec(time, period, looping),
        r <= period,
{
    if looping {
        time % period
    } else if time <= period {
        time
    } else {
        period
    }
}

proof fn lemma_first_bounds(ts: Seq<u64>, t: u64, i: int)
    requires
        0 <= i <= ts.len(),
    ensures
        i <= first_at_or_after(ts, t, i) <= ts.len(),
        first_at_or_after(ts, t, i) < ts.len() ==> t <= ts[first_at_or_after(ts, t, i)],
        forall|k: int| i <= k < first_at_or_after(ts, t, i) ==> ts[k] < t,
    decreases ts.len() - i,
{
    if i < ts.len() && t > ts[i] {
        lemma_first_bounds(ts, t, i + 1);
    }
}

/// Finds where a track is sampled at `time`.
pub fn locate<V>(keys: &Vec<Keyframe<V>>, period: u64, looping: bool, time: u64) -> (r: SamplePoint)
    ensures
        r == sample_spec(times_of(keys@), period, looping, time),
        match r {
            SamplePoint::Identity => true,
            SamplePoint::Key(i) => i < keys@.len(),
            SamplePoint::Blend { prev, curr, num, den } => prev < curr < keys@.len() && 0 < den && num <= den,
        },
{
    let ghost ts = times_of(keys@);
    let n = keys.len();
    if n == 0 || period == 0 {
        return SamplePoint::Identity;
    }
    let t = effective_time(time, period, looping);
    if n == 1 || t <= keys[0].time {
        return SamplePoint::Key(0);
    }
    proof {
        lemma_first_bounds(ts, t, 1);
    }
    let mut j: usize = 1;
    while j < n && keys[j].time < t
        invariant
            ts == times_of(keys@),
            n == keys@.len(),
            n >= 2,
            1 <= j <= n,
            t > ts[0],
            forall|k: int| 1 <= k < j ==> ts[k] < t,
            first_at_or_after(ts, t, 1) == first_at_or_after(ts, t, j as int),
        decreases n - j,
    {
        proof {
            assert(ts[j as int] == keys@[j as int].time);
        }
        j = j + 1;
    }
    proof {
        if j < n {
            assert(ts[j as int] == keys@[j as int].time);
        }
        lemma_first_bounds(ts, t, j as int);
        assert(ts[j - 1] == keys@[j - 1].time);
        assert(ts[0] == keys@[0].time);
    }
    if j >= n {
        return SamplePoint::Key(n - 1);
    }
    let prev_time = keys[j - 1].time;
    let curr_time = keys[j].time;
    SamplePoint::Blend { prev: j - 1, curr: j, num: t - prev_time, den: curr_time - prev_time }
}

/// Linear interpolation `a + (b - a) * num / den`, the fraction rounded
/// toward `a`.
pub open spec fn lerp_spec(a: int, b: int, num: nat, den: nat) -> int {
    if b >= a {
        a + ((b - a) * (num as int)) / (den as int)
    } else {
        a - ((a - b) * (num as int)) / (den as int)
    }
}

proof fn lemma_scaled_fraction(d: nat, num: nat, den: nat)
    requires
        0 < den,
        num <= den,
    ensures
        0 <= ((d * num) as int) / (den as int) <= d as int,
{
    lemma_mul_inequality(num as int, den as int, d as int);
    assert(num * d == d * num);
    assert(den * d == d * den);
    lemma_div_is_ordered(0, (d * num) as int, den as int);
    lemma_div_is_ordered((d * num) as int, (d * den) as int, den as int);
    lemma_div_multiples_vanish(d as int, den as int);
    assert(den * d == d * den);
}

/// Linear interpolation of one component.
pub fn lerp(a: i32, b: i32, num: u64, den: u64) -> (r: i32)
    requires
        0 < den,
        num <= den,
    ensures
        r as int == lerp_spec(a as int, b as int, num as nat, den as nat),
{
    if b >= a {
        let d: u128 = (b as i64 - a as i64) as u128;
        proof {
            lemma_scaled_fraction(d as nat, num as nat, den as nat);
            lemma_mul_inequality(num as int, den as int, d as int);
            assert(d * num <= d * den) by (nonlinear_arith)
                requires num <= den;
            assert(d * den <= 0x1_0000_0000 * 0x1_0000_0000_0000_0000) by (nonlinear_arith)
                requires d <= 0x1_0000_0000, den <= 0xffff_ffff_ffff_ffff;
        }
        let f: u128 = d * (num as u128) / (den as u128);
        (a as i64 + f as i64) as i32
    } else {
        let d: u128 = (a as i64 - b as i64) as u128;
        proof {
            lemma_scaled_fraction(d as nat, num as nat, den as nat);
            assert(d * num <= d * den) by (nonlinear_arith)
                requires num <= den;
            assert(d * den <= 0x1_0000_0000 * 0x1_0000_0000_0000_0000) by (nonlinear_arith)
                requires d <= 0x1_0000_0000, den <= 0xffff_ffff_ffff_ffff;
        }
        let f: u128 = d * (num as u128) / (den as u128);
        (a as i64 - f as i64) as i32
    }
}

/// Component-wise linear interpolation of two vectors.
pub open spec fn lerp3_spec(a: Vec3, b: Vec3, num: u64, den: u64) -> Vec3 {
    Vec3 {
        x: lerp_spec(a.x as int, b.x as int, num as nat, den as nat) as i32,
        y: lerp_spec(a.y as int, b.y as int, num as nat, den as nat) as i32,
        z: lerp_spec(a.z as int, b.z as int, num as nat, den as nat) as i32,
    }
}

/// The value of a translation or scale track at `time`.
pub open spec fn vec3_track_value(keys: Seq<Keyframe<Vec3>>, period: u64, looping: bool, time: u64, identity: Vec3) -> Vec3 {
    match sample_spec(times_of(keys), period, looping, time) {
        SamplePoint::Identity => identity,
        SamplePoint::Key(i) => keys[i as int].value,
        SamplePoint::Blend { prev, curr, num, den } => lerp3_spec(keys[prev as int].value, keys[curr as int].value, num, den),
    }
}

/// Evaluates a translation or scale track at `time`; `identity` is the
/// channel's value where the track has no keys or the period is empty.
pub fn evaluate_vec3(keys: &Vec<Keyframe<Vec3>>, period: u64, looping: bool, time: u64, identity: Vec3) -> (r: Vec3)
    ensures
        r == vec3_track_value(keys@, period, looping, time, identity),
{
    match locate(keys, period, looping, time) {
        SamplePoint::Identity => identity,
        SamplePoint::Key(i) => keys[i].value,
        SamplePoint::Blend { prev, curr, num, den } => {
            let a = keys[prev].value;
            let b = keys[curr].value;
            Vec3 { x: lerp(a.x, b.x, num, den), y: lerp(a.y, b.y, num, den), z: lerp(a.z, b.z, num, den) }
        },
    }
}

/// A rotation sample: a raw quaternion, or the two quaternions that a
/// spherical interpolation at weight `num / den` runs between (shortest arc,
/// result renormalised).
#[derive(Clone, Copy, Debug, PartialEq, Eq, Structural)]
pub enum RotationSample {
    Exact(Quat),
    Slerp { from: Quat, to: Quat, num: u64, den: u64 },
}

/// The identity rotation.
pub open spec fn identity_quat() -> Quat {
    Quat { x: 0, y: 0, z: 0, w: FIXED_ONE }
}

/// The rotation track's sample at `time`.
pub open spec fn rotation_track_sample(keys: Seq<Keyframe<Quat>>, period: u64, looping: bool, time: u64) -> RotationSample {
    match sample_spec(times_of(keys), period, looping, time) {
        SamplePoint::Identity => RotationSample::Exact(identity_quat()),
        SamplePoint::Key(i) => RotationSample::Exact(keys[i as int].value),
        SamplePoint::Blend { prev, curr, num, den } => RotationSample::Slerp {
            from: keys[prev as int].value,
            to: keys[curr as int].value,
            num,
            den,
        },
    }
}

/// Samples a rotation track at `time`.
pub fn evaluate_rotation(keys: &Vec<Keyframe<Quat>>, period: u64, looping: bool, time: u64) -> (r: RotationSample)
    ensures
        r == rotation_track_sample(keys@, period, looping, time),
{
    match locate(keys, period, looping, time) {
        SamplePoint::Identity => RotationSample::Exact(Quat { x: 0, y: 0, z: 0, w: FIXED_ONE }),
        SamplePoint::Key(i) => RotationSample::Exact(keys[i].value),
        SamplePoint::Blend { prev, curr, num, den } => RotationSample::Slerp {
            from: keys[prev].value,
            to: keys[curr].value,
            num,
            den,
        },
    }
}

/// The sampled transform of one mesh: translation, rotation, scale.
#[derive(Clone, Copy, Debug, PartialEq, Eq, Structural)]
pub struct TransformSample {
    pub translation: Vec3,
    pub rotation: RotationSample,
    pub scale: Vec3,
}

/// The identity translation.
pub open spec fn zero_vec3() -> Vec3 {
    Vec3 { x: 0, y: 0, z: 0 }
}

/// The identity scale.
pub open spec fn unit_vec3() -> Vec3 {
    Vec3 { x: FIXED_ONE, y: FIXED_ONE, z: FIXED_ONE }
}

/// A rigid per-mesh animation: up to three keyframe tracks sharing one
/// period, looping or held at its end.
pub struct Animation {
    pub name: String,
    pub mesh_id: usize,
    pub translation: Option<Vec<Keyframe<Vec3>>>,
    pub rotation: Option<Vec<Keyframe<Quat>>>,
    pub scale: Option<Vec<Keyframe<Vec3>>>,
    pub period: u64,
    pub do_loop: bool,
}

/// The keys of an optional track; a missing track has none.
pub open spec fn keys_of<V>(track: Option<Vec<Keyframe<V>>>) -> Seq<Keyframe<V>> {
    match track {
        Some(v) => v@,
        None => Seq::empty(),
    }
}

/// The transform an animation gives at `time`.
pub open spec fn animation_sample(a: Animation, time: u64) -> TransformSample {
    TransformSample {
        translation: vec3_track_value(keys_of(a.translation), a.period, a.do_loop, time, zero_vec3()),
        rotation: rotation_track_sample(keys_of(a.rotation), a.period, a.do_loop, time),
        scale: vec3_track_value(keys_of(a.scale), a.period, a.do_loop, time, unit_vec3()),
    }
}

impl Animation {
    /// Samples all three channels at `time`. The result depends on the
    /// animation and the time alone.
    pub fn sample(&self, time: u64) -> (r: TransformSample)
        ensures
            r == animation_sample(*self, time),
    {
        let translation = match &self.translation {
            Some(keys) => evaluate_vec3(keys, self.period, self.do_loop, time, Vec3 { x: 0, y: 0, z: 0 }),
            None => Vec3 { x: 0, y: 0, z: 0 },
        };
        let rotation = match &self.rotation {
            Some(keys) => evaluate_rotation(keys, self.period, self.do_loop, time),
            None => RotationSample::Exact(Quat { x: 0, y: 0, z: 0, w: FIXED_ONE }),
        };
        let scale = match &self.scale {
            Some(keys) => evaluate_vec3(keys, self.period, self.do_loop, time, Vec3 { x: FIXED_ONE, y: FIXED_ONE, z: FIXED_ONE }),
            None => Vec3 { x: FIXED_ONE, y: FIXED_ONE, z: FIXED_ONE },
        };
        TransformSample { translation, rotation, scale }
    }
}

/// Sampling is a function of the animation and the time alone: equal
/// animations sampled at the same time give identical transforms.
pub proof fn lemma_sampling_deterministic(a: Animation, b: Animation, time: u64)
    requires
        a == b,
    ensures
        animation_sample(a, time) == animation_sample(b, time),
{
}

/// A looping animation gives the same transform one period later.
pub proof fn lemma_looping_periodic(a: Animation, time: u64)
    requires
        a.do_loop,
        time as int + a.period as int <= u64::MAX as int,
    ensures
        animation_sample(a, time) == animation_sample(a, (time + a.period) as u64),
{
    if a.period > 0 {
        lemma_mod_add_multiples_vanish(time as int, a.period as int);
        assert(effective_time_spec(time, a.period, true) == effective_time_spec((time + a.period) as u64, a.period, true));
    }
}

/// A non-looping animation holds its transform at the period's end from
/// then on.
pub proof fn lemma_clamped_after_period(a: Animation, time: u64)
    requires
        !a.do_loop,
        time >= a.period,
    ensures
        animation_sample(a, time) == animation_sample(a, a.period),
{
}

/// At time zero every track that has keys gives its first key's raw value.
pub proof fn lemma_first_key_at_zero(a: Animation)
    requires
        a.period > 0,
    ensures
        keys_of(a.translation).len() > 0 ==> animation_sample(a, 0).translation == keys_of(a.translation)[0].value,
        keys_of(a.rotation).len() > 0 ==> animation_sample(a, 0).rotation == RotationSample::Exact(keys_of(a.rotation)[0].value),
        keys_of(a.scale).len() > 0 ==> animation_sample(a, 0).scale == keys_of(a.scale)[0].value,
{
    assert(effective_time_spec(0, a.period, a.do_loop) == 0) by {
        if a.do_loop {
            assert(0u64 % a.period == 0);
        }
    }
}

} // verus!
