use vstd::prelude::*;
use crate::animation::{Animation, Keyframe, Quat, Vec3};

verus! {

/// The values a decoded animation channel carries, one per timestamp.
pub enum ChannelValues {
    Translations(Vec<Vec3>),
    Rotations(Vec<Quat>),
    Scales(Vec<Vec3>),
    MorphTargetWeights,
}

/// Which transform component a channel animates.
#[derive(Clone, Copy, Debug, PartialEq, Eq, Structural)]
pub enum ChannelKind {
    Translation,
    Rotation,
    Scale,
}

/// One decoded animation channel: the mesh it targets, its timestamps in
/// ticks and its values.
pub struct ChannelInput {
    pub mesh_id: usize,
    pub times: Vec<u64>,
    pub values: ChannelValues,
}

/// Why a set of channels does not make animations.
#[derive(Clone, Copy, Debug, PartialEq, Eq, Structural)]
pub enum AnimationError {
    /// A channel without timestamps.
    EmptyChannel { mesh_id: usize },
    /// A channel with a different number of values than timestamps.
    LengthMismatch { mesh_id: usize },
    /// A channel whose timestamps do not strictly increase.
    UnorderedTimes { mesh_id: usize },
    /// A channel animating morph target weights, which are not supported.
    MorphTargetsUnsupported { mesh_id: usize },
    /// Two channels animating the same component of the same mesh.
    DuplicateChannel { mesh_id: usize, kind: ChannelKind },
}

pub open spec fn kind_of(v: ChannelValues) -> Option<ChannelKind> {
    match v {
        ChannelValues::Translations(_) => Some(ChannelKind::Translation),
        ChannelValues::Rotations(_) => Some(ChannelKind::Rotation),
        ChannelValues::Scales(_) => Some(ChannelKind::Scale),
        ChannelValues::MorphTargetWeights => None,
    }
}

/// The component a channel animates; none for morph target weights.
pub fn channel_kind(v: &ChannelValues) -> (r: Option<ChannelKind>)
    ensures
        r == kind_of(*v),
{
    match v {
        ChannelValues::Translations(_) => Some(ChannelKind::Translation),
        ChannelValues::Rotations(_) => Some(ChannelKind::Rotation),
        ChannelValues::Scales(_) => Some(ChannelKind::Scale),
        ChannelValues::MorphTargetWeights => None,
    }
}

/// Number of values a channel carries; none for morph target weights.
pub open spec fn values_len(v: ChannelValues) -> int {
    match v {
        ChannelValues::Translations(x) => x@.len() as int,
        ChannelValues::Rotations(x) => x@.len() as int,
        ChannelValues::Scales(x) => x@.len() as int,
        ChannelValues::MorphTargetWeights => -1,
    }
}

pub open spec fn strictly_increasing(ts: Seq<u64>) -> bool {
    forall|i: int| 0 < i < ts.len() ==> #[trigger] ts[i - 1] < ts[i]
}

/// A channel that can become a track: timestamps present and strictly
/// increasing, one value per timestamp, and a supported kind.
pub open spec fn channel_valid(c: ChannelInput) -> bool {
    &&& c.times@.len() > 0
    &&& strictly_increasing(c.times@)
    &&& kind_of(c.values).is_some()
    &&& values_len(c.values) == c.times@.len()
}

pub open spec fn channels_valid(chs: Seq<ChannelInput>) -> bool {
    forall|c: int| 0 <= c < chs.len() ==> channel_valid(#[trigger] chs[c])
}

/// No two channels animate the same component of the same mesh.
pub open spec fn no_duplicate_channels(chs: Seq<ChannelInput>) -> bool {
    forall|a: int, b: int| 0 <= a < chs.len() && 0 <= b < chs.len() && a != b
        && #[trigger] chs[a].mesh_id == #[trigger] chs[b].mesh_id && kind_of(chs[a].values).is_some()
        ==> kind_of(chs[a].values) != kind_of(chs[b].values)
}

/// Timestamps and values paired into keyframes.
pub open spec fn zip_keys_spec<V>(ts: Seq<u64>, vs: Seq<V>) -> Seq<Keyframe<V>> {
    Seq::new(ts.len(), |i: int| Keyframe { time: ts[i], value: vs[i] })
}

/// The track of kind `kind` (translation or scale) that `chs` gives mesh `m`.
pub open spec fn vec3_track_of(chs: Seq<ChannelInput>, m: usize, kind: ChannelKind) -> Option<Seq<Keyframe<Vec3>>>
    decreases chs.len(),
{
    if chs.len() == 0 {
        None
    } else {
        let c = chs.last();
        match c.values {
            ChannelValues::Translations(v) => if c.mesh_id == m && kind == ChannelKind::Translation {
                Some(zip_keys_spec(c.times@, v@))
            } else {
                vec3_track_of(chs.drop_last(), m, kind)
            },
            ChannelValues::Scales(v) => if c.mesh_id == m && kind == ChannelKind::Scale {
                Some(zip_keys_spec(c.times@, v@))
            } else {
                vec3_track_of(chs.drop_last(), m, kind)
            },
            _ => vec3_track_of(chs.drop_last(), m, kind),
        }
    }
}

/// The rotation track that `chs` gives mesh `m`.
pub open spec fn quat_track_of(chs: Seq<ChannelInput>, m: usize) -> Option<Seq<Keyframe<Quat>>>
    decreases chs.len(),
{
    if chs.len() == 0 {
        None
    } else {
        let c = chs.last();
        match c.values {
            ChannelValues::Rotations(v) => if c.mesh_id == m {
                Some(zip_keys_spec(c.times@, v@))
            } else {
                quat_track_of(chs.drop_last(), m)
            },
            _ => quat_track_of(chs.drop_last(), m),
        }
    }
}

/// The period of mesh `m`'s animation: the latest timestamp of its channels.
pub open spec fn period_of(chs: Seq<ChannelInput>, m: usize) -> u64
    decreases chs.len(),
{
    if chs.len() == 0 {
        0
    } else {
        let p = period_of(chs.drop_last(), m);
        let c = chs.last();
        if c.mesh_id == m && c.times@.len() > 0 && c.times@.last() > p {
            c.times@.last()
        } else {
            p
        }
    }
}

/// Some channel of `chs` targets mesh `m`.
pub open spec fn targets(chs: Seq<ChannelInput>, m: usize) -> bool {
    exists|c: int| 0 <= c < chs.len() && chs[c].mesh_id == m
}

pub open spec fn track_view<V>(t: Option<Vec<Keyframe<V>>>) -> Option<Seq<Keyframe<V>>> {
    match t {
        Some(v) => Some(v@),
        None => None,
    }
}

/// `a` is the looping animation named `name` that `chs` make for its mesh.
pub open spec fn assembled(a: Animation, name: Seq<char>, chs: Seq<ChannelInput>) -> bool {
    &&& a.name@ == name
    &&& a.do_loop
    &&& a.period == period_of(chs, a.mesh_id)
    &&& track_view(a.translation) == vec3_track_of(chs, a.mesh_id, ChannelKind::Translation)
    &&& track_view(a.rotation) == quat_track_of(chs, a.mesh_id)
    &&& track_view(a.scale) == vec3_track_of(chs, a.mesh_id, ChannelKind::Scale)
}

/// `e` names a fault that some channel of `chs` has.
pub open spec fn error_matches(e: AnimationError, chs: Seq<ChannelInput>) -> bool {
    match e {
        AnimationError::EmptyChannel { mesh_id } => exists|c: int| 0 <= c < chs.len()
            && chs[c].mesh_id == mesh_id && chs[c].times@.len() == 0,
        AnimationError::LengthMismatch { mesh_id } => exists|c: int| 0 <= c < chs.len()
            && chs[c].mesh_id == mesh_id && kind_of(chs[c].values).is_some() && values_len(chs[c].values) != chs[c].times@.len(),
        AnimationError::UnorderedTimes { mesh_id } => exists|c: int| 0 <= c < chs.len()
            && chs[c].mesh_id == mesh_id && !strictly_increasing(chs[c].times@),
        AnimationError::MorphTargetsUnsupported { mesh_id } => exists|c: int| 0 <= c < chs.len()
            && chs[c].mesh_id == mesh_id && kind_of(chs[c].values).is_none(),
        AnimationError::DuplicateChannel { mesh_id, kind } => exists|a: int, b: int| 0 <= a < chs.len() && 0 <= b < chs.len() && a != b
            && chs[a].mesh_id == mesh_id && chs[b].mesh_id == mesh_id
            && kind_of(chs[a].values) == Some(kind) && kind_of(chs[b].values) == Some(kind),
    }
}

/// Checks that a channel can become a track.
pub fn check_channel(c: &ChannelInput) -> (r: Result<(), AnimationError>)
    ensures
        r.is_ok() == channel_valid(*c),
        r.is_err() ==> error_matches(r.unwrap_err(), seq![*c]),
{
    let ghost s = seq![*c];
    assert(s[0] == *c);
    if c.times.len() == 0 {
        return Err(AnimationError::EmptyChannel { mesh_id: c.mesh_id });
    }
    let n = match &c.values {
        ChannelValues::Translations(v) => v.len(),
        ChannelValues::Rotations(v) => v.len(),
        ChannelValues::Scales(v) => v.len(),
        ChannelValues::MorphTargetWeights => {
            return Err(AnimationError::MorphTargetsUnsupported { mesh_id: c.mesh_id });
        },
    };
    if n != c.times.len() {
        return Err(AnimationError::LengthMismatch { mesh_id: c.mesh_id });
    }
    let mut i: usize = 1;
    while i < c.times.len()
        invariant
            1 <= i <= c.times@.len(),
            forall|k: int| 0 < k < i ==> #[trigger] c.times@[k - 1] < c.times@[k],
        decreases c.times@.len() - i,
    {
        if c.times[i - 1] >= c.times[i] {
            proof {
                let k = i as int;
                assert(!(c.times@[k - 1] < c.times@[k]));
                assert(!strictly_increasing(c.times@));
                assert(seq![*c][0] == *c);
            }
            return Err(AnimationError::UnorderedTimes { mesh_id: c.mesh_id });
        }
        i = i + 1;
    }
    Ok(())
}

/// Pairs timestamps with values.
pub fn zip_keys<V: Copy>(times: &Vec<u64>, values: &Vec<V>) -> (r: Vec<Keyframe<V>>)
    requires
        times@.len() == values@.len(),
    ensures
        r@ == zip_keys_spec(times@, values@),
{
    let mut out: Vec<Keyframe<V>> = Vec::new();
    let mut i: usize = 0;
    while i < times.len()
        invariant
            times@.len() == values@.len(),
            i <= times@.len(),
            out@.len() == i,
            forall|k: int| 0 <= k < i ==> #[trigger] out@[k] == zip_keys_spec(times@, values@)[k],
        decreases times@.len() - i,
    {
        out.push(Keyframe { time: times[i], value: values[i] });
        i = i + 1;
    }
    proof {
        assert(out@ =~= zip_keys_spec(times@, values@));
    }
    out
}

proof fn lemma_track_presence(chs: Seq<ChannelInput>, m: usize)
    ensures
        vec3_track_of(chs, m, ChannelKind::Translation).is_some() <==> exists|c: int| 0 <= c < chs.len()
            && chs[c].mesh_id == m && kind_of(chs[c].values) == Some(ChannelKind::Translation),
        vec3_track_of(chs, m, ChannelKind::Scale).is_some() <==> exists|c: int| 0 <= c < chs.len()
            && chs[c].mesh_id == m && kind_of(chs[c].values) == Some(ChannelKind::Scale),
        quat_track_of(chs, m).is_some() <==> exists|c: int| 0 <= c < chs.len()
            && chs[c].mesh_id == m && kind_of(chs[c].values) == Some(ChannelKind::Rotation),
        vec3_track_of(chs, m, ChannelKind::Rotation).is_none(),
        !targets(chs, m) ==> period_of(chs, m) == 0,
    decreases chs.len(),
{
    if chs.len() > 0 {
        let p = chs.drop_last();
        lemma_track_presence(p, m);
        let last = chs.len() - 1;
        assert forall|c: int| 0 <= c < p.len() implies p[c] == chs[c] by {}
        if exists|c: int| 0 <= c < p.len() && p[c].mesh_id == m && kind_of(p[c].values) == Some(ChannelKind::Translation) {
            let c = choose|c: int| 0 <= c < p.len() && p[c].mesh_id == m && kind_of(p[c].values) == Some(ChannelKind::Translation);
            assert(chs[c] == p[c]);
        }
        if exists|c: int| 0 <= c < p.len() && p[c].mesh_id == m && kind_of(p[c].values) == Some(ChannelKind::Scale) {
            let c = choose|c: int| 0 <= c < p.len() && p[c].mesh_id == m && kind_of(p[c].values) == Some(ChannelKind::Scale);
            assert(chs[c] == p[c]);
        }
        if exists|c: int| 0 <= c < p.len() && p[c].mesh_id == m && kind_of(p[c].values) == Some(ChannelKind::Rotation) {
            let c = choose|c: int| 0 <= c < p.len() && p[c].mesh_id == m && kind_of(p[c].values) == Some(ChannelKind::Rotation);
            assert(chs[c] == p[c]);
        }
        if exists|c: int| 0 <= c < chs.len() && chs[c].mesh_id == m && kind_of(chs[c].values) == Some(ChannelKind::Translation) {
            let c = choose|c: int| 0 <= c < chs.len() && chs[c].mesh_id == m && kind_of(chs[c].values) == Some(ChannelKind::Translation);
            if c < last {
                assert(p[c] == chs[c]);
            }
        }
        if exists|c: int| 0 <= c < chs.len() && chs[c].mesh_id == m && kind_of(chs[c].values) == Some(ChannelKind::Scale) {
            let c = choose|c: int| 0 <= c < chs.len() && chs[c].mesh_id == m && kind_of(chs[c].values) == Some(ChannelKind::Scale);
            if c < last {
                assert(p[c] == chs[c]);
            }
        }
        if exists|c: int| 0 <= c < chs.len() && chs[c].mesh_id == m && kind_of(chs[c].values) == Some(ChannelKind::Rotation) {
            let c = choose|c: int| 0 <= c < chs.len() && chs[c].mesh_id == m && kind_of(chs[c].values) == Some(ChannelKind::Rotation);
            if c < last {
                assert(p[c] == chs[c]);
            }
        }
        if !targets(chs, m) {
            assert(chs[last].mesh_id != m);
            assert forall|c: int| 0 <= c < p.len() implies p[c].mesh_id != m by {
                assert(chs[c] == p[c]);
            }
        }
    }
}

fn find_animation(anims: &Vec<Animation>, mesh_id: usize) -> (r: Option<usize>)
    ensures
        match r {
            Some(a) => a < anims@.len() && anims@[a as int].mesh_id == mesh_id,
            None => forall|a: int| 0 <= a < anims@.len() ==> (#[trigger] anims@[a]).mesh_id != mesh_id,
        },
{
    let mut a: usize = 0;
    while a < anims.len()
        invariant
            a <= anims@.len(),
            forall|b: int| 0 <= b < a ==> (#[trigger] anims@[b]).mesh_id != mesh_id,
        decreases anims@.len() - a,
    {
        if anims[a].mesh_id == mesh_id {
            return Some(a);
        }
        a = a + 1;
    }
    None
}

/// No channel animates morph target weights.
pub open spec fn no_morph_channels(chs: Seq<ChannelInput>) -> bool {
    forall|c: int| 0 <= c < chs.len() ==> kind_of((#[trigger] chs[c]).values).is_some()
}

/// Groups decoded channels into one looping animation per target mesh, in
/// the order the meshes first appear. Each animation's period is the latest
/// timestamp of its channels. Morph target weights are not supported: no
/// channel may carry them. Fails on a malformed channel or on two channels
/// animating the same component of one mesh.
pub fn assemble_animations(name: &String, channels: &Vec<ChannelInput>) -> (r: Result<Vec<Animation>, AnimationError>)
    requires
        no_morph_channels(channels@),
    ensures
        r.is_ok() == (channels_valid(channels@) && no_duplicate_channels(channels@)),
        match r {
            Ok(v) => {
                &&& forall|a: int| 0 <= a < v@.len() ==> assembled(#[trigger] v@[a], name@, channels@)
                &&& forall|a: int, b: int| 0 <= a < v@.len() && 0 <= b < v@.len() && a != b
                    ==> (#[trigger] v@[a]).mesh_id != (#[trigger] v@[b]).mesh_id
                &&& forall|a: int| 0 <= a < v@.len() ==> targets(channels@, (#[trigger] v@[a]).mesh_id)
                &&& forall|c: int| 0 <= c < channels@.len()
                    ==> exists|a: int| 0 <= a < v@.len() && v@[a].mesh_id == (#[trigger] channels@[c]).mesh_id
            },
            Err(e) => error_matches(e, channels@) && !(e is MorphTargetsUnsupported),
        },
{
    let ghost chs = channels@;
    let mut anims: Vec<Animation> = Vec::new();
    let mut i: usize = 0;
    while i < channels.len()
        invariant
            chs == channels@,
            no_morph_channels(chs),
            i <= chs.len(),
            forall|a: int| 0 <= a < anims@.len() ==> assembled(#[trigger] anims@[a], name@, chs.take(i as int)),
            forall|a: int, b: int| 0 <= a < anims@.len() && 0 <= b < anims@.len() && a != b
                ==> (#[trigger] anims@[a]).mesh_id != (#[trigger] anims@[b]).mesh_id,
            forall|a: int| 0 <= a < anims@.len() ==> targets(chs.take(i as int), (#[trigger] anims@[a]).mesh_id),
            forall|c: int| 0 <= c < i ==> exists|a: int| 0 <= a < anims@.len() && anims@[a].mesh_id == (#[trigger] chs[c]).mesh_id,
            forall|c: int| 0 <= c < i ==> channel_valid(#[trigger] chs[c]),
            no_duplicate_channels(chs.take(i as int)),
        decreases chs.len() - i,
    {
        let c = &channels[i];
        let ghost top = anims@;
        let ghost p = chs.take(i as int);
        let ghost q = chs.take(i as int + 1);
        proof {
            assert(q.drop_last() =~= p);
            assert(q.last() == chs[i as int]);
        }
        match check_channel(c) {
            Ok(()) => {},
            Err(e) => {
                proof {
                    assert(seq![*c][0] == chs[i as int]);
                    assert(kind_of(chs[i as int].values).is_some());
                    if e is MorphTargetsUnsupported {
                        let k = choose|k: int| 0 <= k < seq![*c].len() && seq![*c][k].mesh_id == e->MorphTargetsUnsupported_mesh_id
                            && kind_of(seq![*c][k].values).is_none();
                        assert(k == 0);
                    }
                }
                return Err(e);
            },
        }
        let m = c.mesh_id;
        let a = match find_animation(&anims, m) {
            Some(a) => a,
            None => {
                proof {
                    lemma_track_presence(p, m);
                    assert(!targets(p, m)) by {
                        if targets(p, m) {
                            let k = choose|k: int| 0 <= k < p.len() && p[k].mesh_id == m;
                            assert(chs[k] == p[k]);
                            let a = choose|a: int| 0 <= a < anims@.len() && anims@[a].mesh_id == chs[k].mesh_id;
                        }
                    }
                }
                anims.push(Animation {
                    name: name.clone(),
                    mesh_id: m,
                    translation: None,
                    rotation: None,
                    scale: None,
                    period: 0,
                    do_loop: true,
                });
                anims.len() - 1
            },
        };
        let ghost before = anims@;
        proof {
            assert(before.len() >= top.len());
            assert forall|x: int| 0 <= x < top.len() implies #[trigger] before[x] == top[x] by {}
        }
        proof {
            lemma_track_presence(p, m);
        }
        let last_time = c.times[c.times.len() - 1];
        match &c.values {
            ChannelValues::Translations(v) => {
                if anims[a].translation.is_some() {
                    proof {
                        let k = choose|k: int| 0 <= k < p.len() && p[k].mesh_id == m && kind_of(p[k].values) == Some(ChannelKind::Translation);
                        assert(chs[k] == p[k]);
                    }
                    return Err(AnimationError::DuplicateChannel { mesh_id: m, kind: ChannelKind::Translation });
                }
                let keys = zip_keys(&c.times, v);
                anims[a].translation = Some(keys);
            },
            ChannelValues::Rotations(v) => {
                if anims[a].rotation.is_some() {
                    proof {
                        let k = choose|k: int| 0 <= k < p.len() && p[k].mesh_id == m && kind_of(p[k].values) == Some(ChannelKind::Rotation);
                        assert(chs[k] == p[k]);
                    }
                    return Err(AnimationError::DuplicateChannel { mesh_id: m, kind: ChannelKind::Rotation });
                }
                let keys = zip_keys(&c.times, v);
                anims[a].rotation = Some(keys);
            },
            ChannelValues::Scales(v) => {
                if anims[a].scale.is_some() {
                    proof {
                        let k = choose|k: int| 0 <= k < p.len() && p[k].mesh_id == m && kind_of(p[k].values) == Some(ChannelKind::Scale);
                        assert(chs[k] == p[k]);
                    }
                    return Err(AnimationError::DuplicateChannel { mesh_id: m, kind: ChannelKind::Scale });
                }
                let keys = zip_keys(&c.times, v);
                anims[a].scale = Some(keys);
            },
            ChannelValues::MorphTargetWeights => {
                return Err(AnimationError::MorphTargetsUnsupported { mesh_id: m });
            },
        }
        if last_time > anims[a].period {
            anims[a].period = last_time;
        }
        proof {
            assert(anims@.len() == before.len());
            assert forall|x: int| 0 <= x < anims@.len() implies #[trigger] anims@[x].mesh_id == before[x].mesh_id by {
                if x != a {
                    assert(anims@[x] == before[x]);
                }
            }
            assert(c.times@.last() == last_time);
            assert forall|b: int| 0 <= b < anims@.len() implies assembled(#[trigger] anims@[b], name@, q) by {
                if b != a {
                    assert(anims@[b] == before[b]);
                }
            }
            assert forall|b: int| 0 <= b < anims@.len() implies targets(q, (#[trigger] anims@[b]).mesh_id) by {
                if b == a {
                    assert(q[i as int].mesh_id == m);
                } else {
                    assert(anims@[b] == before[b]);
                    let k = choose|k: int| 0 <= k < p.len() && p[k].mesh_id == before[b].mesh_id;
                    assert(q[k] == p[k]);
                }
            }
            assert forall|x: int, y: int| 0 <= x < anims@.len() && 0 <= y < anims@.len() && x != y
                implies (#[trigger] anims@[x]).mesh_id != (#[trigger] anims@[y]).mesh_id by {
                assert(anims@[x].mesh_id == before[x].mesh_id);
                assert(anims@[y].mesh_id == before[y].mesh_id);
            }
            assert forall|k: int| 0 <= k < i + 1 implies exists|b: int| 0 <= b < anims@.len() && anims@[b].mesh_id == (#[trigger] chs[k]).mesh_id by {
                if k == i {
                    assert(anims@[a as int].mesh_id == chs[k].mesh_id);
                } else {
                    let b = choose|b: int| 0 <= b < top.len() && top[b].mesh_id == chs[k].mesh_id;
                    assert(before[b] == top[b]);
                    assert(anims@[b].mesh_id == before[b].mesh_id);
                }
            }
            assert(no_duplicate_channels(q)) by {
                assert forall|x: int, y: int| 0 <= x < q.len() && 0 <= y < q.len() && x != y
                    && #[trigger] q[x].mesh_id == #[trigger] q[y].mesh_id && kind_of(q[x].values).is_some()
                    implies kind_of(q[x].values) != kind_of(q[y].values) by {
                    if x < i && y < i {
                        assert(q[x] == p[x] && q[y] == p[y]);
                    } else if x < i {
                        assert(q[x] == p[x]);
                    } else if y < i {
                        assert(q[y] == p[y]);
                    }
                }
            }
        }
        i = i + 1;
    }
    proof {
        assert(chs.take(chs.len() as int) =~= chs);
    }
    Ok(anims)
}

} // verus!
