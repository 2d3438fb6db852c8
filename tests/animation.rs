use xr_wgpu::animation::{
    effective_time, evaluate_rotation, evaluate_vec3, lerp, locate, Animation, Keyframe, Quat, RotationSample,
    SamplePoint, TransformSample, Vec3, FIXED_ONE,
};
use xr_wgpu::assemble::{assemble_animations, check_channel, AnimationError, ChannelInput, ChannelKind, ChannelValues};

fn v(x: i32, y: i32, z: i32) -> Vec3 {
    Vec3 { x, y, z }
}

fn key<V>(time: u64, value: V) -> Keyframe<V> {
    Keyframe { time, value }
}

fn translation_only(keys: Vec<Keyframe<Vec3>>, period: u64, do_loop: bool) -> Animation {
    Animation {
        name: "walk".to_string(),
        mesh_id: 0,
        translation: Some(keys),
        rotation: None,
        scale: None,
        period,
        do_loop,
    }
}

const ZERO: Vec3 = Vec3 { x: 0, y: 0, z: 0 };
const ONE: Vec3 = Vec3 { x: FIXED_ONE, y: FIXED_ONE, z: FIXED_ONE };
const IDENTITY: Quat = Quat { x: 0, y: 0, z: 0, w: FIXED_ONE };

#[test]
fn end_to_end_half_way_and_one_period_later() {
    // times in milliseconds: 0.0 s and 1.0 s, period 1.0 s
    let a = translation_only(vec![key(0, v(0, 0, 0)), key(1000, v(10, 0, 0))], 1000, true);
    let half = a.sample(500);
    assert_eq!(half.translation, v(5, 0, 0));
    assert_eq!(a.sample(1500), half);
    assert_eq!(half.rotation, RotationSample::Exact(IDENTITY));
    assert_eq!(half.scale, ONE);
}

#[test]
fn sampling_is_repeatable() {
    let a = translation_only(vec![key(0, v(3, -7, 11)), key(700, v(-90, 40, 13))], 700, true);
    for t in [0u64, 1, 233, 699, 700, 12345] {
        assert_eq!(a.sample(t), a.sample(t));
    }
}

#[test]
fn looping_repeats_every_period() {
    let a = translation_only(vec![key(0, v(0, 0, 0)), key(400, v(400, 800, -400)), key(1000, v(0, 0, 0))], 1000, true);
    for t in [0u64, 1, 250, 399, 400, 777, 999] {
        assert_eq!(a.sample(t), a.sample(t + 1000));
        assert_eq!(a.sample(t), a.sample(t + 3000));
    }
}

#[test]
fn non_looping_holds_after_period() {
    let a = translation_only(vec![key(0, v(0, 0, 0)), key(1000, v(100, 0, 0))], 1000, false);
    let end = a.sample(1000);
    assert_eq!(end.translation, v(100, 0, 0));
    for t in [1000u64, 1001, 5000, u64::MAX] {
        assert_eq!(a.sample(t), end);
    }
}

#[test]
fn time_zero_gives_first_key_exactly() {
    let a = Animation {
        name: "spin".to_string(),
        mesh_id: 2,
        translation: Some(vec![key(0, v(7, 8, 9)), key(10, v(0, 0, 0))]),
        rotation: Some(vec![key(0, Quat { x: 1, y: 2, z: 3, w: 4 }), key(10, IDENTITY)]),
        scale: Some(vec![key(5, v(2, 2, 2)), key(10, v(4, 4, 4))]),
        period: 10,
        do_loop: true,
    };
    let s = a.sample(0);
    assert_eq!(
        s,
        TransformSample {
            translation: v(7, 8, 9),
            rotation: RotationSample::Exact(Quat { x: 1, y: 2, z: 3, w: 4 }),
            scale: v(2, 2, 2),
        }
    );
}

#[test]
fn missing_channels_and_empty_period_give_identity() {
    let a = Animation {
        name: "still".to_string(),
        mesh_id: 0,
        translation: None,
        rotation: None,
        scale: None,
        period: 10,
        do_loop: true,
    };
    assert_eq!(a.sample(3), TransformSample { translation: ZERO, rotation: RotationSample::Exact(IDENTITY), scale: ONE });
    let b = translation_only(vec![key(0, v(5, 5, 5))], 0, true);
    assert_eq!(b.sample(3).translation, ZERO);
    assert_eq!(evaluate_vec3(&vec![], 10, true, 3, ONE), ONE);
}

#[test]
fn single_key_gives_its_value() {
    let keys = vec![key(4, v(1, 2, 3))];
    for t in [0u64, 4, 9] {
        assert_eq!(evaluate_vec3(&keys, 10, false, t, ZERO), v(1, 2, 3));
    }
}

#[test]
fn locate_finds_bracketing_pair() {
    let keys = vec![key(0, ()), key(10, ()), key(30, ()), key(60, ())];
    assert_eq!(locate(&keys, 60, false, 0), SamplePoint::Key(0));
    assert_eq!(locate(&keys, 60, false, 5), SamplePoint::Blend { prev: 0, curr: 1, num: 5, den: 10 });
    assert_eq!(locate(&keys, 60, false, 10), SamplePoint::Blend { prev: 0, curr: 1, num: 10, den: 10 });
    assert_eq!(locate(&keys, 60, false, 45), SamplePoint::Blend { prev: 2, curr: 3, num: 15, den: 30 });
    assert_eq!(locate(&keys, 100, false, 80), SamplePoint::Key(3));
    assert_eq!(locate(&keys, 0, false, 80), SamplePoint::Identity);
    let empty: Vec<Keyframe<()>> = vec![];
    assert_eq!(locate(&empty, 60, true, 5), SamplePoint::Identity);
}

#[test]
fn effective_time_wraps_or_clamps() {
    assert_eq!(effective_time(2500, 1000, true), 500);
    assert_eq!(effective_time(2500, 1000, false), 1000);
    assert_eq!(effective_time(999, 1000, false), 999);
    assert_eq!(effective_time(1000, 1000, true), 0);
}

#[test]
fn lerp_exact_values() {
    assert_eq!(lerp(0, 10, 1, 2), 5);
    assert_eq!(lerp(10, 0, 1, 4), 8);
    assert_eq!(lerp(-10, 10, 3, 4), 5);
    assert_eq!(lerp(7, 7, 1, 3), 7);
    assert_eq!(lerp(0, 10, 1, 3), 3);
    assert_eq!(lerp(10, 0, 1, 3), 7);
    assert_eq!(lerp(i32::MIN, i32::MAX, 1, 1), i32::MAX);
    assert_eq!(lerp(i32::MAX, i32::MIN, 1, 1), i32::MIN);
    assert_eq!(lerp(i32::MIN, i32::MAX, 0, 5), i32::MIN);
}

#[test]
fn rotation_between_keys_is_a_slerp_request() {
    let q0 = IDENTITY;
    let q1 = Quat { x: 0, y: 46341, z: 0, w: 46341 };
    let keys = vec![key(0, q0), key(100, q1)];
    assert_eq!(
        evaluate_rotation(&keys, 100, true, 25),
        RotationSample::Slerp { from: q0, to: q1, num: 25, den: 100 }
    );
    assert_eq!(evaluate_rotation(&keys, 100, true, 0), RotationSample::Exact(q0));
}

fn channel(mesh_id: usize, times: Vec<u64>, values: ChannelValues) -> ChannelInput {
    ChannelInput { mesh_id, times, values }
}

#[test]
fn channels_group_by_mesh() {
    let channels = vec![
        channel(3, vec![0, 1000], ChannelValues::Translations(vec![v(0, 0, 0), v(10, 0, 0)])),
        channel(1, vec![0, 500], ChannelValues::Scales(vec![v(1, 1, 1), v(2, 2, 2)])),
        channel(3, vec![0, 2000], ChannelValues::Rotations(vec![IDENTITY, IDENTITY])),
    ];
    let anims = assemble_animations(&"walk".to_string(), &channels).unwrap();
    assert_eq!(anims.len(), 2);
    assert_eq!(anims[0].mesh_id, 3);
    assert_eq!(anims[0].period, 2000);
    assert!(anims[0].do_loop);
    assert_eq!(anims[0].name, "walk");
    assert_eq!(anims[0].translation, Some(vec![key(0, v(0, 0, 0)), key(1000, v(10, 0, 0))]));
    assert_eq!(anims[0].rotation.as_ref().map(|r| r.len()), Some(2));
    assert!(anims[0].scale.is_none());
    assert_eq!(anims[1].mesh_id, 1);
    assert_eq!(anims[1].period, 500);
    assert!(anims[1].translation.is_none());
    assert_eq!(anims[1].scale.as_ref().map(|s| s[1].value), Some(v(2, 2, 2)));
}

#[test]
fn duplicate_channel_is_an_error() {
    let channels = vec![
        channel(0, vec![0, 10], ChannelValues::Translations(vec![ZERO, ZERO])),
        channel(0, vec![0, 20], ChannelValues::Translations(vec![ZERO, ZERO])),
    ];
    assert_eq!(
        assemble_animations(&"a".to_string(), &channels).err(),
        Some(AnimationError::DuplicateChannel { mesh_id: 0, kind: ChannelKind::Translation })
    );
}

#[test]
fn malformed_channels_are_errors() {
    assert_eq!(
        check_channel(&channel(1, vec![], ChannelValues::Scales(vec![]))),
        Err(AnimationError::EmptyChannel { mesh_id: 1 })
    );
    assert_eq!(
        check_channel(&channel(2, vec![0, 1], ChannelValues::Scales(vec![ONE]))),
        Err(AnimationError::LengthMismatch { mesh_id: 2 })
    );
    assert_eq!(
        check_channel(&channel(3, vec![0, 5, 5], ChannelValues::Translations(vec![ZERO, ZERO, ZERO]))),
        Err(AnimationError::UnorderedTimes { mesh_id: 3 })
    );
    assert_eq!(
        check_channel(&channel(4, vec![0], ChannelValues::MorphTargetWeights)),
        Err(AnimationError::MorphTargetsUnsupported { mesh_id: 4 })
    );
    assert_eq!(check_channel(&channel(5, vec![0, 1], ChannelValues::Rotations(vec![IDENTITY, IDENTITY]))), Ok(()));
    let channels = vec![
        channel(4, vec![0, 10], ChannelValues::Translations(vec![ZERO, ONE])),
        channel(5, vec![10, 0], ChannelValues::Scales(vec![ONE, ONE])),
    ];
    assert_eq!(
        assemble_animations(&"m".to_string(), &channels).err(),
        Some(AnimationError::UnorderedTimes { mesh_id: 5 })
    );
}

#[test]
fn channel_kinds() {
    use_kind(ChannelValues::Translations(vec![]), Some(ChannelKind::Translation));
    use_kind(ChannelValues::Rotations(vec![]), Some(ChannelKind::Rotation));
    use_kind(ChannelValues::Scales(vec![]), Some(ChannelKind::Scale));
    use_kind(ChannelValues::MorphTargetWeights, None);
}

fn use_kind(v: ChannelValues, expected: Option<ChannelKind>) {
    assert_eq!(xr_wgpu::assemble::channel_kind(&v), expected);
}
