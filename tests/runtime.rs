use xr_wgpu::config::{BindGroupConfig, BindGroupEntry, BindGroupEntryType, BindGroupVisibilty};
use xr_wgpu::controller::{key_for, Controller, InputKey, Key};
use xr_wgpu::frame::{FrameState, FrameStep, SurfaceSize};
use xr_wgpu::material::{
    check_material, material_source, plan_material, plan_obj_material, MaterialError, MaterialFactor, MaterialSource, MaterialTextures,
    ObjMaterialPresence, ObjProperty, ObjSource, ObjTexture,
};
use xr_wgpu::module::{Drawable, DrawableRegistry};
use xr_wgpu::pipeline::RenderPipelineInfo;

#[test]
fn controller_tracks_held_keys() {
    let mut c = Controller::new();
    assert!(!c.get_state().forward);
    assert!(c.handle_input(InputKey::KeyW, true));
    assert!(c.handle_input(InputKey::Space, true));
    assert!(c.get_state().forward && c.get_state().up);
    assert!(c.handle_input(InputKey::KeyW, false));
    assert!(!c.get_state().forward && c.get_state().up);
    assert!(!c.handle_input(InputKey::Other, true));
    c.set_state(Key::TurnRight, true);
    assert!(c.get_state().turnright && !c.get_state().turnleft);
    assert_eq!(key_for(InputKey::ShiftLeft), Some(Key::Down));
    assert_eq!(key_for(InputKey::KeyQ), Some(Key::TurnLeft));
}

#[test]
fn resize_handled_before_next_draw() {
    let mut f = FrameState::new(SurfaceSize { width: 800, height: 600 });
    assert_eq!(f.begin_frame(), FrameStep::Draw);
    f.set_window_resized(SurfaceSize { width: 800, height: 600 });
    assert_eq!(f.begin_frame(), FrameStep::Draw);
    f.set_window_resized(SurfaceSize { width: 1024, height: 768 });
    assert_eq!(f.begin_frame(), FrameStep::Reconfigure(SurfaceSize { width: 1024, height: 768 }));
    assert_eq!(f.begin_frame(), FrameStep::Draw);
    f.set_window_resized(SurfaceSize { width: 0, height: 768 });
    assert_eq!(f.begin_frame(), FrameStep::Skip);
    f.set_window_resized(SurfaceSize { width: 640, height: 480 });
    assert_eq!(f.begin_frame(), FrameStep::Reconfigure(SurfaceSize { width: 640, height: 480 }));
    assert_eq!(f.get_size(), SurfaceSize { width: 640, height: 480 });
    f.update(16);
    f.update(17);
    assert_eq!(f.elapsed(), 33);
}

#[test]
fn material_bindings_resolve() {
    let t = MaterialTextures { base_color: Some(0), metallic_roughness: Some(1), normal: None, occlusion: None, emissive: Some(5) };
    assert_eq!(material_source(0, &t, 2), Ok(MaterialSource::Factor(MaterialFactor::BaseColor)));
    assert_eq!(material_source(11, &t, 2), Ok(MaterialSource::Factor(MaterialFactor::Emissive)));
    assert_eq!(material_source(3, &t, 2), Ok(MaterialSource::TextureView(0)));
    assert_eq!(material_source(6, &t, 2), Ok(MaterialSource::Sampler(1)));
    assert_eq!(material_source(7, &t, 2), Err(MaterialError::MissingTexture { binding: 7 }));
    assert_eq!(material_source(12, &t, 2), Err(MaterialError::TextureOutOfRange { binding: 12, index: 5 }));
    assert_eq!(material_source(14, &t, 2), Err(MaterialError::UnknownBinding { binding: 14 }));
    let entry = |binding| BindGroupEntry { binding, ty: BindGroupEntryType::Uniform, visibility: BindGroupVisibilty::Fragment };
    let config = BindGroupConfig { entries: vec![entry(0), entry(3), entry(4)] };
    assert_eq!(check_material(&t, 2, &config), Ok(()));
    assert_eq!(
        plan_material(&t, 2, &config),
        vec![
            (0, MaterialSource::Factor(MaterialFactor::BaseColor)),
            (3, MaterialSource::TextureView(0)),
            (4, MaterialSource::Sampler(0)),
        ]
    );
    let bad = BindGroupConfig { entries: vec![entry(0), entry(9)] };
    assert_eq!(check_material(&t, 2, &bad), Err(MaterialError::MissingTexture { binding: 9 }));
    let unknown = BindGroupConfig { entries: vec![entry(14)] };
    assert_eq!(check_material(&t, 2, &unknown), Err(MaterialError::UnknownBinding { binding: 14 }));
}

#[test]
fn emissive_view_then_sampler() {
    let t = MaterialTextures { base_color: None, metallic_roughness: None, normal: None, occlusion: None, emissive: Some(1) };
    assert_eq!(material_source(12, &t, 2), Ok(MaterialSource::TextureView(1)));
    assert_eq!(material_source(13, &t, 2), Ok(MaterialSource::Sampler(1)));
    let full = MaterialTextures { base_color: Some(0), metallic_roughness: Some(0), normal: Some(0), occlusion: Some(0), emissive: Some(0) };
    for b in [3usize, 5, 7, 9, 12] {
        assert_eq!(material_source(b, &full, 1), Ok(MaterialSource::TextureView(0)));
    }
    for b in [4usize, 6, 8, 10, 13] {
        assert_eq!(material_source(b, &full, 1), Ok(MaterialSource::Sampler(0)));
    }
    let entry = |binding| BindGroupEntry { binding, ty: BindGroupEntryType::Texture, visibility: BindGroupVisibilty::Fragment };
    let config = BindGroupConfig { entries: vec![entry(11), entry(12), entry(13)] };
    assert_eq!(
        plan_material(&t, 2, &config),
        vec![
            (11, MaterialSource::Factor(MaterialFactor::Emissive)),
            (12, MaterialSource::TextureView(1)),
            (13, MaterialSource::Sampler(1)),
        ]
    );
}

#[test]
fn drawables_need_a_pipeline_for_their_tag() {
    let mut reg: DrawableRegistry<Drawable<&str, u8>> = DrawableRegistry::new();
    reg.register_drawable("background".to_string(), Drawable::Instanced { model: "plane", first_instance: 0, end_instance: 1, buffer: 0 });
    reg.register_drawable("player".to_string(), Drawable::Animated { model: "player" });
    assert_eq!(reg.len(), 2);
    assert_eq!(reg.get(1).0, "player");
    let mut pipelines: RenderPipelineInfo<u32> = RenderPipelineInfo::new();
    pipelines.insert("background".to_string(), 1);
    assert_eq!(reg.first_unbound(&pipelines), Some(1));
    pipelines.insert("player".to_string(), 2);
    assert_eq!(reg.first_unbound(&pipelines), None);
}

#[test]
fn index_buffer_bytes_are_little_endian() {
    assert_eq!(xr_wgpu::bytes::u32_le_bytes(0x0403_0201), [1, 2, 3, 4]);
    assert_eq!(
        xr_wgpu::bytes::index_bytes(&vec![3, 1, 0x0102_0304]),
        vec![3, 0, 0, 0, 1, 0, 0, 0, 4, 3, 2, 1]
    );
    assert!(xr_wgpu::bytes::index_bytes(&vec![]).is_empty());
}

#[test]
fn obj_material_fills_declared_bindings_in_order() {
    let none = ObjMaterialPresence {
        ambient: false,
        diffuse: false,
        specular: false,
        shininess: false,
        dissolve: false,
        optical_density: false,
        ambient_texture: false,
        diffuse_texture: false,
        specular_texture: false,
        normal_texture: false,
        shininess_texture: false,
        dissolve_texture: false,
        illumination_model: false,
    };
    assert!(plan_obj_material(&none).is_empty());
    let some = ObjMaterialPresence { diffuse: true, diffuse_texture: true, illumination_model: true, ..none };
    assert_eq!(
        plan_obj_material(&some),
        vec![
            (1, ObjSource::Property(ObjProperty::Diffuse)),
            (8, ObjSource::TextureView(ObjTexture::Diffuse)),
            (9, ObjSource::Sampler(ObjTexture::Diffuse)),
            (18, ObjSource::Property(ObjProperty::IlluminationModel)),
        ]
    );
    let all = ObjMaterialPresence {
        ambient: true,
        diffuse: true,
        specular: true,
        shininess: true,
        dissolve: true,
        optical_density: true,
        ambient_texture: true,
        diffuse_texture: true,
        specular_texture: true,
        normal_texture: true,
        shininess_texture: true,
        dissolve_texture: true,
        illumination_model: true,
    };
    let plan = plan_obj_material(&all);
    assert_eq!(plan.len(), 19);
    assert_eq!(plan[13], (13, ObjSource::Sampler(ObjTexture::Normal)));
    assert_eq!(plan[16], (16, ObjSource::TextureView(ObjTexture::Dissolve)));
}
