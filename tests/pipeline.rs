use xr_wgpu::bindgroup::{build_layout_entries, check_bind_groups, BindGroupInfo, BindingKind, BuildError, LayoutEntryDesc};
use xr_wgpu::config::{
    BindGroupConfig, BindGroupEntry, BindGroupEntryType, BindGroupVisibilty, GraphConfig, PipelineConfig,
    ResourceConfig, ShaderConfig, VertexBufferConfig, VertexBufferLayout, VertexBufferLayoutFormat, VertexStepMode,
};
use xr_wgpu::pipeline::{build_graph, needs_depth, RenderPipelineInfo};
use xr_wgpu::registry::NameMap;
use xr_wgpu::vertex::{build_layout, format_size, VertexBufferInfo};
use xr_wgpu::config::VertexBufferLayoutFormat::{Float32x2, Float32x3, Float32x4};

fn layout(location: usize, format: VertexBufferLayoutFormat) -> VertexBufferLayout {
    VertexBufferLayout { location, format }
}

fn shader(file: &str) -> ShaderConfig {
    ShaderConfig {
        filename: file.to_string(),
        vertex_entry: "vs_main".to_string(),
        fragment_entry: "fs_main".to_string(),
    }
}

fn entry(binding: usize, ty: BindGroupEntryType, visibility: BindGroupVisibilty) -> BindGroupEntry {
    BindGroupEntry { binding, ty, visibility }
}

fn pipeline(shader: &str, layouts: &[&str], group: &str) -> PipelineConfig {
    PipelineConfig {
        shader: shader.to_string(),
        depth_texture: true,
        vertex_buffer_layouts: layouts.iter().map(|s| s.to_string()).collect(),
        bind_group_layout: group.to_string(),
    }
}

fn sample_config() -> GraphConfig {
    GraphConfig {
        version: "1.0.0".to_string(),
        name: "MyGame grapher".to_string(),
        resources: ResourceConfig {
            shaders: vec![
                ("backgound".to_string(), shader("backgound.wgsl")),
                ("item".to_string(), shader("item.wgsl")),
            ],
            vertexbuffers: vec![
                (
                    "vertex".to_string(),
                    VertexBufferConfig {
                        layouts: vec![layout(0, Float32x3), layout(1, Float32x2), layout(2, Float32x3)],
                        mode: VertexStepMode::VERTEX,
                    },
                ),
                (
                    "instance".to_string(),
                    VertexBufferConfig {
                        layouts: vec![layout(5, Float32x4), layout(6, Float32x4), layout(7, Float32x4), layout(8, Float32x4)],
                        mode: VertexStepMode::INSTANCE,
                    },
                ),
            ],
            bindgroups: vec![
                (
                    "camera".to_string(),
                    BindGroupConfig { entries: vec![entry(0, BindGroupEntryType::Uniform, BindGroupVisibilty::Vertex)] },
                ),
                (
                    "texture".to_string(),
                    BindGroupConfig {
                        entries: vec![
                            entry(0, BindGroupEntryType::Texture, BindGroupVisibilty::Fragment),
                            entry(1, BindGroupEntryType::Sampler, BindGroupVisibilty::Fragment),
                        ],
                    },
                ),
            ],
        },
        pipelines: vec![
            ("backgound".to_string(), pipeline("backgound", &["vertex"], "texture")),
            ("item".to_string(), pipeline("item", &["vertex", "instance"], "texture")),
        ],
    }
}

#[test]
fn format_sizes() {
    assert_eq!(format_size(VertexBufferLayoutFormat::Float32), 4);
    assert_eq!(format_size(VertexBufferLayoutFormat::Float32x2), 8);
    assert_eq!(format_size(VertexBufferLayoutFormat::Float32x3), 12);
    assert_eq!(format_size(VertexBufferLayoutFormat::Float32x4), 16);
}

#[test]
fn stride_and_offsets_of_position_texcoord_normal() {
    let config = VertexBufferConfig {
        layouts: vec![layout(0, Float32x3), layout(1, Float32x2), layout(2, Float32x3)],
        mode: VertexStepMode::VERTEX,
    };
    let desc = build_layout(&config);
    assert_eq!(desc.stride, 32);
    let offsets: Vec<u64> = desc.attrs.iter().map(|a| a.offset).collect();
    assert_eq!(offsets, vec![0, 12, 20]);
    let locations: Vec<usize> = desc.attrs.iter().map(|a| a.shader_location).collect();
    assert_eq!(locations, vec![0, 1, 2]);
    assert_eq!(desc.mode, VertexStepMode::VERTEX);
}

#[test]
fn instance_layout_of_four_columns() {
    let config = VertexBufferConfig {
        layouts: (5..9).map(|l| layout(l, VertexBufferLayoutFormat::Float32x4)).collect(),
        mode: VertexStepMode::INSTANCE,
    };
    let desc = build_layout(&config);
    assert_eq!(desc.stride, 64);
    let offsets: Vec<u64> = desc.attrs.iter().map(|a| a.offset).collect();
    assert_eq!(offsets, vec![0, 16, 32, 48]);
    assert_eq!(desc.mode, VertexStepMode::INSTANCE);
}

#[test]
fn empty_layout_has_zero_stride() {
    let config = VertexBufferConfig { layouts: vec![], mode: VertexStepMode::VERTEX };
    let desc = build_layout(&config);
    assert_eq!(desc.stride, 0);
    assert!(desc.attrs.is_empty());
}

#[test]
fn vertex_buffer_info_keyed_by_name() {
    let config = sample_config();
    let mut info = VertexBufferInfo::new();
    info.setup_config(&config);
    assert_eq!(info.get_desc("vertex").unwrap().stride, 32);
    assert_eq!(info.get_desc("instance").unwrap().stride, 64);
    assert!(info.get_desc("missing").is_none());
}

#[test]
fn bind_group_entries_map_kinds() {
    let config = BindGroupConfig {
        entries: vec![
            entry(0, BindGroupEntryType::Texture, BindGroupVisibilty::Fragment),
            entry(1, BindGroupEntryType::Sampler, BindGroupVisibilty::ALL),
            entry(2, BindGroupEntryType::Uniform, BindGroupVisibilty::Vertex),
        ],
    };
    let entries = build_layout_entries(&config).unwrap();
    assert_eq!(
        entries,
        vec![
            LayoutEntryDesc { binding: 0, visibility: BindGroupVisibilty::Fragment, kind: BindingKind::SampledTexture },
            LayoutEntryDesc { binding: 1, visibility: BindGroupVisibilty::ALL, kind: BindingKind::FilteringSampler },
            LayoutEntryDesc { binding: 2, visibility: BindGroupVisibilty::Vertex, kind: BindingKind::UniformBuffer },
        ]
    );
}

#[test]
fn storage_entries_are_refused() {
    let config = BindGroupConfig {
        entries: vec![
            entry(0, BindGroupEntryType::Uniform, BindGroupVisibilty::Vertex),
            entry(3, BindGroupEntryType::Storage, BindGroupVisibilty::Vertex),
        ],
    };
    assert_eq!(build_layout_entries(&config), Err(3));
    let ro = BindGroupConfig { entries: vec![entry(4, BindGroupEntryType::StorageRo, BindGroupVisibilty::ALL)] };
    assert_eq!(build_layout_entries(&ro), Err(4));

    let mut graph = sample_config();
    assert_eq!(check_bind_groups(&graph), Ok(()));
    graph.resources.bindgroups.push(("storage".to_string(), config));
    assert_eq!(
        check_bind_groups(&graph),
        Err(BuildError::UnsupportedBinding { group: "storage".to_string(), binding: 3 })
    );
}

#[test]
fn bind_group_info_keyed_by_name() {
    let config = sample_config();
    let mut info = BindGroupInfo::new();
    info.setup(&config);
    assert_eq!(info.get("camera").unwrap()[0].kind, BindingKind::UniformBuffer);
    assert_eq!(info.get("texture").unwrap().len(), 2);
    assert!(info.get("storage").is_none());
}

#[test]
fn graph_from_sample_config() {
    let config = sample_config();
    let plan = build_graph(&config).unwrap();
    assert_eq!(plan.pipelines.len(), 2);
    let item = &plan.pipelines[1];
    assert_eq!(item.name, "item");
    assert_eq!(item.shader, "item");
    assert_eq!(item.vertex_entry, "vs_main");
    assert_eq!(item.fragment_entry, "fs_main");
    assert!(item.depth_texture);
    assert_eq!(item.bind_group_layout, "texture");
    let strides: Vec<u64> = item.vertex_layouts.iter().map(|l| l.stride).collect();
    assert_eq!(strides, vec![32, 64]);
    assert_eq!(item.vertex_layouts[1].mode, VertexStepMode::INSTANCE);
    assert_eq!(plan.pipelines[0].vertex_layouts.len(), 1);
    assert_eq!(plan.bind_group_info.get("camera").unwrap().len(), 1);
    assert_eq!(plan.bind_group_info.get("texture").unwrap()[1].kind, BindingKind::FilteringSampler);
    assert!(needs_depth(&plan.pipelines));
}

#[test]
fn no_depth_without_depth_pipelines() {
    let mut config = sample_config();
    for p in config.pipelines.iter_mut() {
        p.1.depth_texture = false;
    }
    let plan = build_graph(&config).unwrap();
    assert!(!needs_depth(&plan.pipelines));
    assert!(!needs_depth(&vec![]));
}

#[test]
fn missing_shader_fails() {
    let mut config = sample_config();
    config.pipelines[0].1.shader = "nowhere".to_string();
    assert_eq!(
        build_graph(&config).err(),
        Some(BuildError::MissingShader { pipeline: "backgound".to_string(), shader: "nowhere".to_string() })
    );
}

#[test]
fn missing_vertex_layout_fails() {
    let mut config = sample_config();
    config.pipelines[1].1.vertex_buffer_layouts = vec!["vertex".to_string(), "ghost".to_string(), "other".to_string()];
    assert_eq!(
        build_graph(&config).err(),
        Some(BuildError::MissingVertexLayout { pipeline: "item".to_string(), layout: "ghost".to_string() })
    );
}

#[test]
fn missing_bind_group_fails() {
    let mut config = sample_config();
    config.pipelines[0].1.bind_group_layout = "default".to_string();
    assert_eq!(
        build_graph(&config).err(),
        Some(BuildError::MissingBindGroup { pipeline: "backgound".to_string(), group: "default".to_string() })
    );
    // the same failure every time
    assert_eq!(build_graph(&config).err(), build_graph(&config).err());
}

#[test]
fn name_map_insert_replaces() {
    let mut m: NameMap<u32> = NameMap::new();
    m.insert("a".to_string(), 1);
    m.insert("b".to_string(), 2);
    m.insert("a".to_string(), 3);
    assert_eq!(m.len(), 2);
    assert_eq!(m.get("a"), Some(&3));
    assert_eq!(m.get("b"), Some(&2));
    assert_eq!(m.get("c"), None);
    assert!(m.contains("b"));
    assert!(!m.contains(""));
}

#[test]
fn pipeline_lookup_has_no_default() {
    let mut p: RenderPipelineInfo<&str> = RenderPipelineInfo::new();
    p.insert("item".to_string(), "compiled item");
    assert_eq!(p.get("item"), Some(&"compiled item"));
    assert_eq!(p.get("default"), None);
}
