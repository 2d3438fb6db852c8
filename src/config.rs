use vstd::prelude::*;
use crate::registry::names_unique;

verus! {

/// A shader program: the source file and its two entry points.
pub struct ShaderConfig {
    pub filename: String,
    pub vertex_entry: String,
    pub fragment_entry: String,
}

/// Scalar format of one vertex attribute.
#[derive(Clone, Copy, Debug, PartialEq, Eq, Structural)]
pub enum VertexBufferLayoutFormat {
    Float32,
    Float32x2,
    Float32x3,
    Float32x4,
}

/// One attribute of a vertex buffer: shader location and format.
#[derive(Clone, Copy, Debug, PartialEq, Eq, Structural)]
pub struct VertexBufferLayout {
    pub location: usize,
    pub format: VertexBufferLayoutFormat,
}

/// Whether a vertex buffer advances per vertex or per instance.
#[allow(non_camel_case_types)]
#[derive(Clone, Copy, Debug, PartialEq, Eq, Structural)]
pub enum VertexStepMode {
    VERTEX,
    INSTANCE,
}

/// A vertex buffer layout: its attributes in declaration order and its step mode.
pub struct VertexBufferConfig {
    pub layouts: Vec<VertexBufferLayout>,
    pub mode: VertexStepMode,
}

/// Shader stages a bind group entry is visible to.
#[allow(non_camel_case_types)]
#[derive(Clone, Copy, Debug, PartialEq, Eq, Structural)]
pub enum BindGroupVisibilty {
    Vertex,
    Fragment,
    ALL,
}

/// Kind of resource bound at one binding of a bind group.
#[derive(Clone, Copy, Debug, PartialEq, Eq, Structural)]
pub enum BindGroupEntryType {
    Texture,
    Sampler,
    Uniform,
    Storage,
    StorageRo,
}

/// One entry of a bind group layout.
#[derive(Clone, Copy, Debug, PartialEq, Eq, Structural)]
pub struct BindGroupEntry {
    pub binding: usize,
    pub ty: BindGroupEntryType,
    pub visibility: BindGroupVisibilty,
}

/// A bind group layout: its entries in declaration order.
pub struct BindGroupConfig {
    pub entries: Vec<BindGroupEntry>,
}

/// The named resources: shaders, vertex buffer layouts, bind group layouts.
pub struct ResourceConfig {
    pub shaders: Vec<(String, ShaderConfig)>,
    pub vertexbuffers: Vec<(String, VertexBufferConfig)>,
    pub bindgroups: Vec<(String, BindGroupConfig)>,
}

/// A render pipeline: which shader, vertex buffer layouts (in slot order)
/// and bind group layout it is built from.
pub struct PipelineConfig {
    pub shader: String,
    pub depth_texture: bool,
    pub vertex_buffer_layouts: Vec<String>,
    pub bind_group_layout: String,
}

/// The whole declarative description.
pub struct GraphConfig {
    pub version: String,
    pub name: String,
    pub resources: ResourceConfig,
    pub pipelines: Vec<(String, PipelineConfig)>,
}

impl GraphConfig {
    /// Within each section no two entries share a name.
    pub open spec fn wf(&self) -> bool {
        &&& names_unique(self.resources.shaders@)
        &&& names_unique(self.resources.vertexbuffers@)
        &&& names_unique(self.resources.bindgroups@)
        &&& names_unique(self.pipelines@)
    }
}

} // verus!
