use vstd::prelude::*;
use crate::bindgroup::{groups_supported, with_groups, BindGroupInfo, BuildError, LayoutEntryDesc};
use crate::config::{GraphConfig, PipelineConfig, ShaderConfig};
use crate::registry::{entries_map, lookup, NameMap};
use crate::vertex::{layouts_within_limits, with_layouts, LayoutView, VertexAttribute, VertexBufferInfo, VertexLayoutDesc};

verus! {

/// Whether every named vertex buffer layout was built.
pub open spec fn layouts_resolvable(names: Seq<String>, vl: Map<Seq<char>, LayoutView>) -> bool {
    forall|j: int| 0 <= j < names.len() ==> vl.contains_key((#[trigger] names[j])@)
}

/// Whether every name a pipeline references resolves: its shader is
/// declared, its vertex buffer layouts and its bind group layout were built.
pub open spec fn pipeline_resolvable(
    pc: PipelineConfig,
    shaders: Map<Seq<char>, ShaderConfig>,
    vl: Map<Seq<char>, LayoutView>,
    bg: Map<Seq<char>, Seq<LayoutEntryDesc>>,
) -> bool {
    &&& shaders.contains_key(pc.shader@)
    &&& layouts_resolvable(pc.vertex_buffer_layouts@, vl)
    &&& bg.contains_key(pc.bind_group_layout@)
}

/// Everything needed to compile one render pipeline, every name resolved.
/// Slot `i` of the pipeline takes vertex buffer layout `vertex_layouts[i]`.
/// Fixed-function state is not part of the plan: triangle lists, back-face
/// culling, and a depth test and write when `depth_texture` is set.
pub struct PipelinePlan {
    pub name: String,
    pub shader: String,
    pub vertex_entry: String,
    pub fragment_entry: String,
    pub depth_texture: bool,
    pub vertex_layouts: Vec<VertexLayoutDesc>,
    pub bind_group_layout: String,
}

/// `p` is the plan of the pipeline `pc` declared under `name`.
pub open spec fn plan_matches(
    p: PipelinePlan,
    name: Seq<char>,
    pc: PipelineConfig,
    shaders: Map<Seq<char>, ShaderConfig>,
    vl: Map<Seq<char>, LayoutView>,
) -> bool {
    &&& p.name@ == name
    &&& p.shader@ == pc.shader@
    &&& p.vertex_entry@ == shaders[pc.shader@].vertex_entry@
    &&& p.fragment_entry@ == shaders[pc.shader@].fragment_entry@
    &&& p.depth_texture == pc.depth_texture
    &&& p.vertex_layouts@.len() == pc.vertex_buffer_layouts@.len()
    &&& forall|j: int| 0 <= j < p.vertex_layouts@.len()
        ==> (#[trigger] p.vertex_layouts@[j])@ == vl[pc.vertex_buffer_layouts@[j]@]
    &&& p.bind_group_layout@ == pc.bind_group_layout@
}

/// `e` reports the first name of the pipeline `pc` (declared under `name`)
/// that does not resolve: the shader, then the vertex buffer layouts in slot
/// order, then the bind group layout.
pub open spec fn plan_error_matches(
    e: BuildError,
    name: Seq<char>,
    pc: PipelineConfig,
    shaders: Map<Seq<char>, ShaderConfig>,
    vl: Map<Seq<char>, LayoutView>,
    bg: Map<Seq<char>, Seq<LayoutEntryDesc>>,
) -> bool {
    match e {
        BuildError::MissingShader { pipeline, shader } => {
            &&& pipeline@ == name
            &&& shader@ == pc.shader@
            &&& !shaders.contains_key(pc.shader@)
        },
        BuildError::MissingVertexLayout { pipeline, layout } => {
            &&& pipeline@ == name
            &&& shaders.contains_key(pc.shader@)
            &&& exists|j: int| 0 <= j < pc.vertex_buffer_layouts@.len()
                && pc.vertex_buffer_layouts@[j]@ == layout@
                && layouts_resolvable(pc.vertex_buffer_layouts@.take(j), vl)
            &&& !vl.contains_key(layout@)
        },
        BuildError::MissingBindGroup { pipeline, group } => {
            &&& pipeline@ == name
            &&& shaders.contains_key(pc.shader@)
            &&& layouts_resolvable(pc.vertex_buffer_layouts@, vl)
            &&& group@ == pc.bind_group_layout@
            &&& !bg.contains_key(group@)
        },
        BuildError::UnsupportedBinding { .. } => false,
    }
}

/// A pipeline that references a shader, vertex buffer layout or bind group
/// layout that does not exist cannot be planned: there is no default to
/// fall back to.
pub proof fn lemma_missing_reference_fails(
    pc: PipelineConfig,
    shaders: Map<Seq<char>, ShaderConfig>,
    vl: Map<Seq<char>, LayoutView>,
    bg: Map<Seq<char>, Seq<LayoutEntryDesc>>,
)
    requires
        !shaders.contains_key(pc.shader@)
        || (exists|j: int| 0 <= j < pc.vertex_buffer_layouts@.len() && !vl.contains_key(pc.vertex_buffer_layouts@[j]@))
        || !bg.contains_key(pc.bind_group_layout@),
    ensures
        !pipeline_resolvable(pc, shaders, vl, bg),
{
    if exists|j: int| 0 <= j < pc.vertex_buffer_layouts@.len() && !vl.contains_key(pc.vertex_buffer_layouts@[j]@) {
        let j = choose|j: int| 0 <= j < pc.vertex_buffer_layouts@.len() && !vl.contains_key(pc.vertex_buffer_layouts@[j]@);
        assert(!vl.contains_key(pc.vertex_buffer_layouts@[j]@));
    }
}

/// A reported error always names a reference that does not resolve.
pub proof fn lemma_error_not_resolvable(
    e: BuildError,
    name: Seq<char>,
    pc: PipelineConfig,
    shaders: Map<Seq<char>, ShaderConfig>,
    vl: Map<Seq<char>, LayoutView>,
    bg: Map<Seq<char>, Seq<LayoutEntryDesc>>,
)
    requires
        plan_error_matches(e, name, pc, shaders, vl, bg),
    ensures
        !pipeline_resolvable(pc, shaders, vl, bg),
{
    match e {
        BuildError::MissingVertexLayout { pipeline, layout } => {
            let j = choose|j: int| 0 <= j < pc.vertex_buffer_layouts@.len()
                && pc.vertex_buffer_layouts@[j]@ == layout@
                && layouts_resolvable(pc.vertex_buffer_layouts@.take(j), vl);
            assert(!vl.contains_key(pc.vertex_buffer_layouts@[j]@));
        },
        _ => {},
    }
}

fn copy_layout(d: &VertexLayoutDesc) -> (r: VertexLayoutDesc)
    ensures
        r@ == d@,
{
    let mut attrs: Vec<VertexAttribute> = Vec::new();
    let mut i: usize = 0;
    while i < d.attrs.len()
        invariant
            i <= d.attrs@.len(),
            attrs@ =~= d.attrs@.take(i as int),
        decreases d.attrs@.len() - i,
    {
        attrs.push(d.attrs[i]);
        i = i + 1;
        proof {
            assert(attrs@ =~= d.attrs@.take(i as int));
        }
    }
    proof {
        assert(d.attrs@.take(d.attrs@.len() as int) =~= d.attrs@);
    }
    VertexLayoutDesc { stride: d.stride, mode: d.mode, attrs }
}

/// Resolves every name that the pipeline `pc`, declared under `name`,
/// references: the shader among the declared shaders, the vertex buffer
/// layouts (in slot order) and the bind group layout among those built.
pub fn plan_pipeline(
    name: &String,
    pc: &PipelineConfig,
    config: &GraphConfig,
    vertex_buffer_info: &VertexBufferInfo,
    bind_group_info: &BindGroupInfo,
) -> (r: Result<PipelinePlan, BuildError>)
    requires
        config.wf(),
        vertex_buffer_info.wf(),
        bind_group_info.wf(),
    ensures
        r.is_ok() == pipeline_resolvable(*pc, entries_map(config.resources.shaders@), vertex_buffer_info@, bind_group_info@),
        match r {
            Ok(p) => plan_matches(p, name@, *pc, entries_map(config.resources.shaders@), vertex_buffer_info@),
            Err(e) => plan_error_matches(e, name@, *pc, entries_map(config.resources.shaders@), vertex_buffer_info@, bind_group_info@),
        },
{
    let ghost shaders = entries_map(config.resources.shaders@);
    let ghost vl = vertex_buffer_info@;
    let shader_config = match lookup(&config.resources.shaders, pc.shader.as_str()) {
        Some(s) => s,
        None => {
            return Err(BuildError::MissingShader { pipeline: name.clone(), shader: pc.shader.clone() });
        },
    };
    let ghost names = pc.vertex_buffer_layouts@;
    let mut layouts: Vec<VertexLayoutDesc> = Vec::new();
    let mut j: usize = 0;
    while j < pc.vertex_buffer_layouts.len()
        invariant
            names == pc.vertex_buffer_layouts@,
            vl == vertex_buffer_info@,
            vertex_buffer_info.wf(),
            shaders == entries_map(config.resources.shaders@),
            shaders.contains_key(pc.shader@),
            *shader_config == shaders[pc.shader@],
            j <= names.len(),
            layouts@.len() == j,
            layouts_resolvable(names.take(j as int), vl),
            forall|k: int| 0 <= k < j ==> (#[trigger] layouts@[k])@ == vl[names[k]@],
        decreases names.len() - j,
    {
        let layout_name = &pc.vertex_buffer_layouts[j];
        match vertex_buffer_info.get_desc(layout_name.as_str()) {
            Some(d) => {
                layouts.push(copy_layout(d));
                proof {
                    assert forall|k: int| 0 <= k < j + 1 implies vl.contains_key((#[trigger] names.take(j + 1)[k])@) by {
                        if k < j {
                            assert(names.take(j as int)[k] == names.take(j + 1)[k]);
                        }
                    }
                }
            },
            None => {
                proof {
                    assert(names[j as int]@ == layout_name@);
                }
                return Err(BuildError::MissingVertexLayout { pipeline: name.clone(), layout: layout_name.clone() });
            },
        }
        j = j + 1;
    }
    proof {
        assert(names.take(names.len() as int) =~= names);
    }
    if !bind_group_info.get(pc.bind_group_layout.as_str()).is_some() {
        return Err(BuildError::MissingBindGroup {
            pipeline: name.clone(),
            group: pc.bind_group_layout.clone(),
        });
    }
    Ok(PipelinePlan {
        name: name.clone(),
        shader: pc.shader.clone(),
        vertex_entry: shader_config.vertex_entry.clone(),
        fragment_entry: shader_config.fragment_entry.clone(),
        depth_texture: pc.depth_texture,
        vertex_layouts: layouts,
        bind_group_layout: pc.bind_group_layout.clone(),
    })
}

/// Whether every pipeline of `s` resolves.
pub open spec fn pipelines_resolvable(
    s: Seq<(String, PipelineConfig)>,
    shaders: Map<Seq<char>, ShaderConfig>,
    vl: Map<Seq<char>, LayoutView>,
    bg: Map<Seq<char>, Seq<LayoutEntryDesc>>,
) -> bool {
    forall|i: int| 0 <= i < s.len() ==> pipeline_resolvable((#[trigger] s[i]).1, shaders, vl, bg)
}

/// Plans every pipeline that the configuration declares, in declaration
/// order; stops at the first that does not resolve.
pub fn plan_pipelines(
    config: &GraphConfig,
    vertex_buffer_info: &VertexBufferInfo,
    bind_group_info: &BindGroupInfo,
) -> (r: Result<Vec<PipelinePlan>, BuildError>)
    requires
        config.wf(),
        vertex_buffer_info.wf(),
        bind_group_info.wf(),
    ensures
        r.is_ok() == pipelines_resolvable(config.pipelines@, entries_map(config.resources.shaders@), vertex_buffer_info@, bind_group_info@),
        match r {
            Ok(v) => v@.len() == config.pipelines@.len() && forall|i: int| 0 <= i < v@.len()
                ==> plan_matches(#[trigger] v@[i], config.pipelines@[i].0@, config.pipelines@[i].1,
                    entries_map(config.resources.shaders@), vertex_buffer_info@),
            Err(e) => exists|i: int| 0 <= i < config.pipelines@.len()
                && plan_error_matches(e, config.pipelines@[i].0@, config.pipelines@[i].1,
                    entries_map(config.resources.shaders@), vertex_buffer_info@, bind_group_info@),
        },
{
    let ghost s = config.pipelines@;
    let ghost shaders = entries_map(config.resources.shaders@);
    let mut plans: Vec<PipelinePlan> = Vec::new();
    let mut i: usize = 0;
    while i < config.pipelines.len()
        invariant
            s == config.pipelines@,
            shaders == entries_map(config.resources.shaders@),
            config.wf(),
            vertex_buffer_info.wf(),
            bind_group_info.wf(),
            i <= s.len(),
            plans@.len() == i,
            forall|k: int| 0 <= k < i ==> pipeline_resolvable((#[trigger] s[k]).1, shaders, vertex_buffer_info@, bind_group_info@),
            forall|k: int| 0 <= k < i ==> plan_matches(#[trigger] plans@[k], s[k].0@, s[k].1, shaders, vertex_buffer_info@),
        decreases s.len() - i,
    {
        let entry = &config.pipelines[i];
        match plan_pipeline(&entry.0, &entry.1, config, vertex_buffer_info, bind_group_info) {
            Ok(p) => {
                plans.push(p);
            },
            Err(e) => {
                proof {
                    lemma_error_not_resolvable(e, s[i as int].0@, s[i as int].1, shaders, vertex_buffer_info@, bind_group_info@);
                }
                return Err(e);
            },
        }
        i = i + 1;
    }
    Ok(plans)
}

/// Everything the build produces before any GPU object exists: the vertex
/// buffer layouts, the bind group layouts and the pipeline plans.
pub struct GraphPlan {
    pub vertex_buffer_info: VertexBufferInfo,
    pub bind_group_info: BindGroupInfo,
    pub pipelines: Vec<PipelinePlan>,
}

/// Whether the configuration builds: every pipeline resolves against the
/// layouts built from the configuration.
pub open spec fn graph_buildable(config: &GraphConfig) -> bool {
    pipelines_resolvable(
        config.pipelines@,
        entries_map(config.resources.shaders@),
        with_layouts(Map::empty(), config.resources.vertexbuffers@),
        with_groups(Map::empty(), config.resources.bindgroups@),
    )
}

/// Builds in dependency order: vertex buffer layouts, then bind group
/// layouts, then the pipeline plans that reference both and the shaders.
/// Storage entries are not supported: the configuration must have none
/// (see `check_bind_groups`).
pub fn build_graph(config: &GraphConfig) -> (r: Result<GraphPlan, BuildError>)
    requires
        config.wf(),
        layouts_within_limits(config),
        groups_supported(config.resources.bindgroups@),
    ensures
        r.is_ok() == graph_buildable(config),
        match r {
            Ok(g) => {
                &&& g.vertex_buffer_info.wf()
                &&& g.bind_group_info.wf()
                &&& g.vertex_buffer_info@ == with_layouts(Map::empty(), config.resources.vertexbuffers@)
                &&& g.bind_group_info@ == with_groups(Map::empty(), config.resources.bindgroups@)
                &&& g.pipelines@.len() == config.pipelines@.len()
                &&& forall|i: int| 0 <= i < g.pipelines@.len()
                    ==> plan_matches(#[trigger] g.pipelines@[i], config.pipelines@[i].0@, config.pipelines@[i].1,
                        entries_map(config.resources.shaders@), g.vertex_buffer_info@)
            },
            Err(e) => exists|i: int| 0 <= i < config.pipelines@.len()
                && plan_error_matches(e, config.pipelines@[i].0@, config.pipelines@[i].1,
                    entries_map(config.resources.shaders@),
                    with_layouts(Map::empty(), config.resources.vertexbuffers@),
                    with_groups(Map::empty(), config.resources.bindgroups@)),
        },
{
    let mut vertex_buffer_info = VertexBufferInfo::new();
    vertex_buffer_info.setup_config(config);
    let mut bind_group_info = BindGroupInfo::new();
    bind_group_info.setup(config);
    match plan_pipelines(config, &vertex_buffer_info, &bind_group_info) {
        Ok(pipelines) => Ok(GraphPlan { vertex_buffer_info, bind_group_info, pipelines }),
        Err(e) => Err(e),
    }
}

/// The compiled render pipelines, keyed by pipeline name. Lookups have no
/// default: a name that was not registered finds nothing.
pub struct RenderPipelineInfo<P> {
    map: NameMap<P>,
}

impl<P> RenderPipelineInfo<P> {
    pub closed spec fn map(&self) -> NameMap<P> {
        self.map
    }

    pub open spec fn wf(&self) -> bool {
        self.map().wf()
    }

    /// Pipeline name to compiled pipeline.
    pub open spec fn view(&self) -> Map<Seq<char>, P> {
        self.map()@
    }

    pub fn new() -> (r: Self)
        ensures
            r.wf(),
            r@ == Map::<Seq<char>, P>::empty(),
    {
        RenderPipelineInfo { map: NameMap::new() }
    }

    /// Stores a compiled pipeline under its name, replacing an earlier one.
    pub fn insert(&mut self, name: String, pipeline: P)
        requires
            old(self).wf(),
        ensures
            final(self).wf(),
            final(self)@ == old(self)@.insert(name@, pipeline),
    {
        self.map.insert(name, pipeline);
    }

    /// The pipeline compiled under `label`, if any.
    pub fn get(&self, label: &str) -> (r: Option<&P>)
        requires
            self.wf(),
        ensures
            match r {
                Some(p) => self@.contains_key(label@) && *p == self@[label@],
                None => !self@.contains_key(label@),
            },
    {
        self.map.get(label)
    }
}

/// Whether a render pass needs a depth attachment: some pipeline tests depth.
pub fn needs_depth(plans: &Vec<PipelinePlan>) -> (r: bool)
    ensures
        r == exists|i: int| 0 <= i < plans@.len() && (#[trigger] plans@[i]).depth_texture,
{
    let mut i: usize = 0;
    while i < plans.len()
        invariant
            i <= plans@.len(),
            forall|j: int| 0 <= j < i ==> !(#[trigger] plans@[j]).depth_texture,
        decreases plans@.len() - i,
    {
        if plans[i].depth_texture {
            return true;
        }
        i = i + 1;
    }
    false
}

} // verus!
