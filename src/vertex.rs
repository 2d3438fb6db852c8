use vstd::prelude::*;
use crate::config::{GraphConfig, VertexBufferConfig, VertexBufferLayout, VertexBufferLayoutFormat, VertexStepMode};
use crate::registry::NameMap;

verus! {

/// Size in bytes of one attribute of the given format.
pub open spec fn format_size_spec(f: VertexBufferLayoutFormat) -> nat {
    match f {
        VertexBufferLayoutFormat::Float32 => 4,
        VertexBufferLayoutFormat::Float32x2 => 8,
        VertexBufferLayoutFormat::Float32x3 => 12,
        VertexBufferLayoutFormat::Float32x4 => 16,
    }
}

/// Size in bytes of one attribute of the given format.
pub fn format_size(f: VertexBufferLayoutFormat) -> (r: u64)
    ensures
        r as nat == format_size_spec(f),
{
    match f {
        VertexBufferLayoutFormat::Float32 => 4,
        VertexBufferLayoutFormat::Float32x2 => 8,
        VertexBufferLayoutFormat::Float32x3 => 12,
        VertexBufferLayoutFormat::Float32x4 => 16,
    }
}

/// Sum of the sizes of the declared attributes.
pub open spec fn stride_of(ls: Seq<VertexBufferLayout>) -> nat
    decreases ls.len(),
{
    if ls.len() == 0 {
        0
    } else {
        stride_of(ls.drop_last()) + format_size_spec(ls.last().format)
    }
}

/// Byte offset of the attribute at position `i`: the sizes of those before it.
pub open spec fn offset_of(ls: Seq<VertexBufferLayout>, i: int) -> nat {
    stride_of(ls.take(i))
}

/// One attribute of a built vertex buffer layout.
#[derive(Clone, Copy, Debug, PartialEq, Eq, Structural)]
pub struct VertexAttribute {
    pub format: VertexBufferLayoutFormat,
    pub offset: u64,
    pub shader_location: usize,
}

/// The attributes that a declaration yields, offsets accumulated in order.
pub open spec fn attributes_of(ls: Seq<VertexBufferLayout>) -> Seq<VertexAttribute> {
    Seq::new(ls.len(), |i: int| VertexAttribute {
        format: ls[i].format,
        offset: offset_of(ls, i) as u64,
        shader_location: ls[i].location,
    })
}

/// A built vertex buffer layout: stride, step mode, attributes.
pub struct VertexLayoutDesc {
    pub stride: u64,
    pub mode: VertexStepMode,
    pub attrs: Vec<VertexAttribute>,
}

/// What a built layout says: stride, step mode and attributes.
pub struct LayoutView {
    pub stride: nat,
    pub mode: VertexStepMode,
    pub attrs: Seq<VertexAttribute>,
}

impl VertexLayoutDesc {
    pub open spec fn view(&self) -> LayoutView {
        LayoutView { stride: self.stride as nat, mode: self.mode, attrs: self.attrs@ }
    }
}

/// The layout that a vertex buffer declaration yields.
pub open spec fn layout_of(c: VertexBufferConfig) -> LayoutView {
    LayoutView { stride: stride_of(c.layouts@), mode: c.mode, attrs: attributes_of(c.layouts@) }
}

proof fn lemma_stride_bound(ls: Seq<VertexBufferLayout>)
    ensures
        stride_of(ls) <= 16 * ls.len(),
    decreases ls.len(),
{
    if ls.len() > 0 {
        lemma_stride_bound(ls.drop_last());
    }
}

/// Lays the declared attributes out one after another: each attribute's
/// offset is the sum of the sizes before it, the stride the sum of all.
pub fn build_layout(config: &VertexBufferConfig) -> (r: VertexLayoutDesc)
    requires
        config.layouts@.len() * 16 <= u64::MAX,
    ensures
        r@ == layout_of(*config),
{
    let ghost ls = config.layouts@;
    let mut stride: u64 = 0;
    let mut attrs: Vec<VertexAttribute> = Vec::new();
    let mut i: usize = 0;
    while i < config.layouts.len()
        invariant
            ls == config.layouts@,
            ls.len() * 16 <= u64::MAX,
            i <= ls.len(),
            stride as nat == stride_of(ls.take(i as int)),
            attrs@.len() == i,
            forall|j: int| 0 <= j < i ==> #[trigger] attrs@[j] == attributes_of(ls)[j],
        decreases ls.len() - i,
    {
        let layout = config.layouts[i];
        proof {
            lemma_stride_bound(ls.take(i as int));
            assert(ls.take(i as int + 1).drop_last() =~= ls.take(i as int));
            assert(ls.take(i as int + 1).last() == ls[i as int]);
        }
        attrs.push(VertexAttribute { format: layout.format, offset: stride, shader_location: layout.location });
        stride = stride + format_size(layout.format);
        i = i + 1;
    }
    proof {
        assert(ls.take(ls.len() as int) =~= ls);
        assert(attrs@ =~= attributes_of(ls));
    }
    VertexLayoutDesc { stride, mode: config.mode, attrs }
}

/// The built layouts after each declaration of `s` was built and stored under
/// its name, in order, starting from `m`.
pub open spec fn with_layouts(m: Map<Seq<char>, LayoutView>, s: Seq<(String, VertexBufferConfig)>) -> Map<Seq<char>, LayoutView>
    decreases s.len(),
{
    if s.len() == 0 {
        m
    } else {
        with_layouts(m, s.drop_last()).insert(s.last().0@, layout_of(s.last().1))
    }
}

/// Every vertex buffer declaration is small enough for its stride to fit in
/// a `u64`, whatever its formats.
pub open spec fn layouts_within_limits(c: &GraphConfig) -> bool {
    forall|i: int| 0 <= i < c.resources.vertexbuffers@.len() ==> (#[trigger] c.resources.vertexbuffers@[i]).1.layouts@.len() * 16 <= u64::MAX
}

/// The built vertex buffer layouts, keyed by layout name.
pub struct VertexBufferInfo {
    map: NameMap<VertexLayoutDesc>,
}

impl VertexBufferInfo {
    pub open spec fn wf(&self) -> bool {
        self.map().wf()
    }

    pub closed spec fn map(&self) -> NameMap<VertexLayoutDesc> {
        self.map
    }

    /// Layout name to built layout.
    pub open spec fn view(&self) -> Map<Seq<char>, LayoutView> {
        self.map()@.map_values(|d: VertexLayoutDesc| d@)
    }

    pub fn new() -> (r: Self)
        ensures
            r.wf(),
            r@ == Map::<Seq<char>, LayoutView>::empty(),
    {
        let r = VertexBufferInfo { map: NameMap::new() };
        proof {
            assert(r@ =~= Map::<Seq<char>, LayoutView>::empty());
        }
        r
    }

    /// Builds every vertex buffer layout that the configuration declares and
    /// stores it under its name.
    pub fn setup_config(&mut self, config: &GraphConfig)
        requires
            old(self).wf(),
            layouts_within_limits(config),
        ensures
            final(self).wf(),
            final(self)@ == with_layouts(old(self)@, config.resources.vertexbuffers@),
    {
        let ghost s = config.resources.vertexbuffers@;
        let ghost m0 = self@;
        let mut i: usize = 0;
        while i < config.resources.vertexbuffers.len()
            invariant
                s == config.resources.vertexbuffers@,
                layouts_within_limits(config),
                i <= s.len(),
                self.wf(),
                self@ == with_layouts(m0, s.take(i as int)),
            decreases s.len() - i,
        {
            let entry = &config.resources.vertexbuffers[i];
            let desc = build_layout(&entry.1);
            let ghost before = self.map()@;
            self.map.insert(entry.0.clone(), desc);
            proof {
                assert(s.take(i as int + 1).drop_last() =~= s.take(i as int));
                assert(s.take(i as int + 1).last() == s[i as int]);
                assert(self@ =~= with_layouts(m0, s.take(i as int + 1)));
            }
            i = i + 1;
        }
        proof {
            assert(s.take(s.len() as int) =~= s);
        }
    }

    /// The layout built under `name`, if any.
    pub fn get_desc(&self, name: &str) -> (r: Option<&VertexLayoutDesc>)
        requires
            self.wf(),
        ensures
            match r {
                Some(d) => self@.contains_key(name@) && d@ == self@[name@],
                None => !self@.contains_key(name@),
            },
    {
        self.map.get(name)
    }
}

} // verus!
