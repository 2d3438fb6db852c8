use vstd::prelude::*;
use crate::config::{BindGroupConfig, BindGroupEntry, BindGroupEntryType, BindGroupVisibilty, GraphConfig};
use crate::registry::NameMap;

verus! {

/// The binding a layout entry describes to the GPU.
#[derive(Clone, Copy, Debug, PartialEq, Eq, Structural)]
pub enum BindingKind {
    /// A filterable two-dimensional float texture.
    SampledTexture,
    /// A filtering sampler.
    FilteringSampler,
    /// A uniform buffer without dynamic offset.
    UniformBuffer,
}

/// One entry of a built bind group layout.
#[derive(Clone, Copy, Debug, PartialEq, Eq, Structural)]
pub struct LayoutEntryDesc {
    pub binding: usize,
    pub visibility: BindGroupVisibilty,
    pub kind: BindingKind,
}

/// The binding kind for a declared entry type; storage buffers have none.
pub open spec fn binding_kind_of(ty: BindGroupEntryType) -> Option<BindingKind> {
    match ty {
        BindGroupEntryType::Texture => Some(BindingKind::SampledTexture),
        BindGroupEntryType::Sampler => Some(BindingKind::FilteringSampler),
        BindGroupEntryType::Uniform => Some(BindingKind::UniformBuffer),
        BindGroupEntryType::Storage => None,
        BindGroupEntryType::StorageRo => None,
    }
}

/// Whether every entry of a declaration has a binding kind.
pub open spec fn entries_supported(es: Seq<BindGroupEntry>) -> bool {
    forall|j: int| 0 <= j < es.len() ==> (#[trigger] binding_kind_of(es[j].ty)).is_some()
}

/// The built entries of a declaration whose entries are all supported.
pub open spec fn layout_entries_of(es: Seq<BindGroupEntry>) -> Seq<LayoutEntryDesc> {
    Seq::new(es.len(), |j: int| LayoutEntryDesc {
        binding: es[j].binding,
        visibility: es[j].visibility,
        kind: binding_kind_of(es[j].ty).unwrap(),
    })
}

/// Builds one layout entry; `None` for the storage kinds, which are not supported.
pub fn layout_entry(entry: &BindGroupEntry) -> (r: Option<LayoutEntryDesc>)
    ensures
        r.is_some() == binding_kind_of(entry.ty).is_some(),
        r.is_some() ==> r.unwrap() == (LayoutEntryDesc {
            binding: entry.binding,
            visibility: entry.visibility,
            kind: binding_kind_of(entry.ty).unwrap(),
        }),
{
    let kind = match entry.ty {
        BindGroupEntryType::Texture => BindingKind::SampledTexture,
        BindGroupEntryType::Sampler => BindingKind::FilteringSampler,
        BindGroupEntryType::Uniform => BindingKind::UniformBuffer,
        BindGroupEntryType::Storage => { return None; },
        BindGroupEntryType::StorageRo => { return None; },
    };
    Some(LayoutEntryDesc { binding: entry.binding, visibility: entry.visibility, kind })
}

/// Builds the entries of one bind group layout in declaration order, or
/// gives the binding of the first entry whose kind is not supported.
pub fn build_layout_entries(config: &BindGroupConfig) -> (r: Result<Vec<LayoutEntryDesc>, usize>)
    ensures
        r.is_ok() == entries_supported(config.entries@),
        r.is_ok() ==> r.unwrap()@ == layout_entries_of(config.entries@),
        r.is_err() ==> exists|j: int| 0 <= j < config.entries@.len()
            && binding_kind_of(config.entries@[j].ty).is_none()
            && config.entries@[j].binding == r.unwrap_err(),
{
    let ghost es = config.entries@;
    let mut out: Vec<LayoutEntryDesc> = Vec::new();
    let mut j: usize = 0;
    while j < config.entries.len()
        invariant
            es == config.entries@,
            j <= es.len(),
            out@.len() == j,
            forall|k: int| 0 <= k < j ==> (#[trigger] binding_kind_of(es[k].ty)).is_some(),
            forall|k: int| 0 <= k < j ==> #[trigger] out@[k] == layout_entries_of(es)[k],
        decreases es.len() - j,
    {
        let entry = &config.entries[j];
        match layout_entry(entry) {
            Some(d) => {
                out.push(d);
            },
            None => {
                return Err(entry.binding);
            },
        }
        j = j + 1;
    }
    proof {
        assert(out@ =~= layout_entries_of(es));
    }
    Ok(out)
}

/// Why the resource build stopped.
#[derive(Debug, PartialEq, Eq)]
pub enum BuildError {
    /// A bind group declares a storage entry, which is not supported.
    UnsupportedBinding { group: String, binding: usize },
    /// A pipeline names a shader that is not declared.
    MissingShader { pipeline: String, shader: String },
    /// A pipeline names a vertex buffer layout that was not built.
    MissingVertexLayout { pipeline: String, layout: String },
    /// A pipeline names a bind group layout that was not built.
    MissingBindGroup { pipeline: String, group: String },
}

/// Whether every bind group that `s` declares has only supported entries.
pub open spec fn groups_supported(s: Seq<(String, BindGroupConfig)>) -> bool {
    forall|i: int| 0 <= i < s.len() ==> entries_supported((#[trigger] s[i]).1.entries@)
}

/// The built layouts after each declaration of `s` was built and stored under
/// its name, in order, starting from `m`.
pub open spec fn with_groups(m: Map<Seq<char>, Seq<LayoutEntryDesc>>, s: Seq<(String, BindGroupConfig)>) -> Map<Seq<char>, Seq<LayoutEntryDesc>>
    decreases s.len(),
{
    if s.len() == 0 {
        m
    } else {
        with_groups(m, s.drop_last()).insert(s.last().0@, layout_entries_of(s.last().1.entries@))
    }
}

/// Checks that no bind group declares a storage entry; otherwise names the
/// first group and binding that does.
pub fn check_bind_groups(config: &GraphConfig) -> (r: Result<(), BuildError>)
    ensures
        r.is_ok() == groups_supported(config.resources.bindgroups@),
        match r {
            Err(BuildError::UnsupportedBinding { group, binding }) => exists|i: int, j: int|
                0 <= i < config.resources.bindgroups@.len()
                && config.resources.bindgroups@[i].0@ == group@
                && 0 <= j < config.resources.bindgroups@[i].1.entries@.len()
                && config.resources.bindgroups@[i].1.entries@[j].binding == binding
                && binding_kind_of(config.resources.bindgroups@[i].1.entries@[j].ty).is_none(),
            Err(_) => false,
            Ok(_) => true,
        },
{
    let ghost s = config.resources.bindgroups@;
    let mut i: usize = 0;
    while i < config.resources.bindgroups.len()
        invariant
            s == config.resources.bindgroups@,
            i <= s.len(),
            forall|k: int| 0 <= k < i ==> entries_supported((#[trigger] s[k]).1.entries@),
        decreases s.len() - i,
    {
        let entry = &config.resources.bindgroups[i];
        match build_layout_entries(&entry.1) {
            Ok(_) => {},
            Err(binding) => {
                return Err(BuildError::UnsupportedBinding { group: entry.0.clone(), binding });
            },
        }
        i = i + 1;
    }
    Ok(())
}

/// The built bind group layouts, keyed by bind group name.
pub struct BindGroupInfo {
    infos: NameMap<Vec<LayoutEntryDesc>>,
}

impl BindGroupInfo {
    pub closed spec fn infos(&self) -> NameMap<Vec<LayoutEntryDesc>> {
        self.infos
    }

    pub open spec fn wf(&self) -> bool {
        self.infos().wf()
    }

    /// Bind group name to its built entries.
    pub open spec fn view(&self) -> Map<Seq<char>, Seq<LayoutEntryDesc>> {
        self.infos()@.map_values(|v: Vec<LayoutEntryDesc>| v@)
    }

    pub fn new() -> (r: Self)
        ensures
            r.wf(),
            r@ == Map::<Seq<char>, Seq<LayoutEntryDesc>>::empty(),
    {
        let r = BindGroupInfo { infos: NameMap::new() };
        proof {
            assert(r@ =~= Map::<Seq<char>, Seq<LayoutEntryDesc>>::empty());
        }
        r
    }

    /// Builds every bind group layout that the configuration declares and
    /// stores it under its name. Storage entries are not supported: the
    /// configuration must have none (see `check_bind_groups`).
    pub fn setup(&mut self, config: &GraphConfig)
        requires
            old(self).wf(),
            groups_supported(config.resources.bindgroups@),
        ensures
            final(self).wf(),
            final(self)@ == with_groups(old(self)@, config.resources.bindgroups@),
    {
        let ghost s = config.resources.bindgroups@;
        let ghost m0 = self@;
        let mut i: usize = 0;
        while i < config.resources.bindgroups.len()
            invariant
                s == config.resources.bindgroups@,
                groups_supported(s),
                i <= s.len(),
                self.wf(),
                self@ == with_groups(m0, s.take(i as int)),
            decreases s.len() - i,
        {
            let entry = &config.resources.bindgroups[i];
            match build_layout_entries(&entry.1) {
                Ok(entries) => {
                    self.infos.insert(entry.0.clone(), entries);
                    proof {
                        assert(s.take(i as int + 1).drop_last() =~= s.take(i as int));
                        assert(s.take(i as int + 1).last() == s[i as int]);
                        assert(self@ =~= with_groups(m0, s.take(i as int + 1)));
                    }
                },
                Err(_) => {
                    proof {
                        assert(entries_supported(s[i as int].1.entries@));
                    }
                    return;
                },
            }
            i = i + 1;
        }
        proof {
            assert(s.take(s.len() as int) =~= s);
        }
    }

    /// The layout entries built under `label`, if any.
    pub fn get(&self, label: &str) -> (r: Option<&Vec<LayoutEntryDesc>>)
        requires
            self.wf(),
        ensures
            match r {
                Some(v) => self@.contains_key(label@) && v@ == self@[label@],
                None => !self@.contains_key(label@),
            },
    {
        self.infos.get(label)
    }
}

} // verus!
