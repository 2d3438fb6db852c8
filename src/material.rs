use vstd::prelude::*;
use crate::config::{BindGroupConfig, BindGroupEntry};

verus! {

/// The textures a physically based material refers to, as texture indices.
#[derive(Clone, Copy, Debug, PartialEq, Eq, Structural)]
pub struct MaterialTextures {
    pub base_color: Option<usize>,
    pub metallic_roughness: Option<usize>,
    pub normal: Option<usize>,
    pub occlusion: Option<usize>,
    pub emissive: Option<usize>,
}

/// A constant factor of a material, uploaded as a uniform buffer.
#[derive(Clone, Copy, Debug, PartialEq, Eq, Structural)]
pub enum MaterialFactor {
    BaseColor,
    Metallic,
    Roughness,
    Emissive,
}

/// What a material binds at one binding.
#[derive(Clone, Copy, Debug, PartialEq, Eq, Structural)]
pub enum MaterialSource {
    Factor(MaterialFactor),
    TextureView(usize),
    Sampler(usize),
}

/// Why a material cannot fill its bind group.
#[derive(Clone, Copy, Debug, PartialEq, Eq, Structural)]
pub enum MaterialError {
    /// The binding asks for a texture the material does not have.
    MissingTexture { binding: usize },
    /// The material's texture index names no loaded texture.
    TextureOutOfRange { binding: usize, index: usize },
    /// No material resource is assigned to the binding.
    UnknownBinding { binding: usize },
}

/// The texture that a texture binding reads: base colour at 3 and 4,
/// metallic-roughness at 5 and 6, normal at 7 and 8, occlusion at 9 and 10,
/// emissive at 12 and 13.
pub open spec fn texture_for(binding: usize, t: MaterialTextures) -> Option<usize> {
    if binding == 3 || binding == 4 {
        t.base_color
    } else if binding == 5 || binding == 6 {
        t.metallic_roughness
    } else if binding == 7 || binding == 8 {
        t.normal
    } else if binding == 9 || binding == 10 {
        t.occlusion
    } else {
        t.emissive
    }
}

/// Whether a texture binding holds the texture's view (3, 5, 7, 9, 12);
/// the others (4, 6, 8, 10, 13) hold its sampler.
pub open spec fn is_view_binding(binding: usize) -> bool {
    binding == 3 || binding == 5 || binding == 7 || binding == 9 || binding == 12
}

/// The material resource assigned to a binding: factors at 0, 1, 2 and 11;
/// each texture's view, then its sampler, at 3 and 4, 5 and 6, 7 and 8,
/// 9 and 10, 12 and 13.
pub open spec fn source_spec(binding: usize, t: MaterialTextures, texture_count: usize) -> Result<MaterialSource, MaterialError> {
    if binding == 0 {
        Ok(MaterialSource::Factor(MaterialFactor::BaseColor))
    } else if binding == 1 {
        Ok(MaterialSource::Factor(MaterialFactor::Metallic))
    } else if binding == 2 {
        Ok(MaterialSource::Factor(MaterialFactor::Roughness))
    } else if binding == 11 {
        Ok(MaterialSource::Factor(MaterialFactor::Emissive))
    } else if binding > 13 {
        Err(MaterialError::UnknownBinding { binding })
    } else {
        match texture_for(binding, t) {
            None => Err(MaterialError::MissingTexture { binding }),
            Some(i) => if i >= texture_count {
                Err(MaterialError::TextureOutOfRange { binding, index: i })
            } else if is_view_binding(binding) {
                Ok(MaterialSource::TextureView(i))
            } else {
                Ok(MaterialSource::Sampler(i))
            },
        }
    }
}

/// The material resource assigned to a binding.
pub fn material_source(binding: usize, t: &MaterialTextures, texture_count: usize) -> (r: Result<MaterialSource, MaterialError>)
    ensures
        r == source_spec(binding, *t, texture_count),
{
    if binding == 0 {
        return Ok(MaterialSource::Factor(MaterialFactor::BaseColor));
    } else if binding == 1 {
        return Ok(MaterialSource::Factor(MaterialFactor::Metallic));
    } else if binding == 2 {
        return Ok(MaterialSource::Factor(MaterialFactor::Roughness));
    } else if binding == 11 {
        return Ok(MaterialSource::Factor(MaterialFactor::Emissive));
    } else if binding > 13 {
        return Err(MaterialError::UnknownBinding { binding });
    }
    let texture = if binding == 3 || binding == 4 {
        t.base_color
    } else if binding == 5 || binding == 6 {
        t.metallic_roughness
    } else if binding == 7 || binding == 8 {
        t.normal
    } else if binding == 9 || binding == 10 {
        t.occlusion
    } else {
        t.emissive
    };
    match texture {
        None => Err(MaterialError::MissingTexture { binding }),
        Some(i) => if i >= texture_count {
            Err(MaterialError::TextureOutOfRange { binding, index: i })
        } else if binding == 3 || binding == 5 || binding == 7 || binding == 9 || binding == 12 {
            Ok(MaterialSource::TextureView(i))
        } else {
            Ok(MaterialSource::Sampler(i))
        },
    }
}

/// Whether a material can fill every entry of a bind group layout: each
/// binding has a resource assigned, and each texture it reads exists.
pub open spec fn material_fits(t: MaterialTextures, texture_count: usize, entries: Seq<BindGroupEntry>) -> bool {
    forall|j: int| 0 <= j < entries.len() ==> (#[trigger] source_spec(entries[j].binding, t, texture_count)).is_ok()
}

/// Checks that a material can fill a bind group layout; otherwise gives the
/// first entry's reason why not.
pub fn check_material(t: &MaterialTextures, texture_count: usize, config: &BindGroupConfig) -> (r: Result<(), MaterialError>)
    ensures
        r.is_ok() == material_fits(*t, texture_count, config.entries@),
        match r {
            Ok(()) => true,
            Err(e) => exists|j: int| 0 <= j < config.entries@.len()
                && source_spec(config.entries@[j].binding, *t, texture_count) == Err::<MaterialSource, MaterialError>(e),
        },
{
    let mut j: usize = 0;
    while j < config.entries.len()
        invariant
            j <= config.entries@.len(),
            forall|k: int| 0 <= k < j ==> (#[trigger] source_spec(config.entries@[k].binding, *t, texture_count)).is_ok(),
        decreases config.entries@.len() - j,
    {
        match material_source(config.entries[j].binding, t, texture_count) {
            Ok(_) => {},
            Err(e) => {
                return Err(e);
            },
        }
        j = j + 1;
    }
    Ok(())
}

/// Fills a material's bind group: for each entry of the layout, in order,
/// the binding and the resource assigned to it. The material must fit the
/// layout (see `check_material`).
pub fn plan_material(t: &MaterialTextures, texture_count: usize, config: &BindGroupConfig) -> (r: Vec<(usize, MaterialSource)>)
    requires
        material_fits(*t, texture_count, config.entries@),
    ensures
        r@.len() == config.entries@.len(),
        forall|j: int| 0 <= j < r@.len()
            ==> (#[trigger] r@[j]).0 == config.entries@[j].binding
            && Ok::<MaterialSource, MaterialError>(r@[j].1) == source_spec(config.entries@[j].binding, *t, texture_count),
{
    let mut out: Vec<(usize, MaterialSource)> = Vec::new();
    let mut j: usize = 0;
    while j < config.entries.len()
        invariant
            material_fits(*t, texture_count, config.entries@),
            j <= config.entries@.len(),
            out@.len() == j,
            forall|k: int| 0 <= k < j ==> (#[trigger] out@[k]).0 == config.entries@[k].binding
                && Ok::<MaterialSource, MaterialError>(out@[k].1) == source_spec(config.entries@[k].binding, *t, texture_count),
        decreases config.entries@.len() - j,
    {
        let binding = config.entries[j].binding;
        let s = match material_source(binding, t, texture_count) {
            Ok(s) => s,
            Err(_) => {
                proof {
                    assert(source_spec(config.entries@[j as int].binding, *t, texture_count).is_ok());
                }
                return out;
            },
        };
        out.push((binding, s));
        j = j + 1;
    }
    out
}

/// Which properties and textures an OBJ-style material declares.
#[derive(Clone, Copy, Debug, PartialEq, Eq, Structural)]
pub struct ObjMaterialPresence {
    pub ambient: bool,
    pub diffuse: bool,
    pub specular: bool,
    pub shininess: bool,
    pub dissolve: bool,
    pub optical_density: bool,
    pub ambient_texture: bool,
    pub diffuse_texture: bool,
    pub specular_texture: bool,
    pub normal_texture: bool,
    pub shininess_texture: bool,
    pub dissolve_texture: bool,
    pub illumination_model: bool,
}

/// A constant property of an OBJ-style material, uploaded as a uniform buffer.
#[derive(Clone, Copy, Debug, PartialEq, Eq, Structural)]
pub enum ObjProperty {
    Ambient,
    Diffuse,
    Specular,
    Shininess,
    Dissolve,
    OpticalDensity,
    IlluminationModel,
}

/// A texture of an OBJ-style material.
#[derive(Clone, Copy, Debug, PartialEq, Eq, Structural)]
pub enum ObjTexture {
    Ambient,
    Diffuse,
    Specular,
    Normal,
    Shininess,
    Dissolve,
}

/// What an OBJ-style material binds at one binding.
#[derive(Clone, Copy, Debug, PartialEq, Eq, Structural)]
pub enum ObjSource {
    Property(ObjProperty),
    TextureView(ObjTexture),
    Sampler(ObjTexture),
}

/// The number of bindings an OBJ-style material layout has.
pub const OBJ_BINDINGS: u32 = 19;

/// The texture read at a binding from 6 to 17: each texture's view, then
/// its sampler.
pub open spec fn obj_texture_at(b: u32) -> ObjTexture {
    if b < 8 {
        ObjTexture::Ambient
    } else if b < 10 {
        ObjTexture::Diffuse
    } else if b < 12 {
        ObjTexture::Specular
    } else if b < 14 {
        ObjTexture::Normal
    } else if b < 16 {
        ObjTexture::Shininess
    } else {
        ObjTexture::Dissolve
    }
}

/// What binding `b` holds: six properties, six texture view and sampler
/// pairs, and the illumination model last.
pub open spec fn obj_source_at(b: u32) -> ObjSource {
    if b == 0 {
        ObjSource::Property(ObjProperty::Ambient)
    } else if b == 1 {
        ObjSource::Property(ObjProperty::Diffuse)
    } else if b == 2 {
        ObjSource::Property(ObjProperty::Specular)
    } else if b == 3 {
        ObjSource::Property(ObjProperty::Shininess)
    } else if b == 4 {
        ObjSource::Property(ObjProperty::Dissolve)
    } else if b == 5 {
        ObjSource::Property(ObjProperty::OpticalDensity)
    } else if b >= 18 {
        ObjSource::Property(ObjProperty::IlluminationModel)
    } else if b % 2 == 0 {
        ObjSource::TextureView(obj_texture_at(b))
    } else {
        ObjSource::Sampler(obj_texture_at(b))
    }
}

/// Whether the material declares what binding `b` holds.
pub open spec fn obj_present_at(p: ObjMaterialPresence, b: u32) -> bool {
    match obj_source_at(b) {
        ObjSource::Property(ObjProperty::Ambient) => p.ambient,
        ObjSource::Property(ObjProperty::Diffuse) => p.diffuse,
        ObjSource::Property(ObjProperty::Specular) => p.specular,
        ObjSource::Property(ObjProperty::Shininess) => p.shininess,
        ObjSource::Property(ObjProperty::Dissolve) => p.dissolve,
        ObjSource::Property(ObjProperty::OpticalDensity) => p.optical_density,
        ObjSource::Property(ObjProperty::IlluminationModel) => p.illumination_model,
        ObjSource::TextureView(t) | ObjSource::Sampler(t) => match t {
            ObjTexture::Ambient => p.ambient_texture,
            ObjTexture::Diffuse => p.diffuse_texture,
            ObjTexture::Specular => p.specular_texture,
            ObjTexture::Normal => p.normal_texture,
            ObjTexture::Shininess => p.shininess_texture,
            ObjTexture::Dissolve => p.dissolve_texture,
        },
    }
}

/// The bindings below `n` that a material fills, in ascending order.
pub open spec fn obj_plan(p: ObjMaterialPresence, n: u32) -> Seq<(u32, ObjSource)>
    decreases n,
{
    if n == 0 {
        Seq::empty()
    } else {
        let prev = obj_plan(p, (n - 1) as u32);
        if obj_present_at(p, (n - 1) as u32) {
            prev.push(((n - 1) as u32, obj_source_at((n - 1) as u32)))
        } else {
            prev
        }
    }
}

fn obj_source(b: u32) -> (r: ObjSource)
    ensures
        r == obj_source_at(b),
{
    if b == 0 {
        ObjSource::Property(ObjProperty::Ambient)
    } else if b == 1 {
        ObjSource::Property(ObjProperty::Diffuse)
    } else if b == 2 {
        ObjSource::Property(ObjProperty::Specular)
    } else if b == 3 {
        ObjSource::Property(ObjProperty::Shininess)
    } else if b == 4 {
        ObjSource::Property(ObjProperty::Dissolve)
    } else if b == 5 {
        ObjSource::Property(ObjProperty::OpticalDensity)
    } else if b >= 18 {
        ObjSource::Property(ObjProperty::IlluminationModel)
    } else {
        let t = if b < 8 {
            ObjTexture::Ambient
        } else if b < 10 {
            ObjTexture::Diffuse
        } else if b < 12 {
            ObjTexture::Specular
        } else if b < 14 {
            ObjTexture::Normal
        } else if b < 16 {
            ObjTexture::Shininess
        } else {
            ObjTexture::Dissolve
        };
        if b % 2 == 0 {
            ObjSource::TextureView(t)
        } else {
            ObjSource::Sampler(t)
        }
    }
}

fn obj_present(p: &ObjMaterialPresence, b: u32) -> (r: bool)
    ensures
        r == obj_present_at(*p, b),
{
    match obj_source(b) {
        ObjSource::Property(ObjProperty::Ambient) => p.ambient,
        ObjSource::Property(ObjProperty::Diffuse) => p.diffuse,
        ObjSource::Property(ObjProperty::Specular) => p.specular,
        ObjSource::Property(ObjProperty::Shininess) => p.shininess,
        ObjSource::Property(ObjProperty::Dissolve) => p.dissolve,
        ObjSource::Property(ObjProperty::OpticalDensity) => p.optical_density,
        ObjSource::Property(ObjProperty::IlluminationModel) => p.illumination_model,
        ObjSource::TextureView(t) | ObjSource::Sampler(t) => match t {
            ObjTexture::Ambient => p.ambient_texture,
            ObjTexture::Diffuse => p.diffuse_texture,
            ObjTexture::Specular => p.specular_texture,
            ObjTexture::Normal => p.normal_texture,
            ObjTexture::Shininess => p.shininess_texture,
            ObjTexture::Dissolve => p.dissolve_texture,
        },
    }
}

/// Fills an OBJ-style material's bind group: every declared property and
/// texture at its fixed binding, in ascending binding order; what the
/// material does not declare is left out.
pub fn plan_obj_material(p: &ObjMaterialPresence) -> (r: Vec<(u32, ObjSource)>)
    ensures
        r@ == obj_plan(*p, OBJ_BINDINGS),
{
    let mut out: Vec<(u32, ObjSource)> = Vec::new();
    let mut b: u32 = 0;
    while b < OBJ_BINDINGS
        invariant
            b <= OBJ_BINDINGS,
            out@ == obj_plan(*p, b),
        decreases OBJ_BINDINGS - b,
    {
        if obj_present(p, b) {
            out.push((b, obj_source(b)));
        }
        b = b + 1;
    }
    out
}

} // verus!
