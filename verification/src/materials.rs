use crate::scalar::{ONE, ZERO};
use crate::textures::{ConstantTexture, NoneTexture, Sample, TextureType};
use crate::vec3::{Color, Vec3};
use vstd::prelude::*;

verus! {

/// The material that neither scatters nor emits.
#[derive(Clone, Copy, Debug)]
pub struct NoneMaterial;

/// A diffuse surface.
pub struct Lambertian {
    pub albedo: TextureType,
}

/// A mirror, blurred by `fuzz`, which is at most one.
pub struct Metal {
    pub albedo: TextureType,
    pub fuzz: i64,
}

/// Glass, with its index of refraction.
pub struct Dielectric {
    pub albedo: TextureType,
    pub ref_idx: i64,
}

/// A surface that emits light and scatters none.
pub struct DiffuseLight {
    pub albedo: TextureType,
}

/// Every kind of material.
pub enum MaterialType {
    Lambertian(Lambertian),
    Dielectric(Dielectric),
    Metal(Metal),
    DiffuseLight(DiffuseLight),
    Nothing(NoneMaterial),
}

impl Default for NoneMaterial {
    fn default() -> NoneMaterial {
        NoneMaterial
    }
}

impl Default for MaterialType {
    fn default() -> (m: MaterialType)
        ensures
            m is Nothing,
    {
        MaterialType::Nothing(NoneMaterial)
    }
}

impl Lambertian {
    pub fn new(texture: &TextureType) -> (m: Lambertian)
        ensures
            texture.same(m.albedo),
    {
        Lambertian { albedo: texture.clone() }
    }
}

impl Metal {
    /// A metal with the given blur; a blur above one counts as one.
    pub fn new(a: TextureType, fuzz: i64) -> (m: Metal)
        ensures
            m.albedo == a,
            m.fuzz == if fuzz > ONE {
                ONE
            } else {
                fuzz
            },
    {
        let fuzz: i64 = if fuzz > ONE {
            ONE
        } else {
            fuzz
        };
        Metal { albedo: a, fuzz }
    }
}

impl Metal {
    /// Whether a mirrored ray is scattered: only where it leaves the
    /// surface, that is where its direction and the normal have a product
    /// `toward` above zero. Else the ray is absorbed.
    pub fn reflects(toward: i64) -> (scattered: bool)
        ensures
            scattered == (toward > ZERO),
    {
        toward > ZERO
    }
}

impl Dielectric {
    /// Whether the ray leaves the glass: where its direction and the normal
    /// have a product `toward` above zero. Else it enters.
    pub fn leaving(toward: i64) -> (out: bool)
        ensures
            out == (toward > ZERO),
    {
        toward > ZERO
    }

    /// Whether the ray is reflected rather than refracted: always where
    /// there is no refraction, because the light is reflected totally; else
    /// where the number `draw`, drawn at random, lies below the share
    /// `reflect_prob` of light that the glass reflects at this angle.
    pub fn reflects(refraction: bool, draw: i64, reflect_prob: i64) -> (reflected: bool)
        ensures
            reflected == (!refraction || draw < reflect_prob),
    {
        if refraction {
            draw < reflect_prob
        } else {
            true
        }
    }

    pub fn new(albedo: &Color, refractive_index: i64) -> (m: Dielectric)
        ensures
            m.albedo == TextureType::ConstantTexture(ConstantTexture { color: *albedo }),
            m.ref_idx == refractive_index,
    {
        Dielectric {
            albedo: TextureType::ConstantTexture(ConstantTexture::new(albedo)),
            ref_idx: refractive_index,
        }
    }
}

impl DiffuseLight {
    pub fn new(a: TextureType) -> (m: DiffuseLight)
        ensures
            m.albedo == a,
    {
        DiffuseLight { albedo: a }
    }
}

impl MaterialType {
    /// Whether two materials are of one kind, with the same numbers and with
    /// textures that are alike.
    pub open spec fn same(self, other: MaterialType) -> bool {
        match (self, other) {
            (MaterialType::Lambertian(a), MaterialType::Lambertian(b)) => a.albedo.same(b.albedo),
            (MaterialType::Dielectric(a), MaterialType::Dielectric(b)) => a.albedo.same(b.albedo)
                && a.ref_idx == b.ref_idx,
            (MaterialType::Metal(a), MaterialType::Metal(b)) => a.albedo.same(b.albedo) && a.fuzz
                == b.fuzz,
            (MaterialType::DiffuseLight(a), MaterialType::DiffuseLight(b)) => a.albedo.same(
                b.albedo,
            ),
            (MaterialType::Nothing(_), MaterialType::Nothing(_)) => true,
            _ => false,
        }
    }

    /// The texture of the material; a material of no kind has the texture of no kind.
    pub open spec fn spec_albedo(self) -> TextureType {
        match self {
            MaterialType::Lambertian(m) => m.albedo,
            MaterialType::Dielectric(m) => m.albedo,
            MaterialType::Metal(m) => m.albedo,
            MaterialType::DiffuseLight(m) => m.albedo,
            MaterialType::Nothing(_) => TextureType::Nothing(NoneTexture),
        }
    }

    /// Whether the material can scatter a ray at all: a light and the
    /// material of no kind never do.
    pub open spec fn spec_scatters(self) -> bool {
        !(self is DiffuseLight || self is Nothing)
    }

    /// What the material emits at a point that lies in an odd or an even
    /// cell: a light what its texture comes down to there, the others black.
    pub open spec fn spec_emitted<'a>(&'a self, odd: bool) -> Sample<'a> {
        match self {
            MaterialType::DiffuseLight(m) => m.albedo.spec_value(odd),
            _ => Sample::Color(Vec3::zero()),
        }
    }

    /// A copy of the material's texture.
    pub fn albedo(&self) -> (t: TextureType)
        ensures
            self.spec_albedo().same(t),
    {
        match self {
            MaterialType::Lambertian(m) => m.albedo.clone(),
            MaterialType::Dielectric(m) => m.albedo.clone(),
            MaterialType::Metal(m) => m.albedo.clone(),
            MaterialType::DiffuseLight(m) => m.albedo.clone(),
            MaterialType::Nothing(_) => TextureType::Nothing(NoneTexture),
        }
    }

    /// Whether the material can scatter a ray at all.
    pub fn scatters(&self) -> (b: bool)
        ensures
            b == self.spec_scatters(),
    {
        match self {
            MaterialType::DiffuseLight(_) => false,
            MaterialType::Nothing(_) => false,
            _ => true,
        }
    }

    /// What the material emits at a point: black, unless it is a light.
    pub fn emitted<'a>(&'a self, odd: bool) -> (s: Sample<'a>)
        ensures
            s == self.spec_emitted(odd),
    {
        match self {
            MaterialType::DiffuseLight(m) => m.albedo.value(odd),
            _ => Sample::Color(Vec3 { x: 0, y: 0, z: 0 }),
        }
    }

    /// A copy of the material, boxed.
    pub fn box_clone(&self) -> (b: Box<MaterialType>)
        ensures
            self.same(*b),
    {
        Box::new(self.clone())
    }
}

impl Clone for MaterialType {
    /// A copy of the same kind, with the same numbers and with textures that are alike.
    fn clone(&self) -> (res: MaterialType)
        ensures
            self.same(res),
    {
        match self {
            MaterialType::Lambertian(m) => MaterialType::Lambertian(
                Lambertian { albedo: m.albedo.clone() },
            ),
            MaterialType::Dielectric(m) => MaterialType::Dielectric(
                Dielectric { albedo: m.albedo.clone(), ref_idx: m.ref_idx },
            ),
            MaterialType::Metal(m) => MaterialType::Metal(
                Metal { albedo: m.albedo.clone(), fuzz: m.fuzz },
            ),
            MaterialType::DiffuseLight(m) => MaterialType::DiffuseLight(
                DiffuseLight { albedo: m.albedo.clone() },
            ),
            MaterialType::Nothing(_) => MaterialType::Nothing(NoneMaterial),
        }
    }
}

/// Materials that are alike emit alike and scatter alike: a copy made by
/// `clone` emits at every point what the material it was made from emits
/// there, and can scatter exactly where that one can.
pub proof fn lemma_same_material(a: MaterialType, b: MaterialType, odd: bool)
    requires
        a.same(b),
    ensures
        a.spec_emitted(odd).same(b.spec_emitted(odd)),
        a.spec_scatters() == b.spec_scatters(),
        a.spec_albedo().same(b.spec_albedo()),
{
    match (a, b) {
        (MaterialType::DiffuseLight(x), MaterialType::DiffuseLight(y)) => {
            crate::textures::lemma_same_texture_value(x.albedo, y.albedo, odd);
        },
        _ => {},
    }
}

} // verus!
