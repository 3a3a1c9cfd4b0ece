use crate::image::Image;
use crate::perlin::Perlin;
use crate::vec3::{Color, Vec3};
use vstd::prelude::*;

verus! {

/// The texture that is black everywhere.
#[derive(Clone, Copy, Debug)]
pub struct NoneTexture;

/// The texture that has one colour everywhere.
#[derive(Clone, Copy, Debug)]
pub struct ConstantTexture {
    pub color: Color,
}

/// A three-dimensional checker pattern between two textures.
pub struct CheckerTexture {
    pub odd: Box<TextureType>,
    pub even: Box<TextureType>,
}

/// A turbulent noise, scaled.
pub struct NoiseTexture {
    pub inner_noise: Perlin,
    pub scale: Option<i64>,
}

/// A texture read from an image.
pub struct MappedTexture {
    pub image: Image,
    pub filename: String,
}

/// Collects what a mapped texture is made of, and makes it once it is all there.
pub struct MappedTextureBuilder {
    pub filename: Option<String>,
    pub image: Option<Image>,
}

/// Every kind of texture.
pub enum TextureType {
    ConstantTexture(ConstantTexture),
    CheckerTexture(CheckerTexture),
    MappedTexture(MappedTexture),
    NoiseTexture(NoiseTexture),
    Nothing(NoneTexture),
}

/// What a texture comes down to at one point: a colour that is known, or
/// the noise or the image that the caller has to evaluate there.
pub enum Sample<'a> {
    Color(Color),
    Noise(&'a NoiseTexture),
    Image(&'a MappedTexture),
}

impl NoneTexture {
    pub fn new() -> NoneTexture {
        NoneTexture
    }
}

impl Default for NoneTexture {
    fn default() -> NoneTexture {
        NoneTexture
    }
}

impl ConstantTexture {
    pub fn new(p: &Color) -> (t: ConstantTexture)
        ensures
            t.color == *p,
    {
        ConstantTexture { color: *p }
    }
}

impl CheckerTexture {
    /// A checker whose odd cells show `t0` and whose even cells show `t1`.
    pub fn new(t0: TextureType, t1: TextureType) -> (t: CheckerTexture)
        ensures
            *t.odd == t0,
            *t.even == t1,
    {
        CheckerTexture { odd: Box::new(t0), even: Box::new(t1) }
    }
}

impl NoiseTexture {
    /// A noise texture over the given tables, at the given scale.
    pub fn new(inner_noise: Perlin, scale: i64) -> (t: NoiseTexture)
        ensures
            t.inner_noise == inner_noise,
            t.scale == Some(scale),
    {
        NoiseTexture { inner_noise, scale: Some(scale) }
    }

    /// The same noise at another scale.
    pub fn scale(self, sc: i64) -> (t: NoiseTexture)
        ensures
            t.inner_noise == self.inner_noise,
            t.scale == Some(sc),
    {
        let mut t = self;
        t.scale = Some(sc);
        t
    }

    /// Whether two noise textures have the same tables and the same scale.
    pub open spec fn same(self, other: NoiseTexture) -> bool {
        &&& self.inner_noise@ == other.inner_noise@
        &&& self.scale == other.scale
    }
}

impl MappedTexture {
    /// Whether two mapped textures show the same image under the same name.
    pub open spec fn same(self, other: MappedTexture) -> bool {
        &&& self.image@ == other.image@
        &&& self.filename@ == other.filename@
    }
}

impl MappedTextureBuilder {
    /// Names the file and hands over the image that was decoded from it.
    pub fn with_file(self, filename: String, image: Image) -> (b: MappedTextureBuilder)
        ensures
            b.filename == Some(filename),
            b.image == Some(image),
    {
        MappedTextureBuilder { filename: Some(filename), image: Some(image) }
    }

    /// The texture, where the file was given; nothing where it was not.
    pub fn build(self) -> (t: Option<MappedTexture>)
        ensures
            t is Some <==> self.filename is Some && self.image is Some,
            t is Some ==> t.unwrap().filename == self.filename.unwrap() && t.unwrap().image
                == self.image.unwrap(),
    {
        match (self.filename, self.image) {
            (Some(filename), Some(image)) => Some(MappedTexture { image, filename }),
            _ => None,
        }
    }
}

impl Default for MappedTextureBuilder {
    fn default() -> (b: MappedTextureBuilder)
        ensures
            b.filename is None,
            b.image is None,
    {
        MappedTextureBuilder { filename: None, image: None }
    }
}

impl<'a> Sample<'a> {
    /// Whether two samples are the same colour, or noises or images that are alike.
    pub open spec fn same(self, other: Sample<'a>) -> bool {
        match (self, other) {
            (Sample::Color(a), Sample::Color(b)) => a == b,
            (Sample::Noise(a), Sample::Noise(b)) => (*a).same(*b),
            (Sample::Image(a), Sample::Image(b)) => (*a).same(*b),
            _ => false,
        }
    }
}

impl TextureType {
    /// Whether two textures are alike all the way down.
    pub open spec fn same(self, other: TextureType) -> bool
        decreases self,
    {
        match (self, other) {
            (TextureType::ConstantTexture(a), TextureType::ConstantTexture(b)) => a.color
                == b.color,
            (TextureType::CheckerTexture(a), TextureType::CheckerTexture(b)) => (*a.odd).same(
                *b.odd,
            ) && (*a.even).same(*b.even),
            (TextureType::MappedTexture(a), TextureType::MappedTexture(b)) => a.same(b),
            (TextureType::NoiseTexture(a), TextureType::NoiseTexture(b)) => a.same(b),
            (TextureType::Nothing(_), TextureType::Nothing(_)) => true,
            _ => false,
        }
    }

    /// What the texture comes down to at a point that lies in an odd cell of
    /// the checker pattern (`odd`), or in an even one.
    pub open spec fn spec_value<'a>(&'a self, odd: bool) -> Sample<'a>
        decreases self,
    {
        match self {
            TextureType::ConstantTexture(x) => Sample::Color(x.color),
            TextureType::CheckerTexture(x) => if odd {
                x.odd.spec_value(odd)
            } else {
                x.even.spec_value(odd)
            },
            TextureType::MappedTexture(x) => Sample::Image(x),
            TextureType::NoiseTexture(x) => Sample::Noise(x),
            TextureType::Nothing(_) => Sample::Color(Vec3::zero()),
        }
    }

    /// What the texture comes down to at a point: a constant texture its
    /// colour, no texture black, a checker what the texture of the point's
    /// cell comes down to, a noise or an image itself.
    pub fn value<'a>(&'a self, odd: bool) -> (s: Sample<'a>)
        ensures
            s == self.spec_value(odd),
        decreases self,
    {
        match self {
            TextureType::ConstantTexture(x) => Sample::Color(x.color),
            TextureType::CheckerTexture(x) => if odd {
                x.odd.value(odd)
            } else {
                x.even.value(odd)
            },
            TextureType::MappedTexture(x) => Sample::Image(x),
            TextureType::NoiseTexture(x) => Sample::Noise(x),
            TextureType::Nothing(_) => Sample::Color(Vec3 { x: 0, y: 0, z: 0 }),
        }
    }

    /// The texture itself, as a copy.
    pub fn albedo(&self) -> (t: TextureType)
        ensures
            self.same(t),
    {
        self.clone()
    }
}

impl Clone for NoiseTexture {
    fn clone(&self) -> (res: NoiseTexture)
        ensures
            self.same(res),
    {
        NoiseTexture { inner_noise: self.inner_noise.clone(), scale: self.scale }
    }
}

impl Clone for MappedTexture {
    fn clone(&self) -> (res: MappedTexture)
        ensures
            self.same(res),
    {
        MappedTexture { image: self.image.clone(), filename: self.filename.clone() }
    }
}

impl Clone for TextureType {
    /// A copy that is alike all the way down.
    fn clone(&self) -> (res: TextureType)
        ensures
            self.same(res),
        decreases self,
    {
        match self {
            TextureType::ConstantTexture(x) => TextureType::ConstantTexture(
                ConstantTexture { color: x.color },
            ),
            TextureType::CheckerTexture(x) => TextureType::CheckerTexture(
                CheckerTexture {
                    odd: Box::new((*x.odd).clone()),
                    even: Box::new((*x.even).clone()),
                },
            ),
            TextureType::MappedTexture(x) => TextureType::MappedTexture(x.clone()),
            TextureType::NoiseTexture(x) => TextureType::NoiseTexture(x.clone()),
            TextureType::Nothing(_) => TextureType::Nothing(NoneTexture),
        }
    }
}

/// Textures that are alike come down to samples that are alike: a copy made
/// by `clone` shows at every point what the texture it was made from shows there.
pub proof fn lemma_same_texture_value(a: TextureType, b: TextureType, odd: bool)
    requires
        a.same(b),
    ensures
        a.spec_value(odd).same(b.spec_value(odd)),
    decreases a,
{
    match (a, b) {
        (TextureType::CheckerTexture(x), TextureType::CheckerTexture(y)) => {
            if odd {
                lemma_same_texture_value(*x.odd, *y.odd, odd);
            } else {
                lemma_same_texture_value(*x.even, *y.even, odd);
            }
        },
        _ => {},
    }
}

} // verus!
