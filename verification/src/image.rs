use vstd::prelude::*;

verus! {

/// A decoded image: rows of pixels from the top down, `comp` bytes to a
/// pixel, of which the first three are red, green and blue. The buffer is
/// always exactly as long as the sizes say, and a pixel has at least three
/// bytes.
#[derive(Debug)]
pub struct Image {
    image: Vec<u8>,
    nx: u32,
    ny: u32,
    comp: u32,
}

/// What an image is: its bytes and its sizes.
pub struct ImageView {
    pub image: Seq<u8>,
    pub nx: int,
    pub ny: int,
    pub comp: int,
}

/// The red, green and blue of one pixel, each from 0 to 255.
#[derive(Clone, Copy, Debug, PartialEq, Eq, Structural)]
pub struct Rgb {
    pub r: u8,
    pub g: u8,
    pub b: u8,
}

/// Why a pixel could not be read.
pub const OUT_OF_IMAGE: &'static str = "Coordinates do no fit into image";

impl ImageView {
    /// Whether the buffer holds every pixel that the sizes promise, and no more.
    pub open spec fn wf(self) -> bool {
        &&& self.comp >= 3
        &&& 0 <= self.nx
        &&& 0 <= self.ny
        &&& self.image.len() == self.nx * self.ny * self.comp
    }

    /// Where the pixel in column `x` of row `y`, counted from the bottom, starts in the buffer.
    pub open spec fn offset(self, x: int, y: int) -> int {
        (x + (self.ny - y - 1) * self.nx) * self.comp
    }

    /// The pixel in column `x` of row `y`, counted from the bottom.
    pub open spec fn pixel(self, x: int, y: int) -> Rgb {
        Rgb {
            r: self.image[self.offset(x, y)],
            g: self.image[self.offset(x, y) + 1],
            b: self.image[self.offset(x, y) + 2],
        }
    }
}

impl View for Image {
    type V = ImageView;

    closed spec fn view(&self) -> ImageView {
        ImageView {
            image: self.image@,
            nx: self.nx as int,
            ny: self.ny as int,
            comp: self.comp as int,
        }
    }
}

impl Image {
    #[verifier::type_invariant]
    closed spec fn inv(self) -> bool {
        self@.wf()
    }

    /// An image over a decoded buffer. It is made only where a pixel has at
    /// least three bytes and the buffer is exactly as long as the sizes say.
    pub fn new(image: Vec<u8>, nx: u32, ny: u32, comp: u32) -> (img: Option<Image>)
        ensures
            img is Some <==> comp >= 3 && image@.len() == nx * ny * comp,
            img is Some ==> img.unwrap()@ == (ImageView {
                image: image@,
                nx: nx as int,
                ny: ny as int,
                comp: comp as int,
            }),
    {
        if comp < 3 {
            return None;
        }
        assert(0 <= nx * ny <= 0xFFFF_FFFF * 0xFFFF_FFFF) by (nonlinear_arith)
            requires
                0 <= nx <= 0xFFFF_FFFF,
                0 <= ny <= 0xFFFF_FFFF,
        ;
        let pixels: u64 = nx as u64 * ny as u64;
        assert(0 <= pixels * comp <= 0xFFFF_FFFF_FFFF_FFFF * 0xFFFF_FFFF) by (nonlinear_arith)
            requires
                0 <= pixels <= 0xFFFF_FFFF_FFFF_FFFF,
                0 <= comp <= 0xFFFF_FFFF,
        ;
        let wanted: u128 = pixels as u128 * comp as u128;
        if image.len() as u128 == wanted {
            Some(Image { image, nx, ny, comp })
        } else {
            None
        }
    }

    /// The width in pixels.
    pub fn nx(&self) -> (n: u32)
        ensures
            n == self@.nx,
    {
        self.nx
    }

    /// The height in pixels.
    pub fn ny(&self) -> (n: u32)
        ensures
            n == self@.ny,
    {
        self.ny
    }

    /// The number of bytes to a pixel.
    pub fn comp(&self) -> (n: u32)
        ensures
            n == self@.comp,
    {
        self.comp
    }

    /// The bytes of the image.
    pub fn bytes(&self) -> (b: &Vec<u8>)
        ensures
            b@ == self@.image,
    {
        &self.image
    }

    /// The pixel in column `x` of row `y`, rows counted from the bottom of
    /// the image. Coordinates outside the image are an error.
    pub fn get(&self, x: u32, y: u32) -> (res: Result<Rgb, &'static str>)
        ensures
            res is Err <==> x >= self@.nx || y >= self@.ny,
            res is Ok ==> res.unwrap() == self@.pixel(x as int, y as int),
            res is Err ==> res == Err::<Rgb, &'static str>(OUT_OF_IMAGE),
    {
        proof {
            use_type_invariant(self);
        }
        if x >= self.nx || y >= self.ny {
            return Err(OUT_OF_IMAGE);
        }
        let row: u32 = self.ny - y - 1;
        let len: usize = self.image.len();
        proof {
            let nx = self.nx as int;
            let ny = self.ny as int;
            let comp = self.comp as int;
            let cell = x as int + row as int * nx;
            assert(cell + 1 <= nx * ny) by (nonlinear_arith)
                requires
                    0 <= x < nx,
                    0 <= row < ny,
                    cell == x + row * nx,
            ;
            assert((cell + 1) * comp <= nx * ny * comp) by (nonlinear_arith)
                requires
                    cell + 1 <= nx * ny,
                    comp >= 0,
            ;
            assert((cell + 1) * comp == cell * comp + comp) by (nonlinear_arith);
            assert(0 <= row as int * nx) by (nonlinear_arith)
                requires
                    0 <= row,
                    0 <= nx,
            ;
            assert(0 <= cell * comp) by (nonlinear_arith)
                requires
                    0 <= cell,
                    0 <= comp,
            ;
            assert(row as int * nx <= cell);
            assert(cell <= cell * comp) by (nonlinear_arith)
                requires
                    0 <= cell,
                    comp >= 1,
            ;
            assert(cell * comp + comp <= len);
            assert(self@.offset(x as int, y as int) == cell * comp);
            assert(row as int * nx <= usize::MAX);
            assert(cell * comp + 2 < len);
        }
        let skipped: usize = row as usize * self.nx as usize;
        let cell: usize = x as usize + skipped;
        let index: usize = cell * self.comp as usize;
        Ok(Rgb { r: self.image[index], g: self.image[index + 1], b: self.image[index + 2] })
    }
}

impl Clone for Image {
    /// A copy with the same sizes and the same bytes.
    fn clone(&self) -> (res: Image)
        ensures
            res@ == self@,
    {
        proof {
            use_type_invariant(self);
        }
        let image = self.image.clone();
        proof {
            assert(image@ =~= self.image@);
        }
        Image { image, nx: self.nx, ny: self.ny, comp: self.comp }
    }
}

} // verus!
