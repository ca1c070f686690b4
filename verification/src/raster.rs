//! Straight-alpha RGBA images.

use vstd::prelude::*;

verus! {

/// One pixel.
#[derive(Debug, Clone, Copy, PartialEq, Eq, Structural)]
pub struct Rgba {
    pub r: u8,
    pub g: u8,
    pub b: u8,
    pub a: u8,
}

impl Rgba {
    /// The four bytes in storage order.
    pub open spec fn bytes(self) -> Seq<u8> {
        seq![self.r, self.g, self.b, self.a]
    }
}

/// Pixel `i` of tightly packed RGBA bytes.
pub open spec fn rgba_at(data: Seq<u8>, i: int) -> Rgba {
    Rgba { r: data[4 * i], g: data[4 * i + 1], b: data[4 * i + 2], a: data[4 * i + 3] }
}

/// Rows of RGBA pixels, top row first, without padding.
#[derive(Debug, Clone, PartialEq, Eq)]
pub struct RgbaImage {
    pub width: u32,
    pub height: u32,
    pub data: Vec<u8>,
}

/// Where pixel (`x`, `y`) of a `width` wide image stands in its data.
pub open spec fn offset(width: int, x: int, y: int) -> int {
    y * width + x
}

pub proof fn lemma_offset_bounds(width: int, height: int, x: int, y: int)
    requires
        0 <= x < width,
        0 <= y < height,
    ensures
        0 <= offset(width, x, y) < width * height,
{
    assert(0 <= y * width + x < width * height) by (nonlinear_arith)
        requires
            0 <= x < width,
            0 <= y < height,
    ;
}

pub proof fn lemma_offset_injective(width: int, x1: int, y1: int, x2: int, y2: int)
    requires
        0 <= x1 < width,
        0 <= x2 < width,
        offset(width, x1, y1) == offset(width, x2, y2),
    ensures
        x1 == x2,
        y1 == y2,
{
    assert(y1 == y2) by (nonlinear_arith)
        requires
            0 <= x1 < width,
            0 <= x2 < width,
            y1 * width + x1 == y2 * width + x2,
    ;
}

impl RgbaImage {
    /// The data holds exactly the pixels.
    pub open spec fn wf(self) -> bool {
        self.data@.len() == self.width * self.height * 4
    }

    pub open spec fn pixel(self, x: int, y: int) -> Rgba {
        rgba_at(self.data@, offset(self.width as int, x, y))
    }

    /// Whether the point lies on the image.
    pub open spec fn has(self, x: int, y: int) -> bool {
        0 <= x < self.width && 0 <= y < self.height
    }

    /// A transparent black image.
    pub fn new(width: u32, height: u32) -> (image: RgbaImage)
        requires
            width * height * 4 <= usize::MAX,
        ensures
            image.wf(),
            image.width == width,
            image.height == height,
            forall|i: int| 0 <= i < image.data@.len() ==> image.data@[i] == 0,
    {
        proof {
            lemma_product_fits(width, height);
        }
        let len: usize = width as usize * height as usize * 4;
        RgbaImage { width, height, data: vec![0u8; len] }
    }

    /// An image of one color.
    pub fn from_pixel(width: u32, height: u32, pixel: Rgba) -> (image: RgbaImage)
        requires
            width * height * 4 <= usize::MAX,
        ensures
            image.wf(),
            image.width == width,
            image.height == height,
            forall|x: int, y: int| image.has(x, y) ==> image.pixel(x, y) == pixel,
    {
        proof {
            lemma_product_fits(width, height);
        }
        let count: usize = width as usize * height as usize;
        let mut data: Vec<u8> = vec![0u8; count * 4];
        let mut i: usize = 0;
        while i < count
            invariant
                i <= count,
                count * 4 <= usize::MAX,
                data@.len() == count * 4,
                forall|j: int| 0 <= j < i ==> rgba_at(data@, j) == pixel,
            decreases count - i,
        {
            put_at(&mut data, i, pixel);
            i = i + 1;
        }
        let image = RgbaImage { width, height, data };
        assert forall|x: int, y: int| image.has(x, y) implies image.pixel(x, y) == pixel by {
            lemma_offset_bounds(width as int, height as int, x, y);
        }
        image
    }

    /// The bytes as an image, if they are exactly its pixels.
    pub fn from_raw(width: u32, height: u32, data: Vec<u8>) -> (image: Option<RgbaImage>)
        ensures
            match image {
                Some(image) => image.wf() && image.width == width && image.height == height
                    && image.data@ == data@,
                None => data@.len() != width * height * 4,
            },
    {
        let pixels: u64 = data.len() as u64 / 4;
        proof {
            lemma_u32_product(width, height);
        }
        if data.len() % 4 == 0 && pixels == width as u64 * height as u64 {
            Some(RgbaImage { width, height, data })
        } else {
            None
        }
    }

    pub fn width(&self) -> (r: u32)
        ensures
            r == self.width,
    {
        self.width
    }

    pub fn height(&self) -> (r: u32)
        ensures
            r == self.height,
    {
        self.height
    }

    pub fn dimensions(&self) -> (r: (u32, u32))
        ensures
            r == (self.width, self.height),
    {
        (self.width, self.height)
    }

    pub fn as_raw(&self) -> (r: &Vec<u8>)
        ensures
            *r == self.data,
    {
        &self.data
    }

    pub fn get_pixel(&self, x: u32, y: u32) -> (r: Rgba)
        requires
            self.wf(),
            self.has(x as int, y as int),
        ensures
            r == self.pixel(x as int, y as int),
    {
        get_at(&self.data, self.index(x, y))
    }

    pub fn put_pixel(&mut self, x: u32, y: u32, pixel: Rgba)
        requires
            old(self).wf(),
            old(self).has(x as int, y as int),
        ensures
            final(self).wf(),
            final(self).width == old(self).width,
            final(self).height == old(self).height,
            forall|i: int, j: int|
                final(self).has(i, j) ==> final(self).pixel(i, j) == if i == x && j == y {
                    pixel
                } else {
                    old(self).pixel(i, j)
                },
    {
        let at = self.index(x, y);
        put_at(&mut self.data, at, pixel);
        proof {
            let width = self.width as int;
            assert forall|i: int, j: int| self.has(i, j) implies self.pixel(i, j) == (if i == x
                && j == y {
                pixel
            } else {
                old(self).pixel(i, j)
            }) by {
                lemma_offset_bounds(width, self.height as int, i, j);
                if offset(width, i, j) == at {
                    lemma_offset_injective(width, i, j, x as int, y as int);
                }
            }
        }
    }

    /// Where pixel (`x`, `y`) stands in the data, in pixels.
    pub fn index(&self, x: u32, y: u32) -> (r: usize)
        requires
            self.wf(),
            self.has(x as int, y as int),
        ensures
            r == offset(self.width as int, x as int, y as int),
            r < self.width * self.height,
            r * 4 + 4 <= self.data@.len(),
    {
        proof {
            lemma_offset_bounds(self.width as int, self.height as int, x as int, y as int);
            assert(0 <= y * self.width) by (nonlinear_arith)
                requires
                    0 <= y,
                    0 <= self.width,
            ;
        }
        assert(self.data.len() == self.data@.len());
        y as usize * self.width as usize + x as usize
    }
}

proof fn lemma_u32_product(a: u32, b: u32)
    ensures
        0 <= a * b <= u64::MAX,
{
    assert(0 <= a * b <= 0xffff_ffff * 0xffff_ffff) by (nonlinear_arith)
        requires
            0 <= a <= 0xffff_ffff,
            0 <= b <= 0xffff_ffff,
    ;
}

proof fn lemma_product_fits(width: u32, height: u32)
    requires
        width * height * 4 <= usize::MAX,
    ensures
        0 <= width * height <= usize::MAX,
{
    lemma_u32_product(width, height);
}

/// Reads pixel `i` of packed RGBA bytes.
pub fn get_at(data: &Vec<u8>, i: usize) -> (r: Rgba)
    requires
        i * 4 + 4 <= data@.len(),
    ensures
        r == rgba_at(data@, i as int),
{
    assert(data.len() == data@.len());
    Rgba { r: data[4 * i], g: data[4 * i + 1], b: data[4 * i + 2], a: data[4 * i + 3] }
}

/// Writes pixel `i` of packed RGBA bytes.
pub fn put_at(data: &mut Vec<u8>, i: usize, pixel: Rgba)
    requires
        i * 4 + 4 <= old(data)@.len(),
    ensures
        final(data)@.len() == old(data)@.len(),
        forall|j: int|
            0 <= j && j * 4 + 4 <= final(data)@.len() ==> #[trigger] rgba_at(final(data)@, j)
                == if j == i {
                pixel
            } else {
                rgba_at(old(data)@, j)
            },
{
    assert(data.len() == data@.len());
    data.set(4 * i, pixel.r);
    data.set(4 * i + 1, pixel.g);
    data.set(4 * i + 2, pixel.b);
    data.set(4 * i + 3, pixel.a);
}

} // verus!
