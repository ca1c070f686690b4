//! Captured frames: their stream size, compositing, encoding and cropping.

use vstd::prelude::*;

use crate::codec;
use crate::decode;
use crate::decode::Packed;
use crate::pixels;
use crate::pixels::{AlphaMode, BufferSpec, Error, Transform};
use crate::raster;
use crate::raster::{Rgba, RgbaImage};
use crate::rect::Rect;

verus! {

/// The pixel grid chosen before the streaming width limit applies.
#[derive(Debug, Clone, Copy, PartialEq, Eq, Structural)]
pub enum PixelMode {
    Logical,
    Native,
}

impl Default for PixelMode {
    fn default() -> (r: PixelMode)
        ensures
            r == PixelMode::Logical,
    {
        PixelMode::Logical
    }
}

/// Opaque RGB pixels, three bytes each.
#[derive(Debug, Clone, PartialEq, Eq)]
pub struct RgbImage {
    pub width: u32,
    pub height: u32,
    pub data: Vec<u8>,
}

/// Pixels at capture resolution, with logical dimensions for scale-1 streaming.
#[derive(Debug)]
pub struct CapturedFrame {
    pub image: RgbaImage,
    pub logical_width: u32,
    pub logical_height: u32,
}

/// A channel composited over black.
pub open spec fn composited(c: u8, a: u8) -> u8 {
    ((c * a) / 255) as u8
}

/// RGBA bytes composited over black, without their alpha.
pub open spec fn over_black(rgba: Seq<u8>) -> Seq<u8> {
    Seq::new(rgba.len() / 4 * 3, |i: int| composited(rgba[i / 3 * 4 + i % 3], rgba[i / 3 * 4 + 3]))
}

/// Every pixel has alpha 255.
pub open spec fn opaque(image: RgbaImage) -> bool {
    forall|i: int| 0 <= i < image.width * image.height ==> #[trigger] image.data@[4 * i + 3] == 255
}

impl CapturedFrame {
    /// The streamed size, or why there is none.
    pub open spec fn stream_size(self, max_width: Option<u32>, mode: PixelMode) -> Result<
        (u32, u32),
        Error,
    > {
        let (base_width, base_height) = match mode {
            PixelMode::Logical => (self.logical_width, self.logical_height),
            PixelMode::Native => (self.image.width, self.image.height),
        };
        if base_width == 0 || base_height == 0 {
            Err(Error::EmptyStream)
        } else if max_width == Some(0u32) {
            Err(Error::InvalidWidthLimit)
        } else {
            let width = match max_width {
                Some(limit) if limit < base_width => limit,
                _ => base_width,
            };
            let height = base_height * width / (base_width as int);
            Ok((width, if height > 1 { height as u32 } else { 1 }))
        }
    }

    /// The streamed pixels before compositing.
    pub open spec fn stream_rgba(self, width: u32, height: u32) -> Seq<u8> {
        codec::scaled(
            self.image.data@,
            self.image.width as int,
            self.image.height as int,
            width as int,
            height as int,
        )
    }

    /// The image is whole and scaling it to the stream size fits the machine.
    pub open spec fn can_stream(self, max_width: Option<u32>, mode: PixelMode) -> bool {
        &&& self.image.wf()
        &&& match self.stream_size(max_width, mode) {
            Ok((width, height)) => codec::same_size(self.image, width, height) || codec::can_scale(
                self.image.width as int,
                self.image.height as int,
                width as int,
                height as int,
            ),
            Err(_) => true,
        }
    }

    /// Why a JPEG stream frame cannot be made, if it cannot.
    pub open spec fn jpeg_refused(self, quality: u8, max_width: Option<u32>, mode: PixelMode) -> Option<
        Error,
    > {
        if !(1 <= quality <= 95) {
            Some(Error::InvalidQuality)
        } else {
            match self.stream_size(max_width, mode) {
                Err(error) => Some(error),
                Ok((width, height)) => if codec::jpeg_sized(width, height) {
                    None
                } else {
                    Some(Error::JpegSize { width, height })
                },
            }
        }
    }

    /// The JPEG file streamed at `width` by `height`.
    pub open spec fn stream_jpeg(self, quality: u8, width: u32, height: u32) -> Seq<u8> {
        codec::jpeg_file(
            over_black(self.stream_rgba(width, height)),
            width as int,
            height as int,
            quality as int,
        )
    }

    /// Keeps transparency only for frames decoded with `AlphaMode::Straight`.
    pub fn png(&self) -> (r: Result<Vec<u8>, Error>)
        requires
            self.image.wf(),
        ensures
            match r {
                Ok(bytes) => self.image.width > 0 && self.image.height > 0 && bytes@
                    == codec::png_file(
                    self.image.data@,
                    self.image.width as int,
                    self.image.height as int,
                ),
                Err(error) => (self.image.width == 0 || self.image.height == 0) && error
                    == if self.image.width == 0 {
                    Error::PngWidth
                } else {
                    Error::PngHeight
                },
            },
    {
        proof {
            lemma_empty_product(self.image.width, self.image.height);
        }
        match codec::encode_png(&self.image) {
            Ok(bytes) => Ok(bytes),
            Err(words) => {
                let error = if self.image.width == 0 {
                    Error::PngWidth
                } else {
                    Error::PngHeight
                };
                assert(words@ == error.text());
                Err(error)
            },
        }
    }

    /// JPEG at logical resolution.
    pub fn jpeg(&self, quality: u8) -> (r: Result<Vec<u8>, Error>)
        requires
            self.can_stream(None, PixelMode::Logical),
        ensures
            match r {
                Ok(bytes) => self.jpeg_refused(quality, None, PixelMode::Logical) is None && {
                    let size = self.stream_size(None, PixelMode::Logical)->Ok_0;
                    bytes@ == self.stream_jpeg(quality, size.0, size.1)
                },
                Err(error) => self.jpeg_refused(quality, None, PixelMode::Logical) == Some(error),
            },
    {
        match self.jpeg_scaled(quality, None) {
            Ok(encoded) => Ok(encoded.0),
            Err(error) => Err(error),
        }
    }

    /// JPEG at logical resolution, optionally limited in width. Returns the
    /// actual encoded dimensions for stream diagnostics.
    pub fn jpeg_scaled(&self, quality: u8, max_width: Option<u32>) -> (r: Result<
        (Vec<u8>, u32, u32),
        Error,
    >)
        requires
            self.can_stream(max_width, PixelMode::Logical),
        ensures
            match r {
                Ok((bytes, width, height)) => {
                    &&& self.jpeg_refused(quality, max_width, PixelMode::Logical) is None
                    &&& self.stream_size(max_width, PixelMode::Logical) == Ok::<
                        (u32, u32),
                        Error,
                    >((width, height))
                    &&& bytes@ == self.stream_jpeg(quality, width, height)
                },
                Err(error) => self.jpeg_refused(quality, max_width, PixelMode::Logical) == Some(
                    error,
                ),
            },
    {
        self.jpeg_with_mode(quality, max_width, PixelMode::Logical)
    }

    /// Native mode preserves captured pixels. The width limit applies to the
    /// selected mode, never upscales it, and leaves PNG screenshots unchanged.
    pub fn jpeg_with_mode(&self, quality: u8, max_width: Option<u32>, mode: PixelMode) -> (r: Result<
        (Vec<u8>, u32, u32),
        Error,
    >)
        requires
            self.can_stream(max_width, mode),
        ensures
            match r {
                Ok((bytes, width, height)) => {
                    &&& self.jpeg_refused(quality, max_width, mode) is None
                    &&& self.stream_size(max_width, mode) == Ok::<(u32, u32), Error>(
                        (width, height),
                    )
                    &&& bytes@ == self.stream_jpeg(quality, width, height)
                },
                Err(error) => self.jpeg_refused(quality, max_width, mode) == Some(error),
            },
    {
        if !(1 <= quality && quality <= 95) {
            return Err(Error::InvalidQuality);
        }
        let (width, height): (u32, u32) = match self.stream_dimensions(max_width, mode) {
            Ok(size) => size,
            Err(error) => return Err(error),
        };
        let encoded = if self.image.width == width && self.image.height == height && is_opaque(
            &self.image,
        ) {
            // The encoder drops alpha, so opaque pixels need no RGB copy.
            proof {
                lemma_opaque_needs_no_compositing(self.image);
            }
            codec::encode_jpeg_rgba(&self.image, quality)
        } else {
            match self.stream_rgb(max_width, mode) {
                Ok(rgb) => codec::encode_jpeg_rgb(&rgb.data, width, height, quality),
                Err(error) => return Err(error),
            }
        };
        match encoded {
            Ok(bytes) => Ok((bytes, width, height)),
            Err(words) => {
                let error = Error::JpegSize { width, height };
                assert(words@ == error.text());
                Err(error)
            },
        }
    }

    /// Whether scaling the image to the stream size fits the machine.
    pub fn fits_stream(&self, max_width: Option<u32>, mode: PixelMode) -> (r: bool)
        requires
            self.image.wf(),
        ensures
            r == self.can_stream(max_width, mode),
    {
        match self.stream_dimensions(max_width, mode) {
            Ok((width, height)) => self.image.width == width && self.image.height == height
                || codec::fits_scaling(self.image.width, self.image.height, width, height),
            Err(_) => true,
        }
    }

    pub fn stream_dimensions(&self, max_width: Option<u32>, mode: PixelMode) -> (r: Result<
        (u32, u32),
        Error,
    >)
        ensures
            r == self.stream_size(max_width, mode),
    {
        let (base_width, base_height): (u32, u32) = match mode {
            PixelMode::Logical => (self.logical_width, self.logical_height),
            PixelMode::Native => (self.image.width, self.image.height),
        };
        if base_width == 0 || base_height == 0 {
            return Err(Error::EmptyStream);
        }
        let width: u32 = match max_width {
            Some(limit) => {
                if limit == 0 {
                    return Err(Error::InvalidWidthLimit);
                }
                if limit < base_width {
                    limit
                } else {
                    base_width
                }
            },
            None => base_width,
        };
        proof {
            lemma_proportional(base_height as int, width as int, base_width as int);
        }
        let height: u64 = base_height as u64 * width as u64 / base_width as u64;
        Ok((width, if height > 1 { height as u32 } else { 1 }))
    }

    /// Shared scaling and alpha compositing for JPEG and H.264 encoders.
    pub fn stream_rgb(&self, max_width: Option<u32>, mode: PixelMode) -> (r: Result<RgbImage, Error>)
        requires
            self.can_stream(max_width, mode),
        ensures
            match r {
                Ok(rgb) => {
                    &&& self.stream_size(max_width, mode) == Ok::<(u32, u32), Error>(
                        (rgb.width, rgb.height),
                    )
                    &&& rgb.data@.len() == rgb.width * rgb.height * 3
                    &&& rgb.data@ == over_black(self.stream_rgba(rgb.width, rgb.height))
                },
                Err(error) => self.stream_size(max_width, mode) == Err::<(u32, u32), Error>(error),
            },
    {
        let (width, height): (u32, u32) = match self.stream_dimensions(max_width, mode) {
            Ok(size) => size,
            Err(error) => return Err(error),
        };
        let data = if self.image.width == width && self.image.height == height {
            composite(&self.image)
        } else {
            composite(&codec::resize(&self.image, width, height))
        };
        Ok(RgbImage { width, height, data })
    }
}

proof fn lemma_empty_product(width: u32, height: u32)
    ensures
        width * height * 4 == 0 <==> width == 0 || height == 0,
        width * height * 4 >= 0,
{
    assert(width * height * 4 == 0 <==> width == 0 || height == 0) by (nonlinear_arith)
        requires
            width >= 0,
            height >= 0,
    ;
    assert(width * height >= 0) by (nonlinear_arith)
        requires
            width >= 0,
            height >= 0,
    ;
}

/// A part `p` of `whole` scales `n` to no more than itself.
proof fn lemma_proportional(n: int, p: int, whole: int)
    requires
        0 <= n <= u32::MAX,
        0 <= p <= whole <= u32::MAX,
        0 < whole,
    ensures
        0 <= n * p <= u64::MAX,
        0 <= n * p / whole <= n,
{
    assert(0 <= n * p <= n * whole) by (nonlinear_arith)
        requires
            0 <= n,
            0 <= p <= whole,
    ;
    assert(n * whole <= 0xffff_ffff * 0xffff_ffff) by (nonlinear_arith)
        requires
            0 <= n <= 0xffff_ffff,
            0 <= whole <= 0xffff_ffff,
    ;
    assert(0 <= n * p / whole <= n) by (nonlinear_arith)
        requires
            0 <= n * p <= n * whole,
            0 < whole,
    ;
}

/// Streaming never enlarges the chosen pixel grid.
pub proof fn streams_never_upscale(frame: CapturedFrame, max_width: Option<u32>, mode: PixelMode)
    ensures
        match frame.stream_size(max_width, mode) {
            Ok((width, height)) => {
                let (base_width, base_height) = match mode {
                    PixelMode::Logical => (frame.logical_width, frame.logical_height),
                    PixelMode::Native => (frame.image.width, frame.image.height),
                };
                &&& 1 <= width <= base_width
                &&& 1 <= height <= base_height
                &&& max_width is Some ==> width <= max_width->0
            },
            Err(_) => true,
        },
{
    let (base_width, base_height) = match mode {
        PixelMode::Logical => (frame.logical_width, frame.logical_height),
        PixelMode::Native => (frame.image.width, frame.image.height),
    };
    match frame.stream_size(max_width, mode) {
        Ok((width, height)) => {
            lemma_proportional(base_height as int, width as int, base_width as int);
        },
        Err(_) => {},
    }
}

/// Composites an image over black.
fn composite(image: &RgbaImage) -> (rgb: Vec<u8>)
    requires
        image.wf(),
    ensures
        rgb@ == over_black(image.data@),
        rgb@.len() == image.width * image.height * 3,
{
    let count: usize = image.data.len() / 4;
    let mut rgb: Vec<u8> = Vec::with_capacity(count * 3);
    let mut i: usize = 0;
    while i < count
        invariant
            i <= count,
            image.data@.len() == 4 * count,
            image.data.len() == image.data@.len(),
            rgb@.len() == 3 * i,
            forall|j: int|
                0 <= j < rgb@.len() ==> rgb@[j] == composited(
                    image.data@[j / 3 * 4 + j % 3],
                    image.data@[j / 3 * 4 + 3],
                ),
        decreases count - i,
    {
        let p = raster::get_at(&image.data, i);
        rgb.push(channel_over_black(p.r, p.a));
        rgb.push(channel_over_black(p.g, p.a));
        rgb.push(channel_over_black(p.b, p.a));
        i = i + 1;
    }
    rgb
}

fn channel_over_black(c: u8, a: u8) -> (r: u8)
    ensures
        r == composited(c, a),
{
    proof {
        lemma_channel_product(c, a);
    }
    (c as u16 * a as u16 / 255) as u8
}

proof fn lemma_channel_product(c: u8, a: u8)
    ensures
        0 <= c * a <= 255 * 255,
        a == 255 ==> c * a == 255 * c,
        c == 255 ==> c * a == 255 * a,
        a == 0 ==> c * a == 0,
{
    assert(0 <= c * a <= 255 * 255) by (nonlinear_arith)
        requires
            0 <= c <= 255,
            0 <= a <= 255,
    ;
}

/// Whether every pixel has alpha 255.
pub fn is_opaque(image: &RgbaImage) -> (r: bool)
    requires
        image.wf(),
    ensures
        r == opaque(*image),
{
    let count: usize = image.data.len() / 4;
    let mut i: usize = 0;
    while i < count
        invariant
            i <= count,
            image.data@.len() == 4 * count,
            image.data.len() == image.data@.len(),
            count == image.width * image.height,
            forall|j: int| 0 <= j < i ==> #[trigger] image.data@[4 * j + 3] == 255,
        decreases count - i,
    {
        if image.data[4 * i + 3] != 255 {
            return false;
        }
        i = i + 1;
    }
    true
}

/// Compositing opaque pixels only drops their alpha.
proof fn lemma_opaque_needs_no_compositing(image: RgbaImage)
    requires
        image.wf(),
        opaque(image),
    ensures
        over_black(image.data@) == codec::without_alpha(image.data@),
{
    let data = image.data@;
    assert forall|i: int| 0 <= i < data.len() / 4 * 3 implies over_black(data)[i]
        == codec::without_alpha(data)[i] by {
        assert(data[4 * (i / 3) + 3] == 255);
        lemma_channel_product(data[i / 3 * 4 + i % 3], data[i / 3 * 4 + 3]);
    }
    assert(over_black(data) =~= codec::without_alpha(data));
}

/// Decoding for a stream differs from compositing a straight decode by at
/// most one step in each channel.
pub proof fn opaque_decoding_matches_compositing(p: Rgba)
    ensures
        ({
            let straight = pixels::straightened(p);
            let flat = pixels::flattened(p);
            &&& flat.a == 255
            &&& straight.a == p.a
            &&& -1 <= flat.r - composited(straight.r, straight.a) <= 1
            &&& -1 <= flat.g - composited(straight.g, straight.a) <= 1
            &&& -1 <= flat.b - composited(straight.b, straight.a) <= 1
        }),
{
    lemma_channel_matches(p.r, p.a);
    lemma_channel_matches(p.g, p.a);
    lemma_channel_matches(p.b, p.a);
}

/// With the alpha of a ten-bit format, decoding for a stream is compositing a
/// straight decode, to the step.
pub proof fn ten_bit_decoding_equals_compositing(p: Rgba)
    requires
        p.a == 0 || p.a == 85 || p.a == 170 || p.a == 255,
    ensures
        ({
            let straight = pixels::straightened(p);
            let flat = pixels::flattened(p);
            &&& flat.r == composited(straight.r, straight.a)
            &&& flat.g == composited(straight.g, straight.a)
            &&& flat.b == composited(straight.b, straight.a)
        }),
{
    lemma_channel_equals(p.r, p.a);
    lemma_channel_equals(p.g, p.a);
    lemma_channel_equals(p.b, p.a);
}

/// The alpha of a ten-bit format has two bits.
pub proof fn ten_bit_alpha_has_four_steps(format: pixels::Format, bytes: Seq<u8>)
    requires
        format is Argb2101010 || format is Xrgb2101010 || format is Abgr2101010
            || format is Xbgr2101010,
        bytes.len() == 4,
    ensures
        ({
            let a = pixels::stored(format, bytes).a;
            a == 0 || a == 85 || a == 170 || a == 255
        }),
{
}

proof fn lemma_channel_equals(c: u8, a: u8)
    requires
        a == 0 || a == 85 || a == 170 || a == 255,
    ensures
        ({
            let straight = if a == 0 || a == 255 { c } else { pixels::straight_channel(c, a) };
            let flat = if c <= a { c } else { a };
            flat == composited(straight, a)
        }),
{
    let straight = if a == 0 || a == 255 { c } else { pixels::straight_channel(c, a) };
    lemma_channel_product(straight, a);
    if a == 85 {
        assert((c * 255 + 42) / 85 == 3 * c);
        assert(straight * a == 85 * straight) by (nonlinear_arith)
            requires
                a == 85,
        ;
    } else if a == 170 {
        assert(straight * a == 170 * straight) by (nonlinear_arith)
            requires
                a == 170,
        ;
    }
}

proof fn lemma_channel_matches(c: u8, a: u8)
    ensures
        ({
            let straight = if a == 0 || a == 255 { c } else { pixels::straight_channel(c, a) };
            let flat = if c <= a { c } else { a };
            -1 <= flat - composited(straight, a) <= 1
        }),
{
    let straight = if a == 0 || a == 255 { c } else { pixels::straight_channel(c, a) };
    lemma_channel_product(straight, a);
    if a != 0 && a != 255 {
        let n = c * 255 + a / 2;
        let q = n / (a as int);
        assert(a * q <= n < a * q + a) by (nonlinear_arith)
            requires
                q == n / (a as int),
                0 < a,
        ;
        if q > 255 {
            assert(c > a) by (nonlinear_arith)
                requires
                    a * q <= c * 255 + a / 2,
                    q >= 256,
                    0 < a < 255,
            ;
        } else {
            assert(straight * a == a * q) by (nonlinear_arith)
                requires
                    straight == q,
            ;
            if c > a {
                assert(a * q + a > 255 * (a + 1)) by (nonlinear_arith)
                    requires
                        a * q + a > c * 255 + a / 2,
                        c >= a + 1,
                        0 < a < 255,
                ;
                assert(q >= 255) by (nonlinear_arith)
                    requires
                        a * q + a > 255 * (a + 1),
                        0 < a < 255,
                ;
            }
        }
    }
}

/// Image pixels a region touches.
#[derive(Debug, Clone, Copy, PartialEq, Eq, Structural)]
pub struct PixelRect {
    pub x: u32,
    pub y: u32,
    pub width: u32,
    pub height: u32,
}

/// `v * n / d` rounded up.
pub open spec fn scaled_up(v: int, n: int, d: int) -> int {
    (v * n + d - 1) / d
}

/// The pixels of an image of `size`, covering an output's `logical` rectangle,
/// that output-relative `region` touches, and the region clipped to the
/// output. Rounds outward so fractional scales keep partly covered pixels.
pub open spec fn touched_pixels(size: (u32, u32), logical: Rect, region: Rect) -> Option<
    (PixelRect, Rect),
> {
    match region.overlap(Rect { x: 0, y: 0, ..logical }) {
        None => None,
        Some(clipped) => {
            let x = clipped.x * size.0 / (logical.width as int);
            let y = clipped.y * size.1 / (logical.height as int);
            let right = scaled_up(clipped.end_x(), size.0 as int, logical.width as int);
            let bottom = scaled_up(clipped.end_y(), size.1 as int, logical.height as int);
            let right = if right <= size.0 { right } else { size.0 as int };
            let bottom = if bottom <= size.1 { bottom } else { size.1 as int };
            Some(
                (
                    PixelRect {
                        x: x as u32,
                        y: y as u32,
                        width: (right - x) as u32,
                        height: (bottom - y) as u32,
                    },
                    clipped,
                ),
            )
        },
    }
}

/// Along one axis: `start..end` of `len` logical units over `count` pixels.
proof fn lemma_touched_span(start: int, end: int, len: int, count: int)
    requires
        0 <= start < end <= len,
        0 <= count,
    ensures
        0 <= start * count <= end * count,
        0 <= start * count / len <= count,
        start * count / len <= scaled_up(end, count, len),
        forall|p: int|
            #![trigger p * len]
            (start * count / len <= p < scaled_up(end, count, len) && p < count) <==> (0 <= p
                < count && p * len < end * count && p * len + len > start * count),
{
    let a = start * count;
    let b = end * count;
    assert(0 <= a <= b && a <= len * count) by (nonlinear_arith)
        requires
            a == start * count,
            b == end * count,
            0 <= start < end <= len,
            0 <= count,
    ;
    let lo = a / len;
    let hi = (b + len - 1) / len;
    assert(len * lo <= a < len * lo + len && 0 <= lo) by (nonlinear_arith)
        requires
            lo == a / len,
            0 <= a,
            0 < len,
    ;
    assert(len * hi <= b + len - 1 < len * hi + len) by (nonlinear_arith)
        requires
            hi == (b + len - 1) / len,
            0 < len,
    ;
    assert(lo <= count) by (nonlinear_arith)
        requires
            len * lo <= len * count,
            0 < len,
    ;
    assert(lo <= hi) by (nonlinear_arith)
        requires
            len * lo <= b,
            b < len * hi + 1,
            0 < len,
    ;
    assert forall|p: int|
        #![trigger p * len]
        (lo <= p < hi && p < count) <==> (0 <= p < count && p * len < b && p * len + len > a) by {
        assert(lo <= p <==> p * len + len > a) by (nonlinear_arith)
            requires
                len * lo <= a < len * lo + len,
                0 < len,
        ;
        assert(p < hi <==> p * len < b) by (nonlinear_arith)
            requires
                len * hi <= b + len - 1 < len * hi + len,
                0 < len,
        ;
        if p * len + len > a && p < 0 {
            assert(p * len + len <= 0) by (nonlinear_arith)
                requires
                    p < 0,
                    0 < len,
            ;
        }
    }
}

/// A pixel is taken exactly when the part of the output it shows shares some
/// area with the region: pixel `p` of a row shows the logical units from
/// `p * logical.width / size.0` to `(p + 1) * logical.width / size.0`.
pub proof fn touched_pixels_are_the_partly_covered_ones(
    size: (u32, u32),
    logical: Rect,
    region: Rect,
    px: int,
    py: int,
)
    ensures
        match touched_pixels(size, logical, region) {
            Some((rect, clipped)) => {
                &&& rect.x <= px < rect.x + rect.width <==> 0 <= px < size.0 && px * logical.width
                    < clipped.end_x() * size.0 && px * logical.width + logical.width > clipped.x
                    * size.0
                &&& rect.y <= py < rect.y + rect.height <==> 0 <= py < size.1 && py
                    * logical.height < clipped.end_y() * size.1 && py * logical.height
                    + logical.height > clipped.y * size.1
            },
            None => true,
        },
{
    match touched_pixels(size, logical, region) {
        Some((_, clipped)) => {
            lemma_touched_span(
                clipped.x as int,
                clipped.end_x(),
                logical.width as int,
                size.0 as int,
            );
            lemma_touched_span(
                clipped.y as int,
                clipped.end_y(),
                logical.height as int,
                size.1 as int,
            );
        },
        None => {},
    }
}

/// The touched pixels lie on the image.
pub proof fn lemma_touched_pixels_fit(size: (u32, u32), logical: Rect, region: Rect)
    ensures
        match touched_pixels(size, logical, region) {
            Some((rect, clipped)) => {
                &&& rect.x + rect.width <= size.0
                &&& rect.y + rect.height <= size.1
                &&& clipped.width > 0
                &&& clipped.height > 0
            },
            None => true,
        },
{
    match touched_pixels(size, logical, region) {
        Some((_, clipped)) => {
            lemma_touched_span(
                clipped.x as int,
                clipped.end_x(),
                logical.width as int,
                size.0 as int,
            );
            lemma_touched_span(
                clipped.y as int,
                clipped.end_y(),
                logical.height as int,
                size.1 as int,
            );
        },
        None => {},
    }
}

/// First and one-past-last pixel of `start..end` of `len` logical units over
/// `count` pixels.
fn touched_span(start: u32, end: u32, len: u32, count: u32) -> (r: (u32, u32))
    requires
        start < end <= len,
    ensures
        r.0 == start * count / (len as int),
        r.1 == (if scaled_up(end as int, count as int, len as int) <= count {
            scaled_up(end as int, count as int, len as int)
        } else {
            count as int
        }),
        r.0 <= r.1 <= count,
{
    proof {
        lemma_touched_span(start as int, end as int, len as int, count as int);
        assert(end * count <= 0xffff_ffff * 0xffff_ffff) by (nonlinear_arith)
            requires
                0 <= end <= 0xffff_ffff,
                0 <= count <= 0xffff_ffff,
        ;
    }
    let low: u64 = start as u64 * count as u64 / len as u64;
    let product: u64 = end as u64 * count as u64;
    let whole: u64 = product / len as u64;
    let high: u64 = if product % len as u64 == 0 {
        whole
    } else {
        whole + 1
    };
    proof {
        let b = end * count;
        let d = len as int;
        assert(d * (b / d) + b % d == b && 0 <= b % d < d) by (nonlinear_arith)
            requires
                0 < d,
        ;
        assert((b + d - 1) / d == (if b % d == 0 {
            b / d
        } else {
            b / d + 1
        })) by {
            if b % d == 0 {
                vstd::arithmetic::div_mod::lemma_fundamental_div_mod_converse(
                    b + d - 1,
                    d,
                    b / d,
                    d - 1,
                );
            } else {
                assert(d * (b / d + 1) == d * (b / d) + d) by (nonlinear_arith);
                vstd::arithmetic::div_mod::lemma_fundamental_div_mod_converse(
                    b + d - 1,
                    d,
                    b / d + 1,
                    b % d - 1,
                );
            }
        }
    }
    let high: u64 = if high <= count as u64 {
        high
    } else {
        count as u64
    };
    (low as u32, high as u32)
}

pub fn pixel_rect(size: (u32, u32), logical: Rect, region: Rect) -> (r: Result<
    (PixelRect, Rect),
    Error,
>)
    ensures
        match r {
            Ok(found) => touched_pixels(size, logical, region) == Some(found),
            Err(error) => touched_pixels(size, logical, region) is None && error
                == Error::OutsideOutput,
        },
{
    let bounds = Rect { x: 0, y: 0, width: logical.width, height: logical.height };
    let clipped = match region.intersect(bounds) {
        Some(clipped) => clipped,
        None => return Err(Error::OutsideOutput),
    };
    let columns = touched_span(
        clipped.x as u32,
        clipped.right() as u32,
        logical.width,
        size.0,
    );
    let rows = touched_span(clipped.y as u32, clipped.bottom() as u32, logical.height, size.1);
    let rect = PixelRect {
        x: columns.0,
        y: rows.0,
        width: columns.1 - columns.0,
        height: rows.1 - rows.0,
    };
    Ok((rect, clipped))
}

/// The frame shows the pixels of `source` under `rect`, at the logical size of
/// `clipped`.
pub open spec fn shows(
    frame: CapturedFrame,
    source: spec_fn(int, int) -> Rgba,
    rect: PixelRect,
    clipped: Rect,
) -> bool {
    &&& frame.image.wf()
    &&& frame.image.width == rect.width
    &&& frame.image.height == rect.height
    &&& frame.logical_width == clipped.width
    &&& frame.logical_height == clipped.height
    &&& forall|x: int, y: int|
        frame.image.has(x, y) ==> #[trigger] frame.image.pixel(x, y) == source(
            rect.x + x,
            rect.y + y,
        )
}

/// Copies the part of an image that output-relative `region` touches.
pub fn crop(image: &RgbaImage, logical: Rect, region: Rect) -> (r: Result<CapturedFrame, Error>)
    requires
        image.wf(),
    ensures
        match r {
            Ok(frame) => {
                &&& touched_pixels((image.width, image.height), logical, region) is Some
                &&& {
                    let found = touched_pixels((image.width, image.height), logical, region)->0;
                    shows(frame, |x: int, y: int| image.pixel(x, y), found.0, found.1)
                }
            },
            Err(error) => touched_pixels((image.width, image.height), logical, region) is None
                && error == Error::OutsideOutput,
        },
{
    let (rect, clipped) = match pixel_rect((image.width, image.height), logical, region) {
        Ok(found) => found,
        Err(error) => return Err(error),
    };
    proof {
        lemma_touched_pixels_fit((image.width, image.height), logical, region);
        lemma_part_fits(image.width, image.height, rect.width, rect.height);
    }
    assert(image.data.len() == image.data@.len());
    let mut part = RgbaImage::new(rect.width, rect.height);
    let mut y: u32 = 0;
    while y < rect.height
        invariant
            y <= rect.height,
            image.wf(),
            rect.x + rect.width <= image.width,
            rect.y + rect.height <= image.height,
            part.wf(),
            part.width == rect.width,
            part.height == rect.height,
            forall|i: int, j: int|
                part.has(i, j) && j < y ==> #[trigger] part.pixel(i, j) == image.pixel(
                    rect.x + i,
                    rect.y + j,
                ),
        decreases rect.height - y,
    {
        let mut x: u32 = 0;
        while x < rect.width
            invariant
                x <= rect.width,
                y < rect.height,
                image.wf(),
                rect.x + rect.width <= image.width,
                rect.y + rect.height <= image.height,
                part.wf(),
                part.width == rect.width,
                part.height == rect.height,
                forall|i: int, j: int|
                    part.has(i, j) && (j < y || j == y && i < x) ==> #[trigger] part.pixel(i, j)
                        == image.pixel(rect.x + i, rect.y + j),
            decreases rect.width - x,
        {
            part.put_pixel(x, y, image.get_pixel(rect.x + x, rect.y + y));
            x = x + 1;
        }
        y = y + 1;
    }
    Ok(CapturedFrame { image: part, logical_width: clipped.width, logical_height: clipped.height })
}

proof fn lemma_part_fits(width: u32, height: u32, part_width: u32, part_height: u32)
    requires
        part_width <= width,
        part_height <= height,
    ensures
        part_width * part_height * 4 <= width * height * 4,
{
    assert(part_width * part_height <= width * height) by (nonlinear_arith)
        requires
            0 <= part_width <= width,
            0 <= part_height <= height,
    ;
}

/// Same result as `crop` of a full `decode_into` (`logical` is the output's
/// layout rectangle, `region` is output-relative), converting only the
/// region's pixels. Only the normal transform saves work; rotated or flipped
/// outputs are decoded in full and cropped.
pub fn decode_rect(
    bytes: &[u8],
    spec: BufferSpec,
    inverted: bool,
    transform: Transform,
    alpha: AlphaMode,
    logical: Rect,
    region: Rect,
) -> (r: Result<CapturedFrame, Error>)
    ensures
        ({
            let size = (
                decode::output_width(spec, transform),
                decode::output_height(spec, transform),
            );
            match r {
                Ok(frame) => {
                    &&& decode::refused(bytes@.len(), spec, transform) is None
                    &&& touched_pixels(size, logical, region) is Some
                    &&& {
                        let found = touched_pixels(size, logical, region)->0;
                        shows(
                            frame,
                            |x: int, y: int|
                                decode::decoded(bytes@, spec, inverted, transform, alpha, x, y),
                            found.0,
                            found.1,
                        )
                    }
                },
                Err(error) => match decode::refused(bytes@.len(), spec, transform) {
                    Some(refused) => error == refused,
                    None => touched_pixels(size, logical, region) is None && error
                        == Error::OutsideOutput,
                },
            }
        }),
{
    if !matches!(transform, Transform::Normal) {
        // A rotated or mirrored region is not a span of each buffer row.
        let mut image = RgbaImage::new(0, 0);
        match decode::decode_into(bytes, spec, inverted, transform, alpha, &mut image) {
            Ok(()) => {},
            Err(error) => return Err(error),
        }
        let cropped = crop(&image, logical, region);
        proof {
            lemma_touched_pixels_fit((image.width, image.height), logical, region);
        }
        return cropped;
    }
    let packed = match Packed::new(bytes, spec, inverted, transform, alpha) {
        Ok(packed) => packed,
        Err(error) => return Err(error),
    };
    let (rect, clipped) = match pixel_rect((spec.width, spec.height), logical, region) {
        Ok(found) => found,
        Err(error) => return Err(error),
    };
    proof {
        lemma_touched_pixels_fit((spec.width, spec.height), logical, region);
        lemma_part_fits(spec.width, spec.height, rect.width, rect.height);
        pixels::lemma_decoded_size(spec);
    }
    let mut part = RgbaImage::new(rect.width, rect.height);
    let mut y: u32 = 0;
    while y < rect.height
        invariant
            y <= rect.height,
            packed.wf(),
            packed.bytes@ == bytes@,
            packed.spec == spec,
            packed.alpha == alpha,
            packed.inverted == inverted,
            packed.transform == transform,
            transform == Transform::Normal,
            rect.x + rect.width <= spec.width,
            rect.y + rect.height <= spec.height,
            part.wf(),
            part.width == rect.width,
            part.height == rect.height,
            forall|i: int, j: int|
                part.has(i, j) && j < y ==> #[trigger] part.pixel(i, j) == decode::decoded(
                    bytes@,
                    spec,
                    inverted,
                    transform,
                    alpha,
                    rect.x + i,
                    rect.y + j,
                ),
        decreases rect.height - y,
    {
        let from: u32 = if inverted {
            spec.height - 1 - (rect.y + y)
        } else {
            rect.y + y
        };
        let mut x: u32 = 0;
        while x < rect.width
            invariant
                x <= rect.width,
                y < rect.height,
                from == (if inverted {
                    spec.height - 1 - (rect.y + y)
                } else {
                    rect.y + y
                }),
                packed.wf(),
                packed.bytes@ == bytes@,
                packed.spec == spec,
                packed.alpha == alpha,
                packed.inverted == inverted,
                packed.transform == transform,
                transform == Transform::Normal,
                rect.x + rect.width <= spec.width,
                rect.y + rect.height <= spec.height,
                part.wf(),
                part.width == rect.width,
                part.height == rect.height,
                forall|i: int, j: int|
                    part.has(i, j) && (j < y || j == y && i < x) ==> #[trigger] part.pixel(i, j)
                        == decode::decoded(
                        bytes@,
                        spec,
                        inverted,
                        transform,
                        alpha,
                        rect.x + i,
                        rect.y + j,
                    ),
            decreases rect.width - x,
        {
            part.put_pixel(x, y, packed.pixel(rect.x + x, from));
            x = x + 1;
        }
        y = y + 1;
    }
    Ok(CapturedFrame { image: part, logical_width: clipped.width, logical_height: clipped.height })
}

/// Decoding a region gives what cropping a full decode gives: both show the
/// same pixels at the same logical size.
pub proof fn decoding_a_region_matches_cropping(
    image: RgbaImage,
    bytes: Seq<u8>,
    spec: BufferSpec,
    inverted: bool,
    transform: Transform,
    alpha: AlphaMode,
    logical: Rect,
    region: Rect,
    frame: CapturedFrame,
)
    requires
        decode::holds(image, bytes, spec, inverted, transform, alpha),
        touched_pixels((image.width, image.height), logical, region) is Some,
    ensures
        ({
            let found = touched_pixels((image.width, image.height), logical, region)->0;
            shows(frame, |x: int, y: int| image.pixel(x, y), found.0, found.1) <==> shows(
                frame,
                |x: int, y: int| decode::decoded(bytes, spec, inverted, transform, alpha, x, y),
                found.0,
                found.1,
            )
        }),
{
    lemma_touched_pixels_fit((image.width, image.height), logical, region);
    let rect = (touched_pixels((image.width, image.height), logical, region)->0).0;
    if frame.image.width == rect.width && frame.image.height == rect.height {
        assert forall|x: int, y: int| frame.image.has(x, y) implies image.pixel(
            rect.x + x,
            rect.y + y,
        ) == #[trigger] decode::decoded(
            bytes,
            spec,
            inverted,
            transform,
            alpha,
            rect.x + x,
            rect.y + y,
        ) by {
            assert(image.has(rect.x + x, rect.y + y));
        }
    }
}

/// Pixel (`x`, `y`) of a demo frame.
pub open spec fn demo_pixel(frame: u32, x: int, y: int) -> Rgba {
    let shift = frame * 7 % 0x1_0000_0000;
    let moving = (x + shift) % 0x1_0000_0000 % 640 < 100;
    Rgba { r: if moving { 122 } else { (x % 256) as u8 }, g: (y % 256) as u8, b: 180, a: 255 }
}

/// Synthetic image for exercising the complete streaming path without a
/// desktop.
pub fn demo_frame(frame: u32) -> (r: CapturedFrame)
    ensures
        r.image.wf(),
        r.image.width == 640,
        r.image.height == 360,
        r.logical_width == 640,
        r.logical_height == 360,
        forall|x: int, y: int| r.image.has(x, y) ==> r.image.pixel(x, y) == demo_pixel(frame, x, y),
{
    let shift: u32 = frame.wrapping_mul(7);
    let mut image = RgbaImage::new(640, 360);
    let mut y: u32 = 0;
    while y < 360
        invariant
            y <= 360,
            shift == frame * 7 % 0x1_0000_0000,
            image.wf(),
            image.width == 640,
            image.height == 360,
            forall|i: int, j: int|
                image.has(i, j) && j < y ==> image.pixel(i, j) == demo_pixel(frame, i, j),
        decreases 360 - y,
    {
        let mut x: u32 = 0;
        while x < 640
            invariant
                x <= 640,
                y < 360,
                shift == frame * 7 % 0x1_0000_0000,
                image.wf(),
                image.width == 640,
                image.height == 360,
                forall|i: int, j: int|
                    image.has(i, j) && (j < y || j == y && i < x) ==> image.pixel(i, j)
                        == demo_pixel(frame, i, j),
            decreases 640 - x,
        {
            let moving = x.wrapping_add(shift) % 640 < 100;
            let r: u8 = if moving {
                122
            } else {
                (x % 256) as u8
            };
            image.put_pixel(x, y, Rgba { r, g: (y % 256) as u8, b: 180, a: 255 });
            x = x + 1;
        }
        y = y + 1;
    }
    CapturedFrame { image, logical_width: 640, logical_height: 360 }
}

/// The clipped region holds exactly the region's points that lie on the output;
/// without such a point nothing is cropped.
pub proof fn crops_keep_what_lies_on_the_output(
    size: (u32, u32),
    logical: Rect,
    region: Rect,
    x: int,
    y: int,
)
    ensures
        match touched_pixels(size, logical, region) {
            Some((_, clipped)) => clipped.has(x, y) <==> region.has(x, y) && 0 <= x < logical.width
                && 0 <= y < logical.height,
            None => !(region.has(x, y) && 0 <= x < logical.width && 0 <= y < logical.height),
        },
{
}

/// A stream has the width that is asked for or the picture's own, whichever is
/// smaller, and keeps the picture's proportions to within a pixel.
pub proof fn streams_keep_their_shape(
    frame: CapturedFrame,
    max_width: Option<u32>,
    mode: PixelMode,
)
    ensures
        match frame.stream_size(max_width, mode) {
            Ok((width, height)) => {
                let (w, h) = match mode {
                    PixelMode::Logical => (frame.logical_width, frame.logical_height),
                    PixelMode::Native => (frame.image.width, frame.image.height),
                };
                &&& width == w || max_width == Some(width)
                &&& max_width is None ==> width == w && height == h
                &&& height * w <= h * width || height == 1
                &&& h * width < height * w + w
            },
            Err(_) => true,
        },
{
    let (w, h) = match mode {
        PixelMode::Logical => (frame.logical_width as int, frame.logical_height as int),
        PixelMode::Native => (frame.image.width as int, frame.image.height as int),
    };
    if let Ok((width, height)) = frame.stream_size(max_width, mode) {
        let n = width as int;
        let q = h * n / w;
        lemma_proportional(h, n, w);
        assert(q * w <= h * n < q * w + w) by (nonlinear_arith)
            requires
                q == h * n / w,
                0 < w,
        ;
        if n == w {
            assert(q == h) by (nonlinear_arith)
                requires
                    q == h * w / w,
                    0 < w,
            ;
        }
        assert(0 <= q <= h);
        if q <= 1 {
            assert(q * w <= w && (q == 1 ==> q * w == w)) by (nonlinear_arith)
                requires
                    0 <= q <= 1,
                    0 < w,
            ;
        }
        assert(height as int * w == w * height) by (nonlinear_arith);
    }
}

/// The stream's color of a pixel is the pixel's, dimmed by its alpha: what
/// compositing over black leaves of it, rounded down.
pub proof fn streams_show_colors_over_black(rgba: Seq<u8>, i: int, k: int)
    requires
        0 <= i,
        4 * i + 4 <= rgba.len(),
        0 <= k < 3,
    ensures
        ({
            let (color, alpha) = (rgba[4 * i + k], rgba[4 * i + 3]);
            let shown = over_black(rgba)[3 * i + k];
            &&& 255 * shown <= color * alpha < 255 * shown + 255
            &&& alpha == 255 ==> shown == color
            &&& alpha == 0 ==> shown == 0
        }),
{
    let (color, alpha) = (rgba[4 * i + k], rgba[4 * i + 3]);
    lemma_channel_product(color, alpha);
    assert((3 * i + k) / 3 == i && (3 * i + k) % 3 == k);
    let p = color * alpha;
    assert(0 <= p / 255 <= 255);
}

} // verus!
