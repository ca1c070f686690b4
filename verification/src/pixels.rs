//! Shared-memory pixel formats, and decoding captured buffers into images.

use vstd::prelude::*;

use crate::raster::Rgba;
use crate::text;

verus! {

/// The largest buffer a capture may use.
pub const MAX_BUFFER_BYTES: usize = 536_870_912;

/// The largest width or height of a capture.
pub const MAX_DIMENSION: u32 = 32768;

/// The largest row stride that fits the wire protocol's signed integer.
pub const MAX_STRIDE: u32 = 0x7fff_ffff;

/// Pixel formats of shared-memory buffers. Each is a little-endian word whose
/// high bits come first in the name.
#[derive(Debug, Clone, Copy, PartialEq, Eq, Structural)]
pub enum Format {
    Argb8888,
    Xrgb8888,
    Abgr8888,
    Xbgr8888,
    Xrgb2101010,
    Argb2101010,
    Xbgr2101010,
    Abgr2101010,
    Rgb888,
    Bgr888,
    Rgb565,
    Bgr565,
    /// A format that captures cannot use, by its protocol number.
    Other(u32),
}

/// How an output's contents are turned in its buffers.
#[derive(Debug, Clone, Copy, PartialEq, Eq, Structural)]
pub enum Transform {
    Normal,
    _90,
    _180,
    _270,
    Flipped,
    Flipped90,
    Flipped180,
    Flipped270,
    /// A transform that captures cannot undo, by its protocol number.
    Other(u32),
}

/// The name of the shared-memory format with a protocol number, where the
/// protocol has one.
pub uninterp spec fn shm_format_name(code: int) -> Option<Seq<char>>;

/// `wayland_client::protocol::wl_shm::Format::try_from` finds the protocol's
/// format with a number, and `Debug` gives its name, which `shm_format_name`
/// stands for.
#[verifier::external_body]
pub(crate) fn format_name(code: u32) -> (r: Option<String>)
    ensures
        text::text_of(r) == shm_format_name(code as int),
{
    let format = wayland_client::protocol::wl_shm::Format::try_from(code).ok()?;
    Some(format!("{format:?}"))
}

/// Why pixels could not be produced.
#[derive(Debug, Clone, Copy, PartialEq, Eq, Structural)]
pub enum Error {
    /// A format that captures cannot use, by its protocol number.
    UnsupportedFormat(u32),
    WidthOverflow,
    InvalidDimensions,
    InvalidStride,
    SizeOverflow,
    TooLarge,
    Truncated,
    UnsupportedTransform,
    ImageMismatch,
    RowsOutside { start: u32, end: u32 },
    OutsideOutput,
    EmptyRegion,
    InvalidQuality,
    EmptyStream,
    InvalidWidthLimit,
    /// An image that a JPEG file cannot hold.
    JpegSize { width: u32, height: u32 },
    /// An image without columns, which a PNG file cannot hold.
    PngWidth,
    /// An image without rows, which a PNG file cannot hold.
    PngHeight,
    IncorrectSize,
}

impl Error {
    /// The words shown for the error.
    pub open spec fn text(self) -> Seq<char> {
        match self {
            Error::UnsupportedFormat(code) => "unsupported capture pixel format: "@ + match shm_format_name(
                code as int,
            ) {
                Some(name) => name,
                None => text::decimal(code as nat),
            },
            Error::WidthOverflow => "capture width overflow"@,
            Error::InvalidDimensions => "invalid capture dimensions"@,
            Error::InvalidStride => "invalid capture stride"@,
            Error::SizeOverflow => "capture buffer size overflow"@,
            Error::TooLarge => "capture buffer exceeds 512 MiB"@,
            Error::Truncated => "truncated capture buffer"@,
            Error::UnsupportedTransform => "unsupported capture transform"@,
            Error::ImageMismatch => "decoded image does not match the capture buffer"@,
            Error::RowsOutside { start, end } => "rows "@ + text::decimal(start as nat) + ".."@
                + text::decimal(end as nat) + " are outside the capture buffer"@,
            Error::OutsideOutput => "selected region is outside its output"@,
            Error::EmptyRegion => "empty capture region"@,
            Error::InvalidQuality => "invalid JPEG quality"@,
            Error::EmptyStream => "empty stream image"@,
            Error::InvalidWidthLimit => "maximum width must be positive"@,
            Error::JpegSize { width, height } => crate::codec::jpeg_refusal(width, height),
            Error::PngWidth => crate::codec::png_refusal(0),
            Error::PngHeight => crate::codec::png_refusal(1),
            Error::IncorrectSize => "incorrect Wayland buffer size"@,
        }
    }

    pub fn message(&self) -> (r: String)
        ensures
            r@ == self.text(),
    {
        let mut message = String::new();
        match *self {
            Error::UnsupportedFormat(code) => {
                message.append("unsupported capture pixel format: ");
                match format_name(code) {
                    Some(name) => message.append(name.as_str()),
                    None => text::push_decimal(&mut message, code as u64),
                }
            },
            Error::WidthOverflow => message.append("capture width overflow"),
            Error::InvalidDimensions => message.append("invalid capture dimensions"),
            Error::InvalidStride => message.append("invalid capture stride"),
            Error::SizeOverflow => message.append("capture buffer size overflow"),
            Error::TooLarge => message.append("capture buffer exceeds 512 MiB"),
            Error::Truncated => message.append("truncated capture buffer"),
            Error::UnsupportedTransform => message.append("unsupported capture transform"),
            Error::ImageMismatch => message.append(
                "decoded image does not match the capture buffer",
            ),
            Error::RowsOutside { start, end } => {
                message.append("rows ");
                text::push_decimal(&mut message, start as u64);
                message.append("..");
                text::push_decimal(&mut message, end as u64);
                message.append(" are outside the capture buffer");
            },
            Error::OutsideOutput => message.append("selected region is outside its output"),
            Error::EmptyRegion => message.append("empty capture region"),
            Error::InvalidQuality => message.append("invalid JPEG quality"),
            Error::EmptyStream => message.append("empty stream image"),
            Error::InvalidWidthLimit => message.append("maximum width must be positive"),
            Error::JpegSize { width, height } => {
                message.append("Format error encoding Jpeg:\nInvalid image size (");
                text::push_decimal(&mut message, width as u64);
                message.append(" x ");
                text::push_decimal(&mut message, height as u64);
                message.append(
                    ") to encode as JPEG: width and height must be >= 1 and <= 65535",
                );
            },
            Error::PngWidth => message.append("Zero width not allowed"),
            Error::PngHeight => message.append("Zero height not allowed"),
            Error::IncorrectSize => message.append("incorrect Wayland buffer size"),
        }
        message
    }
}

/// Bytes of one pixel; zero for a format that captures cannot use.
pub open spec fn pixel_size(format: Format) -> int {
    match format {
        Format::Rgb888 | Format::Bgr888 => 3,
        Format::Rgb565 | Format::Bgr565 => 2,
        Format::Other(_) => 0,
        _ => 4,
    }
}

pub fn bytes_per_pixel(format: Format) -> (r: Option<u32>)
    ensures
        match r {
            Some(n) => n == pixel_size(format) && n > 0,
            None => format is Other,
        },
        r is None <==> format is Other,
{
    match format {
        Format::Rgb888 | Format::Bgr888 => Some(3),
        Format::Rgb565 | Format::Bgr565 => Some(2),
        Format::Other(_) => None,
        _ => Some(4),
    }
}

fn unsupported(format: Format) -> (r: Error)
    requires
        format is Other,
    ensures
        r == Error::UnsupportedFormat(format->Other_0),
{
    match format {
        Format::Other(code) => Error::UnsupportedFormat(code),
        _ => Error::UnsupportedFormat(0),
    }
}

/// The shape of a shared-memory buffer.
#[derive(Debug, Clone, Copy, PartialEq, Eq, Structural)]
pub struct BufferSpec {
    pub width: u32,
    pub height: u32,
    pub stride: u32,
    pub format: Format,
}

impl BufferSpec {
    /// The bytes the buffer spans, or why it cannot be captured into.
    pub open spec fn size(self) -> Result<usize, Error> {
        if let Format::Other(code) = self.format {
            Err(Error::UnsupportedFormat(code))
        } else if !(0 < self.width <= MAX_DIMENSION && 0 < self.height <= MAX_DIMENSION) {
            Err(Error::InvalidDimensions)
        } else if !(self.width * pixel_size(self.format) <= self.stride <= MAX_STRIDE) {
            Err(Error::InvalidStride)
        } else if self.stride * self.height > usize::MAX {
            Err(Error::SizeOverflow)
        } else if self.stride * self.height > MAX_BUFFER_BYTES {
            Err(Error::TooLarge)
        } else {
            Ok((self.stride * self.height) as usize)
        }
    }

    /// A buffer whose rows have no padding, or why there is none.
    pub open spec fn unpadded(width: u32, height: u32, format: Format) -> Result<BufferSpec, Error> {
        let stride = width * pixel_size(format);
        let spec = BufferSpec { width, height, stride: stride as u32, format };
        if let Format::Other(code) = format {
            Err(Error::UnsupportedFormat(code))
        } else if stride > u32::MAX {
            Err(Error::WidthOverflow)
        } else {
            match spec.size() {
                Ok(_) => Ok(spec),
                Err(error) => Err(error),
            }
        }
    }

    pub fn packed(width: u32, height: u32, format: Format) -> (r: Result<BufferSpec, Error>)
        ensures
            r == BufferSpec::unpadded(width, height, format),
    {
        let bpp: u32 = match bytes_per_pixel(format) {
            Some(bpp) => bpp,
            None => return Err(unsupported(format)),
        };
        let stride: u32 = match width.checked_mul(bpp) {
            Some(stride) => stride,
            None => return Err(Error::WidthOverflow),
        };
        let spec = BufferSpec { width, height, stride, format };
        match spec.byte_len() {
            Ok(_) => Ok(spec),
            Err(error) => Err(error),
        }
    }

    pub fn byte_len(self) -> (r: Result<usize, Error>)
        ensures
            r == self.size(),
    {
        let bpp: u32 = match bytes_per_pixel(self.format) {
            Some(bpp) => bpp,
            None => return Err(unsupported(self.format)),
        };
        if !(self.width > 0 && self.height > 0 && self.width <= MAX_DIMENSION && self.height
            <= MAX_DIMENSION) {
            return Err(Error::InvalidDimensions);
        }
        if !(self.stride >= self.width * bpp && self.stride <= MAX_STRIDE) {
            return Err(Error::InvalidStride);
        }
        let size: usize = match (self.stride as usize).checked_mul(self.height as usize) {
            Some(size) => size,
            None => return Err(Error::SizeOverflow),
        };
        if size > MAX_BUFFER_BYTES {
            return Err(Error::TooLarge);
        }
        Ok(size)
    }

    /// The bytes of the pixel in row `y`, column `x`.
    pub open spec fn stored_pixel(self, bytes: Seq<u8>, x: int, y: int) -> Seq<u8> {
        let at = y * self.stride + x * pixel_size(self.format);
        bytes.subrange(at, at + pixel_size(self.format))
    }
}

/// A valid buffer's pixels lie inside it, and its decoded image is small.
pub proof fn lemma_buffer_bounds(spec: BufferSpec, x: int, y: int)
    requires
        spec.size() is Ok,
        0 <= x < spec.width,
        0 <= y < spec.height,
    ensures
        0 <= y * spec.stride,
        0 <= x * pixel_size(spec.format),
        y * spec.stride + x * pixel_size(spec.format) + pixel_size(spec.format)
            <= spec.size()->Ok_0,
{
    let n = pixel_size(spec.format);
    let w = spec.width as int;
    let h = spec.height as int;
    let stride = spec.stride as int;
    assert(x * n + n <= w * n) by (nonlinear_arith)
        requires
            0 <= x < w,
            0 <= n,
    ;
    assert(y * stride + stride <= h * stride) by (nonlinear_arith)
        requires
            0 <= y < h,
            0 <= stride,
    ;
    assert(h * stride == stride * h) by (nonlinear_arith);
    assert(0 <= y * stride) by (nonlinear_arith)
        requires
            0 <= y,
            0 <= stride,
    ;
    assert(0 <= x * n) by (nonlinear_arith)
        requires
            0 <= x,
            0 <= n,
    ;
}

pub proof fn lemma_decoded_size(spec: BufferSpec)
    requires
        spec.size() is Ok,
    ensures
        spec.width * spec.height * 4 <= 0x4000_0000,
        spec.height * spec.width * 4 <= 0x4000_0000,
{
    let n = pixel_size(spec.format);
    let w = spec.width as int;
    let h = spec.height as int;
    let stride = spec.stride as int;
    assert(w * h * 2 <= stride * h) by (nonlinear_arith)
        requires
            w * n <= stride,
            2 <= n,
            0 <= w,
            0 <= h,
    ;
    assert(w * h == h * w) by (nonlinear_arith);
}

/// How decoding treats translucent pixels.
#[derive(Debug, Clone, Copy, PartialEq, Eq, Structural)]
pub enum AlphaMode {
    /// Straight (un-premultiplied) color and the source alpha. PNG screenshots
    /// need this.
    Straight,
    /// The premultiplied color over black with alpha 255: what the JPEG and
    /// H.264 paths composite for unscaled frames anyway (within one step),
    /// without dividing by alpha only to multiply it back. A PNG of such a
    /// frame is flattened.
    Opaque,
}

impl Default for AlphaMode {
    fn default() -> (r: AlphaMode)
        ensures
            r == AlphaMode::Straight,
    {
        AlphaMode::Straight
    }
}

/// The little-endian word of four bytes.
pub open spec fn word(p: Seq<u8>) -> int {
    p[0] + 0x100 * p[1] + 0x1_0000 * p[2] + 0x100_0000 * p[3]
}

/// The low 10 bits of a word, rounded to 8.
pub open spec fn ten_bits(v: int) -> u8 {
    ((v % 1024 * 255 + 511) / 1023) as u8
}

/// The low 2 bits of a word, scaled to 8.
pub open spec fn two_bits(v: int) -> u8 {
    (v % 4 * 85) as u8
}

/// The low 5 bits of a word, scaled to 8.
pub open spec fn five_bits(v: int) -> u8 {
    (v % 32 * 255 / 31) as u8
}

/// The low 6 bits of a word, scaled to 8.
pub open spec fn six_bits(v: int) -> u8 {
    (v % 64 * 255 / 63) as u8
}

/// The premultiplied color that a pixel stores. Formats without alpha are
/// opaque.
pub open spec fn stored(format: Format, p: Seq<u8>) -> Rgba {
    match format {
        Format::Argb8888 => Rgba { r: p[2], g: p[1], b: p[0], a: p[3] },
        Format::Xrgb8888 => Rgba { r: p[2], g: p[1], b: p[0], a: 255 },
        Format::Abgr8888 => Rgba { r: p[0], g: p[1], b: p[2], a: p[3] },
        Format::Xbgr8888 => Rgba { r: p[0], g: p[1], b: p[2], a: 255 },
        Format::Argb2101010 => Rgba {
            r: ten_bits(word(p) / 0x10_0000),
            g: ten_bits(word(p) / 0x400),
            b: ten_bits(word(p)),
            a: two_bits(word(p) / 0x4000_0000),
        },
        Format::Xrgb2101010 => Rgba {
            r: ten_bits(word(p) / 0x10_0000),
            g: ten_bits(word(p) / 0x400),
            b: ten_bits(word(p)),
            a: 255,
        },
        Format::Abgr2101010 => Rgba {
            r: ten_bits(word(p)),
            g: ten_bits(word(p) / 0x400),
            b: ten_bits(word(p) / 0x10_0000),
            a: two_bits(word(p) / 0x4000_0000),
        },
        Format::Xbgr2101010 => Rgba {
            r: ten_bits(word(p)),
            g: ten_bits(word(p) / 0x400),
            b: ten_bits(word(p) / 0x10_0000),
            a: 255,
        },
        Format::Rgb565 => {
            let v = p[0] + 0x100 * p[1];
            Rgba { r: five_bits(v / 0x800), g: six_bits(v / 0x20), b: five_bits(v), a: 255 }
        },
        Format::Bgr565 => {
            let v = p[0] + 0x100 * p[1];
            Rgba { r: five_bits(v), g: six_bits(v / 0x20), b: five_bits(v / 0x800), a: 255 }
        },
        Format::Rgb888 => Rgba { r: p[2], g: p[1], b: p[0], a: 255 },
        Format::Bgr888 => Rgba { r: p[0], g: p[1], b: p[2], a: 255 },
        Format::Other(_) => Rgba { r: 0, g: 0, b: 0, a: 0 },
    }
}

/// A premultiplied channel divided by its alpha, rounded to nearest.
pub open spec fn straight_channel(c: u8, a: u8) -> u8 {
    let v = (c * 255 + a / 2) / (a as int);
    if v > 255 {
        255
    } else {
        v as u8
    }
}

/// Straight alpha. Transparent and opaque pixels keep their color.
pub open spec fn straightened(p: Rgba) -> Rgba {
    if p.a == 0 || p.a == 255 {
        p
    } else {
        Rgba {
            r: straight_channel(p.r, p.a),
            g: straight_channel(p.g, p.a),
            b: straight_channel(p.b, p.a),
            a: p.a,
        }
    }
}

/// The premultiplied color over black. A color beyond its alpha is clamped.
pub open spec fn flattened(p: Rgba) -> Rgba {
    Rgba {
        r: if p.r <= p.a { p.r } else { p.a },
        g: if p.g <= p.a { p.g } else { p.a },
        b: if p.b <= p.a { p.b } else { p.a },
        a: 255,
    }
}

/// Whether a format's alpha bits mean anything.
pub open spec fn has_alpha(format: Format) -> bool {
    format is Argb8888 || format is Abgr8888 || format is Argb2101010 || format is Abgr2101010
}

/// The pixel that decoding makes of stored bytes.
pub open spec fn converted(format: Format, alpha: AlphaMode, p: Seq<u8>) -> Rgba {
    if !has_alpha(format) {
        stored(format, p)
    } else if alpha is Straight {
        straightened(stored(format, p))
    } else {
        flattened(stored(format, p))
    }
}

fn argb8888(p: [u8; 4]) -> (r: Rgba)
    ensures
        r == stored(Format::Argb8888, p@),
{
    Rgba { r: p[2], g: p[1], b: p[0], a: p[3] }
}

fn xrgb8888(p: [u8; 4]) -> (r: Rgba)
    ensures
        r == stored(Format::Xrgb8888, p@),
{
    Rgba { a: 255, ..argb8888(p) }
}

fn abgr8888(p: [u8; 4]) -> (r: Rgba)
    ensures
        r == stored(Format::Abgr8888, p@),
{
    Rgba { r: p[0], g: p[1], b: p[2], a: p[3] }
}

fn xbgr8888(p: [u8; 4]) -> (r: Rgba)
    ensures
        r == stored(Format::Xbgr8888, p@),
{
    Rgba { a: 255, ..abgr8888(p) }
}

fn u32_of(p: [u8; 4]) -> (r: u32)
    ensures
        r == word(p@),
{
    p[0] as u32 + 0x100 * p[1] as u32 + 0x1_0000 * p[2] as u32 + 0x100_0000 * p[3] as u32
}

fn argb2101010(p: [u8; 4]) -> (r: Rgba)
    ensures
        r == stored(Format::Argb2101010, p@),
{
    let v = u32_of(p);
    Rgba { r: ten(v / 0x10_0000), g: ten(v / 0x400), b: ten(v), a: two(v / 0x4000_0000) }
}

fn xrgb2101010(p: [u8; 4]) -> (r: Rgba)
    ensures
        r == stored(Format::Xrgb2101010, p@),
{
    Rgba { a: 255, ..argb2101010(p) }
}

fn abgr2101010(p: [u8; 4]) -> (r: Rgba)
    ensures
        r == stored(Format::Abgr2101010, p@),
{
    let v = u32_of(p);
    Rgba { r: ten(v), g: ten(v / 0x400), b: ten(v / 0x10_0000), a: two(v / 0x4000_0000) }
}

fn xbgr2101010(p: [u8; 4]) -> (r: Rgba)
    ensures
        r == stored(Format::Xbgr2101010, p@),
{
    Rgba { a: 255, ..abgr2101010(p) }
}

fn ten(v: u32) -> (r: u8)
    ensures
        r == ten_bits(v as int),
{
    ((v % 1024 * 255 + 511) / 1023) as u8
}

fn two(v: u32) -> (r: u8)
    ensures
        r == two_bits(v as int),
{
    (v % 4 * 85) as u8
}

fn rgb565(p: [u8; 2]) -> (r: Rgba)
    ensures
        r == stored(Format::Rgb565, p@),
{
    let v: u32 = p[0] as u32 + 0x100 * p[1] as u32;
    Rgba {
        r: (v / 0x800 % 32 * 255 / 31) as u8,
        g: (v / 0x20 % 64 * 255 / 63) as u8,
        b: (v % 32 * 255 / 31) as u8,
        a: 255,
    }
}

fn bgr565(p: [u8; 2]) -> (r: Rgba)
    ensures
        r == stored(Format::Bgr565, p@),
{
    let rgb = rgb565(p);
    Rgba { r: rgb.b, g: rgb.g, b: rgb.r, a: rgb.a }
}

fn rgb888(p: [u8; 3]) -> (r: Rgba)
    ensures
        r == stored(Format::Rgb888, p@),
{
    Rgba { r: p[2], g: p[1], b: p[0], a: 255 }
}

fn bgr888(p: [u8; 3]) -> (r: Rgba)
    ensures
        r == stored(Format::Bgr888, p@),
{
    Rgba { r: p[0], g: p[1], b: p[2], a: 255 }
}

fn straight(c: u8, a: u8) -> (r: u8)
    requires
        a > 0,
    ensures
        r == straight_channel(c, a),
{
    let v: u32 = (c as u32 * 255 + a as u32 / 2) / a as u32;
    if v > 255 {
        255
    } else {
        v as u8
    }
}

/// Straight alpha, rounded to nearest.
pub fn unpremultiply(p: Rgba) -> (r: Rgba)
    ensures
        r == straightened(p),
{
    if p.a == 0 || p.a == 255 {
        return p;
    }
    Rgba { r: straight(p.r, p.a), g: straight(p.g, p.a), b: straight(p.b, p.a), a: p.a }
}

/// The premultiplied color over black. Clamping to alpha matches compositing
/// the clamped straight color when invalid color exceeds alpha.
pub fn over_black(p: Rgba) -> (r: Rgba)
    ensures
        r == flattened(p),
{
    Rgba {
        r: if p.r <= p.a { p.r } else { p.a },
        g: if p.g <= p.a { p.g } else { p.a },
        b: if p.b <= p.a { p.b } else { p.a },
        a: 255,
    }
}

fn with_alpha(p: Rgba, alpha: AlphaMode) -> (r: Rgba)
    ensures
        r == if alpha is Straight { straightened(p) } else { flattened(p) },
{
    match alpha {
        AlphaMode::Straight => unpremultiply(p),
        AlphaMode::Opaque => over_black(p),
    }
}

/// Converts the pixel stored at byte `at`.
pub fn convert(format: Format, alpha: AlphaMode, bytes: &[u8], at: usize) -> (r: Rgba)
    requires
        !(format is Other),
        at + pixel_size(format) <= bytes@.len(),
    ensures
        r == converted(format, alpha, bytes@.subrange(at as int, at + pixel_size(format))),
{
    let ghost p = bytes@.subrange(at as int, at + pixel_size(format));
    if matches!(format, Format::Rgb565 | Format::Bgr565) {
        let pair = [bytes[at], bytes[at + 1]];
        assert(pair@ =~= p);
        return if matches!(format, Format::Rgb565) {
            rgb565(pair)
        } else {
            bgr565(pair)
        };
    }
    if matches!(format, Format::Rgb888 | Format::Bgr888) {
        let triple = [bytes[at], bytes[at + 1], bytes[at + 2]];
        assert(triple@ =~= p);
        return if matches!(format, Format::Rgb888) {
            rgb888(triple)
        } else {
            bgr888(triple)
        };
    }
    let quad = [bytes[at], bytes[at + 1], bytes[at + 2], bytes[at + 3]];
    assert(quad@ =~= p);
    match format {
        Format::Xrgb8888 => xrgb8888(quad),
        Format::Xbgr8888 => xbgr8888(quad),
        Format::Xrgb2101010 => xrgb2101010(quad),
        Format::Xbgr2101010 => xbgr2101010(quad),
        Format::Argb8888 => with_alpha(argb8888(quad), alpha),
        Format::Abgr8888 => with_alpha(abgr8888(quad), alpha),
        Format::Argb2101010 => with_alpha(argb2101010(quad), alpha),
        _ => with_alpha(abgr2101010(quad), alpha),
    }
}

/// Eight-bit formats are named from the highest byte of the little-endian
/// number down: each channel is read from the byte that its letter names.
pub proof fn eight_bit_channels_stand_as_named(format: Format, p: Seq<u8>)
    requires
        p.len() == pixel_size(format),
    ensures
        ({
            let s = stored(format, p);
            let n = if p.len() == 3 { p[0] + 0x100 * p[1] + 0x1_0000 * p[2] } else { word(p) };
            let rgb = s.r * 0x1_0000 + s.g * 0x100 + s.b;
            let bgr = s.b * 0x1_0000 + s.g * 0x100 + s.r;
            match format {
                Format::Argb8888 => n == s.a * 0x100_0000 + rgb,
                Format::Xrgb8888 => n % 0x100_0000 == rgb && s.a == 255,
                Format::Abgr8888 => n == s.a * 0x100_0000 + bgr,
                Format::Xbgr8888 => n % 0x100_0000 == bgr && s.a == 255,
                Format::Rgb888 => n == rgb && s.a == 255,
                Format::Bgr888 => n == bgr && s.a == 255,
                _ => true,
            }
        }),
{
}

/// A channel of `bits` values is shown as the nearest of 256, the ends exactly.
pub proof fn narrow_channels_are_scaled(v: int)
    requires
        0 <= v,
    ensures
        -511 <= 1023 * ten_bits(v) - 255 * (v % 1024) <= 511,
        ten_bits(0) == 0 && ten_bits(1023) == 255,
        3 * two_bits(v) == 255 * (v % 4),
        31 * five_bits(v) <= 255 * (v % 32) < 31 * five_bits(v) + 31,
        63 * six_bits(v) <= 255 * (v % 64) < 63 * six_bits(v) + 63,
{
    let a = v % 1024 * 255 + 511;
    assert(0 <= a / 1023 <= 255);
    assert(0 <= v % 32 * 255 / 31 <= 255);
    assert(0 <= v % 64 * 255 / 63 <= 255);
}

/// Removing the alpha from a color is undone by putting it back, to within half
/// a step of the alpha. Clear and opaque colors stay as they are.
pub proof fn straight_colors_are_divided_by_their_alpha(p: Rgba)
    requires
        p.r <= p.a,
        p.g <= p.a,
        p.b <= p.a,
    ensures
        ({
            let s = straightened(p);
            &&& s.a == p.a
            &&& p.a == 0 || p.a == 255 ==> s == p
            &&& 0 < p.a ==> -p.a <= 2 * (s.r * p.a - 255 * p.r) <= p.a
            &&& 0 < p.a ==> -p.a <= 2 * (s.g * p.a - 255 * p.g) <= p.a
            &&& 0 < p.a ==> -p.a <= 2 * (s.b * p.a - 255 * p.b) <= p.a
        }),
{
    if 0 < p.a < 255 {
        lemma_straight_step(p.r, p.a);
        lemma_straight_step(p.g, p.a);
        lemma_straight_step(p.b, p.a);
    }
    if p.a == 255 {
        assert(p.r * 255 == 255 * p.r);
    }
}

proof fn lemma_straight_step(c: u8, a: u8)
    requires
        c <= a,
        0 < a,
    ensures
        -a <= 2 * (straight_channel(c, a) * a - 255 * c) <= a,
{
    let n = c * 255 + a / 2;
    let d = a as int;
    let q = n / d;
    assert(d * q <= n < d * q + d && q <= 255) by (nonlinear_arith)
        requires
            q == n / d,
            n == c * 255 + d / 2,
            0 <= c <= d,
            0 < d,
    ;
    assert(d * q == q * d) by (nonlinear_arith);
}

} // verus!
