//! Image files and resampling, done by the `image` crate.

use vstd::prelude::*;

use crate::raster;
use crate::raster::{Rgba, RgbaImage};
use crate::text;

verus! {

/// The largest side that resampling takes: up to it, `f32` sampling positions
/// stay within half a pixel of the true ones.
pub const MAX_SCALED: u32 = 1_048_576;

/// The largest side of a JPEG image.
pub const MAX_JPEG_SIDE: u32 = 65535;

/// The result of resampling RGBA pixels with the triangle filter.
pub uninterp spec fn resampled(
    rgba: Seq<u8>,
    width: int,
    height: int,
    new_width: int,
    new_height: int,
) -> Seq<u8>;

/// The bytes of the JPEG file of RGB pixels.
pub uninterp spec fn jpeg_file(rgb: Seq<u8>, width: int, height: int, quality: int) -> Seq<u8>;

/// The bytes of the PNG file of RGBA pixels.
pub uninterp spec fn png_file(rgba: Seq<u8>, width: int, height: int) -> Seq<u8>;

/// A translucent pixel laid over another.
pub uninterp spec fn blended(bottom: Seq<u8>, top: Seq<u8>) -> Seq<u8>;

/// What is said of an image that a JPEG file cannot hold.
pub open spec fn jpeg_refusal(width: u32, height: u32) -> Seq<char> {
    "Format error encoding Jpeg:\nInvalid image size ("@ + text::decimal(width as nat) + " x "@
        + text::decimal(height as nat)
        + ") to encode as JPEG: width and height must be >= 1 and <= 65535"@
}

/// What is said of an image of that width, one of whose sides is zero.
pub open spec fn png_refusal(width: u32) -> Seq<char> {
    if width == 0 {
        "Zero width not allowed"@
    } else {
        "Zero height not allowed"@
    }
}

/// RGBA bytes at another size: copied when it is the same size.
pub open spec fn scaled(
    rgba: Seq<u8>,
    width: int,
    height: int,
    new_width: int,
    new_height: int,
) -> Seq<u8> {
    if width == new_width && height == new_height {
        rgba
    } else {
        resampled(rgba, width, height, new_width, new_height)
    }
}

/// Whether the image already has the new size.
pub open spec fn same_size(image: RgbaImage, new_width: u32, new_height: u32) -> bool {
    image.width == new_width && image.height == new_height
}

/// Whether an image of that size can be a JPEG file.
pub open spec fn jpeg_sized(width: u32, height: u32) -> bool {
    1 <= width <= MAX_JPEG_SIDE && 1 <= height <= MAX_JPEG_SIDE
}

/// Resampling fits the machine: neither side is too long for its `f32`
/// arithmetic, and its working image of four floats a pixel can be allocated.
pub open spec fn can_scale(width: int, height: int, new_width: int, new_height: int) -> bool {
    &&& 0 <= width <= MAX_SCALED
    &&& 0 <= height <= MAX_SCALED
    &&& 0 <= new_width <= MAX_SCALED
    &&& 0 <= new_height <= MAX_SCALED
    &&& width * new_height * 16 <= isize::MAX
    &&& new_width * new_height * 4 <= isize::MAX
}

/// Whether resampling fits the machine.
pub fn fits_scaling(width: u32, height: u32, new_width: u32, new_height: u32) -> (r: bool)
    ensures
        r == can_scale(width as int, height as int, new_width as int, new_height as int),
{
    if width > MAX_SCALED || height > MAX_SCALED || new_width > MAX_SCALED || new_height
        > MAX_SCALED {
        return false;
    }
    let (w, n, m): (u64, u64, u64) = (width as u64, new_width as u64, new_height as u64);
    assert(w * m <= 1_048_576 * 1_048_576) by (nonlinear_arith)
        requires
            w <= 1_048_576,
            m <= 1_048_576,
    ;
    assert(n * m <= 1_048_576 * 1_048_576) by (nonlinear_arith)
        requires
            n <= 1_048_576,
            m <= 1_048_576,
    ;
    w * m * 16 <= isize::MAX as u64 && n * m * 4 <= isize::MAX as u64
}

/// One pixel laid over another: a transparent one leaves it, an opaque one
/// replaces it.
pub open spec fn laid_over(bottom: Rgba, top: Rgba) -> Rgba {
    if top.a == 0 {
        bottom
    } else if top.a == 255 {
        top
    } else {
        raster::rgba_at(blended(bottom.bytes(), top.bytes()), 0)
    }
}

/// RGBA bytes without their alpha.
pub open spec fn without_alpha(rgba: Seq<u8>) -> Seq<u8> {
    Seq::new(rgba.len() / 4 * 3, |i: int| rgba[i / 3 * 4 + i % 3])
}

/// `image::imageops::resize` with `FilterType::Triangle`. It copies an image
/// that already has the new size, makes a transparent one of an empty image,
/// and otherwise gives what `resampled` names.
#[verifier::external_body]
pub(crate) fn resize(image: &RgbaImage, new_width: u32, new_height: u32) -> (r: RgbaImage)
    requires
        image.wf(),
        can_scale(image.width as int, image.height as int, new_width as int, new_height as int),
    ensures
        r.wf(),
        r.width == new_width,
        r.height == new_height,
        same_size(*image, new_width, new_height) ==> r.data@ == image.data@,
        !same_size(*image, new_width, new_height) ==> r.data@ == resampled(
            image.data@,
            image.width as int,
            image.height as int,
            new_width as int,
            new_height as int,
        ),
        image.data@.len() == 0 ==> r.data@ == Seq::new(r.data@.len(), |i: int| 0u8),
{
    let pixels = image.data.as_slice();
    let source: image::ImageBuffer<image::Rgba<u8>, &[u8]> =
        image::ImageBuffer::from_raw(image.width, image.height, pixels).unwrap();
    let filter = image::imageops::FilterType::Triangle;
    let made = image::imageops::resize(&source, new_width, new_height, filter);
    RgbaImage { width: new_width, height: new_height, data: made.into_raw() }
}

/// `image::imageops::overlay`: lays `top` on `bottom` with its corner at
/// (`x`, `y`), leaving out what lies beyond `bottom`. `blended` names the
/// pixel that translucency makes; transparent and opaque pixels of `top` leave
/// and replace the one below.
#[verifier::external_body]
pub(crate) fn overlay(bottom: &mut RgbaImage, top: &RgbaImage, x: i64, y: i64)
    requires
        old(bottom).wf(),
        top.wf(),
    ensures
        final(bottom).wf(),
        final(bottom).width == old(bottom).width,
        final(bottom).height == old(bottom).height,
        forall|i: int, j: int|
            final(bottom).has(i, j) ==> #[trigger] final(bottom).pixel(i, j) == if !top.has(
                i - x,
                j - y,
            ) || top.pixel(i - x, j - y).a == 0 {
                old(bottom).pixel(i, j)
            } else if top.pixel(i - x, j - y).a == 255 {
                top.pixel(i - x, j - y)
            } else {
                raster::rgba_at(
                    blended(old(bottom).pixel(i, j).bytes(), top.pixel(i - x, j - y).bytes()),
                    0,
                )
            },
{
    let data = std::mem::take(&mut bottom.data);
    let mut canvas = image::RgbaImage::from_raw(bottom.width, bottom.height, data).unwrap();
    let pixels = top.data.as_slice();
    let tile: image::ImageBuffer<image::Rgba<u8>, &[u8]> =
        image::ImageBuffer::from_raw(top.width, top.height, pixels).unwrap();
    image::imageops::overlay(&mut canvas, &tile, x, y);
    bottom.data = canvas.into_raw();
}

/// `image::codecs::jpeg::JpegEncoder::encode_image` on RGB pixels. Written to
/// memory it fails exactly when a side is zero or beyond 65535, with an error
/// that names the size; `jpeg_file` names the bytes.
#[verifier::external_body]
pub(crate) fn encode_jpeg_rgb(rgb: &Vec<u8>, width: u32, height: u32, quality: u8) -> (r: Result<
    Vec<u8>,
    String,
>)
    requires
        rgb@.len() == width * height * 3,
    ensures
        r is Ok <==> jpeg_sized(width, height),
        r is Ok ==> r->Ok_0@ == jpeg_file(rgb@, width as int, height as int, quality as int),
        r is Err ==> r->Err_0@ == jpeg_refusal(width, height),
{
    let source: image::ImageBuffer<image::Rgb<u8>, &[u8]> =
        image::ImageBuffer::from_raw(width, height, rgb.as_slice()).unwrap();
    let mut bytes = Vec::new();
    let mut encoder = image::codecs::jpeg::JpegEncoder::new_with_quality(&mut bytes, quality);
    encoder.encode_image(&source).map_err(|error| error.to_string())?;
    Ok(bytes)
}

/// `image::codecs::jpeg::JpegEncoder::encode_image` on RGBA pixels. The
/// encoder reads each pixel's color and ignores its alpha, so the file is that
/// of the same pixels without alpha. It fails on the same sizes as on RGB
/// pixels, with the same errors.
#[verifier::external_body]
pub(crate) fn encode_jpeg_rgba(image: &RgbaImage, quality: u8) -> (r: Result<Vec<u8>, String>)
    requires
        image.wf(),
    ensures
        r is Ok <==> jpeg_sized(image.width, image.height),
        r is Ok ==> r->Ok_0@ == jpeg_file(
            without_alpha(image.data@),
            image.width as int,
            image.height as int,
            quality as int,
        ),
        r is Err ==> r->Err_0@ == jpeg_refusal(image.width, image.height),
{
    let pixels = image.data.as_slice();
    let source: image::ImageBuffer<image::Rgba<u8>, &[u8]> =
        image::ImageBuffer::from_raw(image.width, image.height, pixels).unwrap();
    let mut bytes = Vec::new();
    let mut encoder = image::codecs::jpeg::JpegEncoder::new_with_quality(&mut bytes, quality);
    encoder.encode_image(&source).map_err(|error| error.to_string())?;
    Ok(bytes)
}

/// `image::codecs::png::PngEncoder::write_image` of RGBA pixels. Written to
/// memory it fails exactly when a side is zero, with an error that names the
/// side, the width first; `png_file` names the bytes.
#[verifier::external_body]
pub(crate) fn encode_png(image: &RgbaImage) -> (r: Result<Vec<u8>, String>)
    requires
        image.wf(),
    ensures
        r is Ok <==> image.data@.len() > 0,
        r is Ok ==> r->Ok_0@ == png_file(image.data@, image.width as int, image.height as int),
        r is Err ==> r->Err_0@ == png_refusal(image.width),
{
    let mut bytes = Vec::new();
    let encoder = image::codecs::png::PngEncoder::new(&mut bytes);
    let color = image::ExtendedColorType::Rgba8;
    image::ImageEncoder::write_image(encoder, &image.data, image.width, image.height, color)
        .map_err(|error| error.to_string())?;
    Ok(bytes)
}

} // verus!
