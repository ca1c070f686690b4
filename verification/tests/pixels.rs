use image::{imageops, Rgba, RgbaImage};
use omabeam::compose::compose;
use omabeam::decode::{decode, decode_into, decode_rows_into};
use omabeam::double;
use omabeam::frame::{
    crop, decode_rect, demo_frame, is_opaque, CapturedFrame, PixelMode, RgbImage,
};
use omabeam::pixels::{
    bytes_per_pixel, over_black, unpremultiply, AlphaMode, BufferSpec, Error, Format, Transform,
};
use omabeam::raster::RgbaImage as Raster;
use omabeam::rect::Rect;

fn picture(image: &Raster) -> RgbaImage {
    RgbaImage::from_raw(image.width, image.height, image.data.clone()).unwrap()
}

fn raster(image: &RgbaImage) -> Raster {
    Raster::from_raw(image.width(), image.height(), image.as_raw().clone()).unwrap()
}

fn rgb(image: &RgbImage) -> image::RgbImage {
    image::RgbImage::from_raw(image.width, image.height, image.data.clone()).unwrap()
}

fn captured(image: RgbaImage, logical_width: u32, logical_height: u32) -> CapturedFrame {
    CapturedFrame {
        image: raster(&image),
        logical_width,
        logical_height,
    }
}

// Pixel by pixel models that the decoded images and every JPEG must match.

fn plain_decode(
    bytes: &[u8],
    spec: BufferSpec,
    inverted: bool,
    transform: Transform,
) -> Result<RgbaImage, Error> {
    if bytes.len() < spec.byte_len()? {
        return Err(Error::Truncated);
    }
    let bpp = bytes_per_pixel(spec.format).unwrap() as usize;
    let mut image = RgbaImage::new(spec.width, spec.height);
    for y in 0..spec.height {
        let source_y = if inverted { spec.height - 1 - y } else { y };
        let row = &bytes[source_y as usize * spec.stride as usize..];
        for x in 0..spec.width {
            let p = &row[x as usize * bpp..][..bpp];
            let (mut r, mut g, mut b, a) = match spec.format {
                Format::Argb8888 | Format::Xrgb8888 | Format::Abgr8888 | Format::Xbgr8888 => {
                    let v = u32::from_ne_bytes(p.try_into().unwrap());
                    let rgb = ((v >> 16) as u8, (v >> 8) as u8, v as u8);
                    let (r, g, b) =
                        if matches!(spec.format, Format::Abgr8888 | Format::Xbgr8888) {
                            (rgb.2, rgb.1, rgb.0)
                        } else {
                            rgb
                        };
                    (
                        r,
                        g,
                        b,
                        if matches!(spec.format, Format::Argb8888 | Format::Abgr8888) {
                            (v >> 24) as u8
                        } else {
                            255
                        },
                    )
                }
                Format::Xrgb2101010
                | Format::Argb2101010
                | Format::Xbgr2101010
                | Format::Abgr2101010 => {
                    let v = u32::from_ne_bytes(p.try_into().unwrap());
                    let ten =
                        |shift: u32| ((((v >> shift) & 1023u32) * 255 + 511) / 1023) as u8;
                    let (r, b) =
                        if matches!(spec.format, Format::Xbgr2101010 | Format::Abgr2101010) {
                            (ten(0), ten(20))
                        } else {
                            (ten(20), ten(0))
                        };
                    (
                        r,
                        ten(10),
                        b,
                        if matches!(spec.format, Format::Argb2101010 | Format::Abgr2101010) {
                            ((v >> 30) * 85) as u8
                        } else {
                            255
                        },
                    )
                }
                Format::Rgb565 | Format::Bgr565 => {
                    let v = u16::from_ne_bytes(p.try_into().unwrap());
                    let r = (((v >> 11) & 31) * 255 / 31) as u8;
                    let g = (((v >> 5) & 63) * 255 / 63) as u8;
                    let b = ((v & 31) * 255 / 31) as u8;
                    if spec.format == Format::Bgr565 {
                        (b, g, r, 255)
                    } else {
                        (r, g, b, 255)
                    }
                }
                Format::Rgb888 | Format::Bgr888 => {
                    let reverse =
                        (spec.format == Format::Rgb888) == (u16::from_ne_bytes([1, 0]) == 1);
                    if reverse {
                        (p[2], p[1], p[0], 255)
                    } else {
                        (p[0], p[1], p[2], 255)
                    }
                }
                _ => panic!("unsupported capture pixel format"),
            };
            if a > 0 && a < 255 {
                let straight = |v: u8| {
                    ((u32::from(v) * 255 + u32::from(a) / 2) / u32::from(a)).min(255) as u8
                };
                (r, g, b) = (straight(r), straight(g), straight(b));
            }
            image.put_pixel(x, y, Rgba([r, g, b, a]));
        }
    }
    let rotated = match transform {
        Transform::Normal | Transform::Flipped => image,
        Transform::_90 | Transform::Flipped90 => imageops::rotate90(&image),
        Transform::_180 | Transform::Flipped180 => imageops::rotate180(&image),
        Transform::_270 | Transform::Flipped270 => imageops::rotate270(&image),
        _ => panic!("unsupported capture transform"),
    };
    Ok(
        if matches!(
            transform,
            Transform::Flipped
                | Transform::Flipped90
                | Transform::Flipped180
                | Transform::Flipped270
        ) {
            imageops::flip_horizontal(&rotated)
        } else {
            rotated
        },
    )
}

fn plain_stream_rgb(
    frame: &CapturedFrame,
    max_width: Option<u32>,
    mode: PixelMode,
) -> Result<image::RgbImage, Error> {
    let (width, height) = frame.stream_dimensions(max_width, mode)?;
    let full = picture(&frame.image);
    let image = if full.dimensions() == (width, height) {
        full
    } else {
        imageops::resize(&full, width, height, imageops::FilterType::Triangle)
    };
    let rgb = image::RgbImage::from_fn(image.width(), image.height(), |x, y| {
        let p = image.get_pixel(x, y).0;
        image::Rgb([
            ((p[0] as u16 * p[3] as u16) / 255) as u8,
            ((p[1] as u16 * p[3] as u16) / 255) as u8,
            ((p[2] as u16 * p[3] as u16) / 255) as u8,
        ])
    });
    Ok(rgb)
}

fn plain_jpeg(
    frame: &CapturedFrame,
    quality: u8,
    max_width: Option<u32>,
    mode: PixelMode,
) -> Result<(Vec<u8>, u32, u32), Error> {
    assert!((1..=95).contains(&quality));
    let rgb = plain_stream_rgb(frame, max_width, mode)?;
    let (width, height) = rgb.dimensions();
    let mut bytes = Vec::new();
    image::codecs::jpeg::JpegEncoder::new_with_quality(&mut bytes, quality)
        .encode_image(&rgb)
        .unwrap();
    Ok((bytes, width, height))
}

const FORMATS: [Format; 12] = [
    Format::Argb8888,
    Format::Xrgb8888,
    Format::Abgr8888,
    Format::Xbgr8888,
    Format::Xrgb2101010,
    Format::Argb2101010,
    Format::Xbgr2101010,
    Format::Abgr2101010,
    Format::Rgb888,
    Format::Bgr888,
    Format::Rgb565,
    Format::Bgr565,
];
const TRANSFORMS: [Transform; 8] = [
    Transform::Normal,
    Transform::_90,
    Transform::_180,
    Transform::_270,
    Transform::Flipped,
    Transform::Flipped90,
    Transform::Flipped180,
    Transform::Flipped270,
];
/// Transparent, the rounding extremes, half, and opaque.
const ALPHAS: [u8; 5] = [0, 1, 127, 254, 255];

/// Deterministic xorshift bytes, so padding and ignored bits are not zero.
fn noise(seed: u64, len: usize) -> Vec<u8> {
    let mut state = seed.wrapping_mul(0x9e37_79b9_7f4a_7c15) | 1;
    (0..len)
        .map(|_| {
            state ^= state << 13;
            state ^= state >> 7;
            state ^= state << 17;
            (state >> 32) as u8
        })
        .collect()
}

/// Random colors and padding; alpha cycles through ALPHAS (all four
/// values for 2-bit alpha).
fn buffer(
    format: Format,
    width: u32,
    height: u32,
    padding: u32,
    seed: u64,
) -> (Vec<u8>, BufferSpec) {
    let bpp = bytes_per_pixel(format).unwrap();
    let spec = BufferSpec {
        width,
        height,
        stride: width * bpp + padding,
        format,
    };
    let mut bytes = noise(seed, spec.byte_len().unwrap());
    for y in 0..height {
        for x in 0..width {
            let i = (y * width + x) as usize;
            let (keep, alpha) = match format {
                Format::Argb8888 | Format::Abgr8888 => {
                    (0x00ff_ffff, u32::from(ALPHAS[i % ALPHAS.len()]) << 24)
                }
                Format::Argb2101010 | Format::Abgr2101010 => {
                    (0x3fff_ffff, (i as u32 % 4) << 30)
                }
                _ => continue,
            };
            let at = (y * spec.stride + x * bpp) as usize;
            let pixel = &mut bytes[at..at + 4];
            let v = u32::from_ne_bytes(pixel.try_into().unwrap()) & keep | alpha;
            pixel.copy_from_slice(&v.to_ne_bytes());
        }
    }
    (bytes, spec)
}

/// Every channel value against every alpha a format can express (a spread
/// for 24-bit color), 256 pixels per row.
fn value_sweep(format: Format) -> (Vec<u8>, BufferSpec) {
    let bytes: Vec<u8> = match format {
        Format::Argb8888 | Format::Xrgb8888 | Format::Abgr8888 | Format::Xbgr8888 => (0..1u32
            << 16)
            .flat_map(|i| {
                let (c, a) = (i & 255, i >> 8);
                (a << 24 | c << 16 | (255 - c) << 8 | (c ^ 0x5a)).to_ne_bytes()
            })
            .collect(),
        Format::Rgb565 | Format::Bgr565 => (0..=u16::MAX).flat_map(u16::to_ne_bytes).collect(),
        Format::Rgb888 | Format::Bgr888 => (0..1u32 << 16)
            .flat_map(|i| [i as u8, (i >> 8) as u8, (i as u8).wrapping_mul(37)])
            .collect(),
        _ => (0..1u32 << 12)
            .flat_map(|i| {
                let (c, a) = (i & 1023, i >> 10);
                (a << 30 | c << 20 | (1023 - c) << 10 | (c ^ 0x155)).to_ne_bytes()
            })
            .collect(),
    };
    let row = 256 * bytes_per_pixel(format).unwrap() as usize;
    let spec = BufferSpec::packed(256, (bytes.len() / row) as u32, format).unwrap();
    (bytes, spec)
}

/// The same bits with alpha ignored: the stored, premultiplied color.
fn color_only(format: Format) -> Format {
    match format {
        Format::Argb8888 => Format::Xrgb8888,
        Format::Abgr8888 => Format::Xbgr8888,
        Format::Argb2101010 => Format::Xrgb2101010,
        Format::Abgr2101010 => Format::Xbgr2101010,
        other => other,
    }
}

fn decoded(
    bytes: &[u8],
    spec: BufferSpec,
    inverted: bool,
    transform: Transform,
    alpha: AlphaMode,
) -> RgbaImage {
    let mut image = Raster::new(0, 0);
    decode_into(bytes, spec, inverted, transform, alpha, &mut image).unwrap();
    picture(&image)
}

fn assert_same(actual: &RgbaImage, expected: &RgbaImage, context: &str) {
    assert_eq!(actual.dimensions(), expected.dimensions(), "{context}");
    let (w, _) = actual.dimensions();
    let diff = actual
        .pixels()
        .zip(expected.pixels())
        .position(|(a, e)| a != e);
    if let Some(i) = diff {
        let (x, y) = (i as u32 % w, i as u32 / w);
        panic!(
            "{context}: pixel ({x}, {y}) is {:?}, expected {:?}",
            actual.get_pixel(x, y),
            expected.get_pixel(x, y)
        );
    }
}

#[test]
fn native_streams_keep_hidpi_detail_and_width_limits_use_the_selected_grid() {
    // Include fractional scaling and portrait dimensions. The encoded
    // dimensions must agree with the decoded JPEG, not just metadata.
    for (width, height, logical_width, logical_height) in [
        (640, 360, 320, 180),
        (641, 361, 427, 241),
        (360, 640, 180, 320),
    ] {
        let frame = captured(
            RgbaImage::from_fn(width, height, |x, _| {
                let gray = if x % 2 == 0 { 0 } else { 255 };
                Rgba([gray, gray, gray, 255])
            }),
            logical_width,
            logical_height,
        );
        for mode in [PixelMode::Logical, PixelMode::Native] {
            let (base_w, base_h) = match mode {
                PixelMode::Logical => (logical_width, logical_height),
                PixelMode::Native => (width, height),
            };
            for limit in [None, Some(1), Some(480), Some(1000)] {
                let (bytes, w, h) = frame.jpeg_with_mode(95, limit, mode).unwrap();
                let decoded = image::load_from_memory(&bytes).unwrap().to_rgb8();
                assert_eq!(decoded.dimensions(), (w, h));
                assert_eq!(w, limit.map_or(base_w, |cap| cap.min(base_w)));
                assert_eq!(h, (base_h * w / base_w).max(1));
                if mode == PixelMode::Native && limit.is_none() {
                    // One-pixel lines survive in native mode.
                    assert!(decoded.get_pixel(0, 0)[0] < 20);
                    assert!(decoded.get_pixel(1, 0)[0] > 235);
                }
            }
        }
        assert_eq!(
            image::load_from_memory(&frame.png().unwrap())
                .unwrap()
                .width(),
            width
        );
    }
}

#[test]
fn jpeg_width_limit_preserves_aspect_and_decodes_at_quality_extremes() {
    let frame = demo_frame(0);
    for width in [1, 17, 320, 1000] {
        for quality in [1, 55, 95] {
            let (bytes, w, h) = frame.jpeg_scaled(quality, Some(width)).unwrap();
            let decoded = image::load_from_memory(&bytes).unwrap();
            assert_eq!((decoded.width(), decoded.height()), (w, h));
            assert_eq!(w, width.min(640));
            assert_eq!(h, (360 * w / 640).max(1));
        }
    }
    assert!(frame.jpeg_scaled(0, None).is_err());
    assert!(frame.jpeg_scaled(55, Some(0)).is_err());
}

#[test]
fn ordinary_frames_fit_a_stream() {
    let mut frame = demo_frame(0);
    assert!(frame.fits_stream(None, PixelMode::Native));
    assert!(frame.fits_stream(Some(320), PixelMode::Logical));
    frame.logical_width = 2_000_000;
    assert!(!frame.fits_stream(None, PixelMode::Logical));
    assert!(frame.fits_stream(Some(1920), PixelMode::Logical));
}

#[test]
fn handles_stride_channel_order_and_inversion() {
    let spec = BufferSpec {
        width: 1,
        height: 2,
        stride: 8,
        format: Format::Xrgb8888,
    };
    let bytes: Vec<_> = [0x00ff0000u32, 0xdeadbeef, 0x000000ff, 0xdeadbeef]
        .into_iter()
        .flat_map(u32::to_ne_bytes)
        .collect();
    let image = picture(&decode(&bytes, spec, true, Transform::Normal).unwrap());
    assert_eq!(image.get_pixel(0, 0).0, [0, 0, 255, 255]);
    assert_eq!(image.get_pixel(0, 1).0, [255, 0, 0, 255]);
}
#[test]
fn handles_alpha_and_ten_bit_color() {
    let image = decode(
        &0x80800000u32.to_ne_bytes(),
        BufferSpec::packed(1, 1, Format::Argb8888).unwrap(),
        false,
        Transform::Normal,
    )
    .unwrap();
    assert_eq!(picture(&image).get_pixel(0, 0).0, [255, 0, 0, 128]);
    let image = decode(
        &1023u32.to_ne_bytes(),
        BufferSpec::packed(1, 1, Format::Xbgr2101010).unwrap(),
        false,
        Transform::Normal,
    )
    .unwrap();
    assert_eq!(picture(&image).get_pixel(0, 0).0, [255, 0, 0, 255]);
}
#[test]
fn crops_fractional_scale_output_relative_coordinates() {
    let image = RgbaImage::from_fn(250, 125, |x, y| Rgba([x as u8, y as u8, 0, 255]));
    let frame = crop(
        &raster(&image),
        Rect {
            x: -200,
            y: 50,
            width: 200,
            height: 100,
        },
        Rect {
            x: 20,
            y: 10,
            width: 40,
            height: 20,
        },
    )
    .unwrap();
    assert_eq!(frame.image.dimensions(), (50, 26));
    assert_eq!(picture(&frame.image).get_pixel(0, 0).0, [25, 12, 0, 255]);
    let jpeg = image::load_from_memory(&frame.jpeg(55).unwrap()).unwrap();
    assert_eq!((jpeg.width(), jpeg.height()), (40, 20));
    assert_eq!(
        image::load_from_memory(&frame.png().unwrap())
            .unwrap()
            .width(),
        50
    );
}
#[test]
fn composes_monitors_at_negative_origins_and_different_scales() {
    let a = raster(&RgbaImage::from_pixel(100, 100, Rgba([255, 0, 0, 255])));
    let b = raster(&RgbaImage::from_pixel(200, 200, Rgba([0, 0, 255, 255])));
    let frame = compose(
        &[
            (
                &a,
                Rect {
                    x: -100,
                    y: 0,
                    width: 100,
                    height: 100,
                },
            ),
            (
                &b,
                Rect {
                    x: 0,
                    y: 0,
                    width: 100,
                    height: 100,
                },
            ),
        ],
        Rect {
            x: -25,
            y: 20,
            width: 50,
            height: 40,
        },
    )
    .unwrap();
    assert_eq!(frame.image.dimensions(), (100, 80));
    assert_eq!(picture(&frame.image).get_pixel(49, 0).0, [255, 0, 0, 255]);
    assert_eq!(picture(&frame.image).get_pixel(50, 0).0, [0, 0, 255, 255]);
}
#[test]
fn rejects_invalid_or_oversized_buffers() {
    assert!(BufferSpec::packed(u32::MAX, 2, Format::Xrgb8888).is_err());
    assert!(BufferSpec::packed(20000, 20000, Format::Xrgb8888).is_err());
    let spec = BufferSpec {
        width: 10,
        height: 10,
        stride: 1,
        format: Format::Xrgb8888,
    };
    assert!(decode(&[], spec, false, Transform::Normal).is_err());
}
#[test]
fn undoes_all_eight_output_transforms() {
    let original = RgbaImage::from_fn(3, 2, |x, y| Rgba([(x + 3 * y) as u8, 0, 0, 255]));
    for transform in [
        Transform::Normal,
        Transform::_90,
        Transform::_180,
        Transform::_270,
        Transform::Flipped,
        Transform::Flipped90,
        Transform::Flipped180,
        Transform::Flipped270,
    ] {
        let flipped = matches!(
            transform,
            Transform::Flipped
                | Transform::Flipped90
                | Transform::Flipped180
                | Transform::Flipped270
        );
        let image = if flipped {
            imageops::flip_horizontal(&original)
        } else {
            original.clone()
        };
        let image = match transform {
            Transform::_90 | Transform::Flipped90 => imageops::rotate270(&image),
            Transform::_180 | Transform::Flipped180 => imageops::rotate180(&image),
            Transform::_270 | Transform::Flipped270 => imageops::rotate90(&image),
            _ => image,
        };
        let bytes: Vec<u8> = image
            .pixels()
            .flat_map(|p| (0xff000000u32 | ((p[0] as u32) << 16)).to_ne_bytes())
            .collect();
        let actual = decode(
            &bytes,
            BufferSpec::packed(image.width(), image.height(), Format::Xrgb8888).unwrap(),
            false,
            transform,
        )
        .unwrap();
        assert_eq!(picture(&actual), original, "{transform:?}");
    }
}

#[test]
fn straight_decode_matches_the_reference_for_every_layout() {
    for format in FORMATS {
        // Odd widths leave a vector tail; odd padding misaligns rows.
        for (width, height) in [(5, 3), (37, 4)] {
            for padding in [0, 5] {
                let (bytes, spec) =
                    buffer(format, width, height, padding, u64::from(width + padding));
                for inverted in [false, true] {
                    for transform in TRANSFORMS {
                        let context = format!(
                            "{format:?} {width}x{height}+{padding} inverted={inverted} {transform:?}"
                        );
                        let expected =
                            plain_decode(&bytes, spec, inverted, transform).unwrap();
                        let plain = picture(&decode(&bytes, spec, inverted, transform).unwrap());
                        assert_same(&plain, &expected, &context);
                        let straight =
                            decoded(&bytes, spec, inverted, transform, AlphaMode::Straight);
                        assert_same(&straight, &expected, &context);
                    }
                }
            }
        }
    }
}

#[test]
fn straight_decode_matches_the_reference_for_every_pixel_value() {
    for format in FORMATS {
        let (bytes, spec) = value_sweep(format);
        let expected = plain_decode(&bytes, spec, false, Transform::Normal).unwrap();
        let actual = decoded(&bytes, spec, false, Transform::Normal, AlphaMode::Straight);
        assert_same(&actual, &expected, &format!("{format:?}"));
    }
}

#[test]
fn opaque_decode_is_premultiplied_color_over_black() {
    for format in FORMATS {
        let ten_bit = matches!(
            format,
            Format::Argb2101010
                | Format::Abgr2101010
                | Format::Xrgb2101010
                | Format::Xbgr2101010
        );
        for (bytes, spec) in [value_sweep(format), buffer(format, 37, 4, 5, 9)] {
            let opaque = decoded(&bytes, spec, false, Transform::Normal, AlphaMode::Opaque);
            let color_spec = BufferSpec {
                format: color_only(format),
                ..spec
            };
            let color = plain_decode(&bytes, color_spec, false, Transform::Normal).unwrap();
            let straight = plain_decode(&bytes, spec, false, Transform::Normal).unwrap();
            // What compositing the straight colors over black makes of them.
            let composited = plain_stream_rgb(
                &captured(straight.clone(), spec.width, spec.height),
                None,
                PixelMode::Native,
            )
            .unwrap();
            let pixels = opaque.pixels().zip(color.pixels()).zip(straight.pixels());
            for (((o, c), s), old) in pixels.zip(composited.pixels()) {
                let a = s[3];
                let expected = [c[0].min(a), c[1].min(a), c[2].min(a), 255];
                assert_eq!(o.0, expected, "{format:?} color {c:?} alpha {a}");
                for channel in 0..3 {
                    let diff = o[channel].abs_diff(old[channel]);
                    assert!(diff <= 1, "{format:?} {o:?} vs composited {old:?}");
                    assert!(diff == 0 || !ten_bit, "{format:?} {o:?} vs {old:?}");
                }
            }
        }
    }
}

/// Which buffer row each output pixel comes from, per the plain decoding.
fn source_rows(width: u32, height: u32, inverted: bool, transform: Transform) -> RgbaImage {
    let bytes: Vec<u8> = (0..height)
        .flat_map(|y| (0..width).flat_map(move |_| (y << 16).to_ne_bytes()))
        .collect();
    let spec = BufferSpec::packed(width, height, Format::Xrgb8888).unwrap();
    plain_decode(&bytes, spec, inverted, transform).unwrap()
}

#[test]
fn decode_rows_into_converts_only_the_requested_buffer_rows() {
    let (width, height) = (7, 6);
    let untouched = Rgba([1, 2, 3, 4]);
    for format in FORMATS {
        let (bytes, spec) = buffer(format, width, height, 5, 3);
        for alpha in [AlphaMode::Straight, AlphaMode::Opaque] {
            for inverted in [false, true] {
                for transform in TRANSFORMS {
                    let full = decoded(&bytes, spec, inverted, transform, alpha);
                    let origin = source_rows(width, height, inverted, transform);
                    for rows in [0..0, 0..1, 2..4, height - 1..height, 0..height] {
                        let context = format!(
                            "{format:?} {alpha:?} inverted={inverted} {transform:?} rows {rows:?}"
                        );
                        let mut image = raster(&RgbaImage::from_pixel(
                            full.width(),
                            full.height(),
                            untouched,
                        ));
                        let storage = image.as_raw().as_ptr();
                        decode_rows_into(
                            &bytes,
                            spec,
                            inverted,
                            transform,
                            alpha,
                            rows.clone(),
                            &mut image,
                        )
                        .unwrap();
                        assert_eq!(image.as_raw().as_ptr(), storage, "{context}");
                        let expected =
                            RgbaImage::from_fn(full.width(), full.height(), |x, y| {
                                let row = u32::from(origin.get_pixel(x, y)[0]);
                                if rows.contains(&row) {
                                    *full.get_pixel(x, y)
                                } else {
                                    untouched
                                }
                            });
                        assert_same(&picture(&image), &expected, &context);
                    }
                }
            }
        }
    }
}

#[test]
fn decode_rows_into_rejects_mismatched_images_and_rows() {
    let (bytes, spec) = buffer(Format::Xrgb8888, 7, 6, 0, 4);
    for (transform, (width, height), rows) in [
        (Transform::Normal, (6, 7), 0..6),
        (Transform::_90, (7, 6), 0..6),
        (Transform::Normal, (7, 6), 0..7),
        (
            Transform::Normal,
            (7, 6),
            std::ops::Range { start: 4, end: 2 },
        ),
    ] {
        let mut image = raster(&RgbaImage::from_pixel(width, height, Rgba([1, 2, 3, 4])));
        let before = image.clone();
        let result = decode_rows_into(
            &bytes,
            spec,
            false,
            transform,
            AlphaMode::Opaque,
            rows,
            &mut image,
        );
        assert!(result.is_err());
        assert_eq!(image, before);
    }
    let mut image = Raster::new(7, 6);
    let truncated = &bytes[..bytes.len() - 1];
    let result = decode_rows_into(
        truncated,
        spec,
        false,
        Transform::Normal,
        AlphaMode::Opaque,
        0..1,
        &mut image,
    );
    assert!(result.is_err());
}

fn rect(x: i32, y: i32, width: u32, height: u32) -> Rect {
    Rect {
        x,
        y,
        width,
        height,
    }
}

#[test]
fn decode_rect_matches_cropping_a_full_decode() {
    let outputs = [
        // 1.25 at a negative layout origin, as in the crop test.
        (250, 125, rect(-200, 50, 200, 100)),
        // About 1.5 with odd sizes.
        (151, 85, rect(0, 0, 101, 57)),
        // Fewer pixels than logical units.
        (100, 60, rect(1920, 0, 150, 90)),
    ];
    for (width, height, logical) in outputs {
        let (right, bottom) = (logical.width as i32, logical.height as i32);
        let regions = [
            rect(20, 10, 40, 20),
            rect(0, 0, logical.width, logical.height),
            // Clipped at the top left and at the bottom right.
            rect(-10, -5, 31, 17),
            rect(right - 7, bottom - 3, 50, 50),
            rect(3, 7, 1, 1),
        ];
        let formats = [
            Format::Xrgb8888,
            Format::Argb8888,
            Format::Bgr888,
            Format::Abgr2101010,
        ];
        for format in formats {
            let (bytes, spec) = buffer(format, width, height, 5, 11);
            for alpha in [AlphaMode::Straight, AlphaMode::Opaque] {
                for inverted in [false, true] {
                    // Only Normal has its own path; the others must still agree.
                    let transforms = [Transform::Normal, Transform::_90, Transform::Flipped180];
                    for transform in transforms {
                        let full = decoded(&bytes, spec, inverted, transform, alpha);
                        for region in regions {
                            let context = format!(
                                "{width}x{height} {format:?} {alpha:?} inverted={inverted} {transform:?} {region:?}"
                            );
                            let expected = crop(&raster(&full), logical, region).unwrap();
                            let actual = decode_rect(
                                &bytes, spec, inverted, transform, alpha, logical, region,
                            )
                            .unwrap();
                            assert_same(&picture(&actual.image), &picture(&expected.image), &context);
                            assert_eq!(
                                (actual.logical_width, actual.logical_height),
                                (expected.logical_width, expected.logical_height),
                                "{context}"
                            );
                        }
                    }
                }
            }
        }
        let (bytes, spec) = buffer(Format::Xrgb8888, width, height, 0, 12);
        let outside = rect(right, 0, 10, 10);
        let normal = Transform::Normal;
        let straight = AlphaMode::Straight;
        let result = decode_rect(&bytes, spec, false, normal, straight, logical, outside);
        assert!(result.is_err());
    }
}

#[test]
fn decode_into_reuses_the_destination_allocation() {
    let (first, spec) = buffer(Format::Argb8888, 9, 5, 3, 1);
    let (second, _) = buffer(Format::Argb8888, 9, 5, 3, 2);
    let mut image = Raster::new(0, 0);
    decode_into(
        &first,
        spec,
        false,
        Transform::Normal,
        AlphaMode::Straight,
        &mut image,
    )
    .unwrap();
    let storage = image.as_raw().as_ptr();
    // Same output size, even in another orientation: storage kept, every pixel replaced.
    for (inverted, transform) in [
        (false, Transform::Normal),
        (true, Transform::Flipped180),
        (true, Transform::_180),
    ] {
        decode_into(
            &second,
            spec,
            inverted,
            transform,
            AlphaMode::Straight,
            &mut image,
        )
        .unwrap();
        assert_eq!(image.as_raw().as_ptr(), storage);
        let expected = plain_decode(&second, spec, inverted, transform).unwrap();
        assert_same(&picture(&image), &expected, &format!("{transform:?}"));
    }
    // Rotation swaps the output dimensions.
    decode_into(
        &second,
        spec,
        false,
        Transform::_90,
        AlphaMode::Opaque,
        &mut image,
    )
    .unwrap();
    assert_eq!(image.dimensions(), (5, 9));
    // A rejected buffer leaves the image alone.
    let before = image.clone();
    let truncated = &second[..second.len() - 1];
    let result = decode_into(
        truncated,
        spec,
        false,
        Transform::_90,
        AlphaMode::Opaque,
        &mut image,
    );
    assert!(result.is_err());
    assert_eq!(image, before);
}

/// Random colors; `alpha` gives each pixel's alpha by index.
fn noise_frame(
    (width, height): (u32, u32),
    (logical_width, logical_height): (u32, u32),
    alpha: impl Fn(usize) -> u8,
) -> CapturedFrame {
    let mut raw = noise(u64::from(width * height), (width * height * 4) as usize);
    for (i, pixel) in raw.chunks_exact_mut(4).enumerate() {
        pixel[3] = alpha(i);
    }
    CapturedFrame {
        image: Raster::from_raw(width, height, raw).unwrap(),
        logical_width,
        logical_height,
    }
}

#[test]
fn stream_rgb_matches_the_per_pixel_reference() {
    for (size, logical) in [
        ((37, 21), (37, 21)),
        ((37, 21), (25, 14)),
        ((64, 36), (32, 18)),
    ] {
        let frame = noise_frame(size, logical, |i| ALPHAS[i % ALPHAS.len()]);
        for mode in [PixelMode::Logical, PixelMode::Native] {
            for limit in [None, Some(1), Some(20), Some(1000)] {
                assert_eq!(
                    rgb(&frame.stream_rgb(limit, mode).unwrap()),
                    plain_stream_rgb(&frame, limit, mode).unwrap(),
                    "{size:?} {logical:?} {mode:?} {limit:?}"
                );
            }
        }
    }
}

#[test]
fn opaque_jpeg_frames_skip_the_rgb_copy_with_identical_output() {
    // Unscaled native and logical frames take the direct path; the scaled
    // cases keep the RGB copy.
    for (size, logical) in [
        ((64, 36), (64, 36)),
        ((37, 21), (37, 21)),
        ((64, 36), (32, 18)),
    ] {
        let frame = noise_frame(size, logical, |_| 255);
        for mode in [PixelMode::Logical, PixelMode::Native] {
            for limit in [None, Some(20), Some(1000)] {
                for quality in [1, 55, 95] {
                    assert_eq!(
                        frame.jpeg_with_mode(quality, limit, mode).unwrap(),
                        plain_jpeg(&frame, quality, limit, mode).unwrap(),
                        "{size:?} {logical:?} {mode:?} {limit:?} q{quality}"
                    );
                }
            }
        }
    }
}

#[test]
fn translucent_jpeg_frames_still_composite_over_black() {
    let frame = captured(
        RgbaImage::from_fn(64, 32, |x, _| {
            Rgba([255, 255, 255, if x < 32 { 255 } else { 64 }])
        }),
        64,
        32,
    );
    for mode in [PixelMode::Logical, PixelMode::Native] {
        let encoded = frame.jpeg_with_mode(90, None, mode).unwrap();
        assert_eq!(encoded, plain_jpeg(&frame, 90, None, mode).unwrap());
        let decoded = image::load_from_memory(&encoded.0).unwrap().to_rgb8();
        assert!(decoded.get_pixel(8, 16)[0] > 245);
        assert!(decoded.get_pixel(56, 16)[0].abs_diff(64) <= 4);
    }
}

#[test]
fn opacity_check_finds_any_translucent_pixel() {
    let opaque = RgbaImage::from_pixel(37, 29, Rgba([9, 9, 9, 255]));
    assert!(is_opaque(&raster(&opaque)));
    for (x, y) in [(0, 0), (18, 14), (36, 28)] {
        let mut image = opaque.clone();
        image.put_pixel(x, y, Rgba([9, 9, 9, 254]));
        assert!(!is_opaque(&raster(&image)), "({x}, {y})");
    }
}

#[test]
fn canvas_sides_are_those_of_the_double_scale() {
    let wide = raster(&RgbaImage::from_pixel(1100, 1, Rgba([9, 8, 7, 255])));
    let tile = Rect {
        x: 0,
        y: 0,
        width: 1000,
        height: 1,
    };
    // 110 * 1.1 is a little more than 121.
    for (width, side) in [(110, 122), (100, 111), (1000, 1100), (7, 8)] {
        let region = Rect { width, ..tile };
        let frame = compose(&[(&wide, tile)], region).unwrap();
        assert_eq!(frame.image.dimensions(), (side, 2), "{width}");
        assert_eq!(side, (f64::from(width) * (1100.0 / 1000.0)).ceil() as u32);
        assert_eq!(picture(&frame.image).get_pixel(0, 0).0, [9, 8, 7, 255]);
    }
}

#[test]
fn whole_steps_compute_as_doubles_do() {
    let one = double::ONE as f64;
    let mut seed: u64 = 1;
    let mut random = |below: u32| {
        seed = seed.wrapping_mul(6_364_136_223_846_793_005).wrapping_add(1);
        ((seed >> 33) as u32) % below
    };
    let mut cases = vec![
        (1, 1, 1),
        (3, 2, 5),
        (u32::MAX, 1, u32::MAX),
        (u32::MAX, u32::MAX, u32::MAX),
        (u32::MAX, 3, 7),
        (u32::MAX, u32::MAX - 1, u32::MAX),
        (1100, 1000, 110),
        (1, 1, 0),
    ];
    for _ in 0..20_000 {
        let d = 1 + random(5_000);
        cases.push((d + random(10_000), d, random(10_000)));
        let d = 1 + random(u32::MAX);
        cases.push((d + random(u32::MAX - d + 1), d, random(u32::MAX)));
    }
    for (n, d, v) in cases {
        let scale = f64::from(n) / f64::from(d);
        let steps = double::divide(n, d);
        assert_eq!(steps, (scale * one) as u128, "{n} / {d}");
        let product = f64::from(v) * scale;
        assert_eq!(
            double::multiply(v, steps),
            (product * one) as u128,
            "{v} * {n} / {d}"
        );
        assert_eq!(double::multiply_up(v, steps), product.ceil() as u32);
        assert_eq!(double::multiply_round(v, steps), product.round() as u128);
    }
}

#[test]
fn ten_bit_alpha_composites_to_the_step() {
    // Alpha 1 of 3 and 2 of 3, red 1023, green 600, blue 3.
    for (alpha, stored) in [(85, 1u32), (170, 2)] {
        let word = stored << 30 | 1023 << 20 | 600 << 10 | 3;
        let spec = BufferSpec::packed(1, 1, Format::Argb2101010).unwrap();
        let bytes = word.to_le_bytes();
        let straight = decoded(&bytes, spec, false, Transform::Normal, AlphaMode::Straight);
        let opaque = decoded(&bytes, spec, false, Transform::Normal, AlphaMode::Opaque);
        let (s, o) = (straight.get_pixel(0, 0), opaque.get_pixel(0, 0));
        assert_eq!(s[3], alpha);
        assert_eq!(o.0, [alpha, alpha.min(150), 1, 255]);
        for channel in 0..3 {
            let over_black = u16::from(s[channel]) * u16::from(alpha) / 255;
            assert_eq!(u16::from(o[channel]), over_black);
        }
    }
}

#[test]
fn formats_and_encoders_name_what_they_refuse() {
    // The protocol's C8 format, and a number that it does not have.
    let error = BufferSpec::packed(4, 4, Format::Other(0x2020_3843)).unwrap_err();
    assert_eq!(error, Error::UnsupportedFormat(0x2020_3843));
    assert_eq!(error.message(), "unsupported capture pixel format: C8");
    let error = BufferSpec::packed(4, 4, Format::Other(7)).unwrap_err();
    assert_eq!(error.message(), "unsupported capture pixel format: 7");

    let flat = captured(RgbaImage::new(0, 5), 0, 5).png().unwrap_err();
    assert_eq!(flat.message(), "Zero width not allowed");
    let mut bytes = Vec::new();
    let encoder = image::codecs::png::PngEncoder::new(&mut bytes);
    let color = image::ExtendedColorType::Rgba8;
    let own = image::ImageEncoder::write_image(encoder, &[], 0, 5, color).unwrap_err();
    assert_eq!(flat.message(), own.to_string());
    let thin = captured(RgbaImage::new(5, 0), 5, 0).png().unwrap_err();
    assert_eq!(thin.message(), "Zero height not allowed");

    let wide = RgbaImage::new(65536, 1);
    let own = image::codecs::jpeg::JpegEncoder::new(&mut Vec::new())
        .encode_image(&wide)
        .unwrap_err();
    let error = captured(wide, 65536, 1).jpeg(50).unwrap_err();
    assert_eq!(
        error,
        Error::JpegSize {
            width: 65536,
            height: 1
        }
    );
    assert_eq!(error.message(), own.to_string());
}

#[test]
fn straight_and_flat_pixels_agree_over_black() {
    for a in [0, 1, 84, 128, 254, 255] {
        for c in 0..=255 {
            let p = omabeam::raster::Rgba { r: c, g: c, b: 0, a };
            let (straight, flat) = (unpremultiply(p), over_black(p));
            assert_eq!((flat.r, flat.b, flat.a), (c.min(a), 0, 255));
            let over = (u16::from(straight.r) * u16::from(a) / 255) as u8;
            assert!(flat.r.abs_diff(over) <= 1, "{c} at {a}");
        }
    }
}
