use omabeam::overlay::{
    changed, draw_rows, overlay_frame, retain_parallel, stale_rows, DirtyBox, Frame,
};
use omabeam::pixels::{BufferSpec, Error, Format};
use omabeam::rect::{Rect, Region};
use omabeam::selector::{region_in_output, Drag};

/// Every pixel by itself, in floating point.
fn draw_overlay(
    spec: BufferSpec,
    logical: Rect,
    selection: Option<Rect>,
) -> Result<Vec<u8>, Error> {
    let mut bytes = vec![0; spec.byte_len()?];
    let scale = spec.width as f64 / logical.width as f64;
    for y in 0..spec.height {
        let gy = logical.y as f64 + y as f64 / scale;
        for x in 0..spec.width {
            let gx = logical.x as f64 + x as f64 / scale;
            let inside = selection.is_some_and(|r| {
                gx >= r.x as f64
                    && gx < r.right() as f64
                    && gy >= r.y as f64
                    && gy < r.bottom() as f64
            });
            let border = inside
                && selection.is_some_and(|r| {
                    gx < r.x as f64 + 2.0
                        || gx >= r.right() as f64 - 2.0
                        || gy < r.y as f64 + 2.0
                        || gy >= r.bottom() as f64 - 2.0
                });
            let pixel: u32 = if border {
                0xff82aaff
            } else if inside {
                0x00000000
            } else {
                0x66000000
            };
            let offset = y as usize * spec.stride as usize + x as usize * 4;
            bytes[offset..offset + 4].copy_from_slice(&pixel.to_ne_bytes());
        }
    }
    Ok(bytes)
}

#[test]
fn selection_crossing_outputs_is_clipped_and_output_relative() {
    let outputs = [
        (
            "left",
            Rect {
                x: -200,
                y: 50,
                width: 200,
                height: 100,
            },
        ),
        (
            "right",
            Rect {
                x: 0,
                y: 50,
                width: 200,
                height: 100,
            },
        ),
    ];
    let outputs = outputs.map(|(name, rect)| (String::from(name), rect));
    let region = region_in_output(
        Rect {
            x: -20,
            y: 60,
            width: 50,
            height: 20,
        },
        &outputs,
    )
    .unwrap();
    assert_eq!(
        region,
        Region {
            output: "left".into(),
            rect: Rect {
                x: 180,
                y: 10,
                width: 20,
                height: 20
            }
        }
    );
}
#[test]
fn reverse_drag_single_click_square_and_move() {
    let mut drag = Drag::default();
    drag.motion(1, (100, 100));
    drag.start(1);
    drag.motion(1, (80, 90));
    assert_eq!(
        drag.rect(),
        Some(Rect {
            x: 80,
            y: 90,
            width: 21,
            height: 11
        })
    );
    drag.square = true;
    assert_eq!(drag.rect().unwrap().height, 21);
    drag.moving = true;
    drag.motion(1, (90, 100));
    assert_eq!(drag.rect().unwrap().x, 90);
    drag.motion(2, (500, 500));
    assert_eq!(drag.position, (90, 100));
    let drag = Drag {
        anchor: Some((10, 20)),
        position: (10, 20),
        ..Drag::default()
    };
    assert_eq!(
        drag.rect().unwrap(),
        Rect {
            x: 10,
            y: 20,
            width: 1,
            height: 1
        }
    );
}
#[test]
fn overlay_is_transparent_inside_and_dim_outside_with_border() {
    let spec = BufferSpec::packed(20, 20, Format::Argb8888).unwrap();
    let bytes = draw_overlay(
        spec,
        Rect {
            x: 0,
            y: 0,
            width: 20,
            height: 20,
        },
        Some(Rect {
            x: 5,
            y: 5,
            width: 10,
            height: 10,
        }),
    )
    .unwrap();
    let pixel = |x: usize, y: usize| {
        u32::from_ne_bytes(
            bytes[(y * 20 + x) * 4..(y * 20 + x + 1) * 4]
                .try_into()
                .unwrap(),
        )
    };
    assert_eq!(pixel(0, 0), 0x66000000);
    assert_eq!(pixel(5, 5), 0xff82aaff);
    assert_eq!(pixel(10, 10), 0);
}

/// Deterministic pseudo-random values for broad boundary coverage.
struct Lcg(u64);
impl Lcg {
    fn next(&mut self, range: std::ops::Range<i32>) -> i32 {
        self.0 = self
            .0
            .wrapping_mul(6364136223846793005)
            .wrapping_add(1442695040888963407);
        range.start + ((self.0 >> 33) % (range.end - range.start) as u64) as i32
    }
}
/// The first pixel `(x, y)` where two images differ.
fn mismatch(a: &[u8], b: &[u8], width: u32) -> Option<(usize, usize)> {
    assert_eq!(a.len(), b.len());
    let i = a.chunks(4).zip(b.chunks(4)).position(|(p, q)| p != q)?;
    Some((i % width as usize, i / width as usize))
}

#[test]
fn span_renderer_matches_the_per_pixel_reference() {
    let mut rng = Lcg(7);
    let mut out = Vec::new();
    // A 40x24 logical overlay at scales 1, 1.25, 1.5, and 2.
    for (width, height) in [(40, 24), (50, 30), (60, 36), (80, 48)] {
        let spec = BufferSpec::packed(width, height, Format::Argb8888).unwrap();
        let stride = spec.stride as usize;
        for (x, y) in [(0, 0), (-40, -24), (-1000, 7), (13, -5)] {
            let logical = Rect {
                x,
                y,
                width: 40,
                height: 24,
            };
            let rect = |dx: i32, dy: i32, width: u32, height: u32| {
                Some(Rect {
                    x: x + dx,
                    y: y + dy,
                    width,
                    height,
                })
            };
            let mut selections = vec![
                None,
                Some(logical),
                rect(-10, -10, 25, 20),
                rect(30, 15, 25, 20),
                rect(-5, -5, 50, 34),
                rect(40, 0, 5, 5),
                rect(-5, 0, 5, 5),
                Some(Rect {
                    x: i32::MIN,
                    y: i32::MIN,
                    width: u32::MAX,
                    height: u32::MAX,
                }),
                Some(Rect {
                    x: i32::MAX,
                    y: i32::MAX,
                    width: u32::MAX,
                    height: 1,
                }),
            ];
            // Rects no wider than the border on each side.
            selections.extend((1..6).map(|size| rect(3, 4, size, size)));
            for _ in 0..300 {
                let (dx, dy) = (rng.next(-12..48), rng.next(-12..32));
                let (w, h) = (rng.next(1..30) as u32, rng.next(1..30) as u32);
                selections.push(rect(dx, dy, w, h));
            }
            for selection in selections {
                let expected = draw_overlay(spec, logical, selection).unwrap();
                let frame = overlay_frame(spec, logical, selection);
                draw_rows(spec, frame, 0..height, &mut out);
                assert_eq!(
                    mismatch(&out, &expected, width),
                    None,
                    "{width}x{height} buffer at ({x}, {y}), {selection:?}"
                );
                let top = rng.next(0..height as i32) as u32;
                let bottom = rng.next(top as i32..height as i32 + 1) as u32;
                draw_rows(spec, frame, top..bottom, &mut out);
                assert!(
                    out == expected[top as usize * stride..bottom as usize * stride],
                    "rows {top}..{bottom} of {width}x{height} at ({x}, {y}), {selection:?}"
                );
            }
        }
    }
}

#[test]
fn dropped_buffers_take_their_drawn_record_with_them() {
    let mut buffers = vec![1, 2, 3, 4, 5, 6];
    let mut drawn = vec!['a', 'b', 'c', 'd', 'e', 'f'];
    retain_parallel(&mut buffers, &mut drawn, |b| b % 3 != 0 && *b != 1);
    assert_eq!((buffers, drawn), (vec![2, 4, 5], vec!['b', 'd', 'e']));
}

#[test]
fn partial_redraws_keep_every_buffer_and_the_shown_image_exact() {
    // Buffers come back in any order, and the compositor copies only the
    // damaged box into what it shows, as wlroots does for shm buffers.
    let spec = BufferSpec::packed(60, 36, Format::Argb8888).unwrap();
    let logical = Rect {
        x: -40,
        y: 10,
        width: 40,
        height: 24,
    };
    let stride = spec.stride as usize;
    let fresh = || (vec![0; spec.byte_len().unwrap()], None);
    let mut rng = Lcg(11);
    let mut buffers: Vec<(Vec<u8>, Option<Frame>)> = Vec::new();
    let mut shown: Option<(Vec<u8>, Frame)> = None;
    let mut selection = None;
    let mut out = Vec::new();
    let mut partial = 0;
    for step in 0..3000 {
        let random = |rng: &mut Lcg| Rect {
            x: rng.next(-50..10),
            y: rng.next(0..40),
            width: rng.next(1..60) as u32,
            height: rng.next(1..40) as u32,
        };
        selection = match (rng.next(0..8), selection) {
            (0, _) => None,
            (1, same) => same,
            (2, _) | (_, None) => Some(random(&mut rng)),
            // A drag step: move or resize by a few pixels.
            (_, Some(r)) => Some(Rect {
                x: r.x + rng.next(-1..2),
                y: r.y + rng.next(-1..2),
                width: (r.width as i32 + rng.next(-3..4)).max(1) as u32,
                height: (r.height as i32 + rng.next(-3..4)).max(1) as u32,
            }),
        };
        let frame = overlay_frame(spec, logical, selection);
        let damage = match &shown {
            Some((_, on_screen)) => changed(*on_screen, frame),
            None => Some(DirtyBox {
                x0: 0,
                y0: 0,
                x1: spec.width,
                y1: spec.height,
            }),
        };
        let Some(DirtyBox { x0, y0, x1, y1 }) = damage else {
            continue;
        };
        // Any buffer may be the free one; some are newly allocated.
        let index = match rng.next(0..4) as usize {
            i if i < buffers.len() => i,
            _ if buffers.len() < 3 => {
                buffers.push(fresh());
                buffers.len() - 1
            }
            i => i % buffers.len(),
        };
        if rng.next(0..40) == 0 {
            buffers[index] = fresh();
        }
        let (pixels, held) = &mut buffers[index];
        let rows = stale_rows(*held, frame, spec.height);
        draw_rows(spec, frame, rows.clone(), &mut out);
        pixels[rows.start as usize * stride..rows.end as usize * stride].copy_from_slice(&out);
        *held = Some(frame);
        partial += usize::from(rows.len() < spec.height as usize);
        let expected = draw_overlay(spec, logical, selection).unwrap();
        assert_eq!(
            mismatch(pixels, &expected, spec.width),
            None,
            "buffer {index} at step {step}"
        );
        let (image, on_screen) = shown.get_or_insert_with(|| (vec![0; expected.len()], None));
        for y in y0 as usize..y1 as usize {
            let span = y * stride + x0 as usize * 4..y * stride + x1 as usize * 4;
            image[span.clone()].copy_from_slice(&pixels[span]);
        }
        assert_eq!(
            mismatch(image, &expected, spec.width),
            None,
            "shown image at step {step}"
        );
        *on_screen = frame;
    }
    assert!(partial > 500, "only {partial} partial redraws");
}

#[test]
fn edges_fall_where_doubles_put_them() {
    for (width, logical_width) in [(1100u32, 1000u32), (7, 10), (1000, 3), (120, 100), (50, 40)] {
        let spec = BufferSpec::packed(width, 20, Format::Argb8888).unwrap();
        let logical = Rect {
            x: -3,
            y: 2,
            width: logical_width,
            height: 20,
        };
        let scale = f64::from(width) / f64::from(logical_width);
        let edge = |at: i64| {
            ((at as f64 + 3.0) * scale)
                .ceil()
                .clamp(0.0, f64::from(width)) as u32
        };
        for right in 1..logical_width {
            let selection = Rect {
                x: -3,
                y: 2,
                width: right,
                height: 5,
            };
            let frame = overlay_frame(spec, logical, Some(selection)).unwrap();
            assert_eq!((frame.x.start, frame.x.end), (0, edge(i64::from(right) - 3)));
            assert_eq!(frame.inner_x.start, edge(-1));
            assert_eq!(frame.inner_x.end, edge(i64::from(right) - 5));
        }
    }
}
