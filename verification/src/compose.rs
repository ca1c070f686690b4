//! Putting several outputs together into one desktop image.

use vstd::prelude::*;

use crate::codec;
use crate::double;
use crate::frame;
use crate::frame::CapturedFrame;
use crate::pixels;
use crate::pixels::{BufferSpec, Error, Format};
use crate::raster;
use crate::raster::{Rgba, RgbaImage};
use crate::rect::Rect;

verus! {

/// The bytes of a `width` by `height` image with the pixels of `source`.
pub open spec fn bytes_of(width: int, height: int, source: spec_fn(int, int) -> Rgba) -> Seq<u8> {
    Seq::new(
        (width * height * 4) as nat,
        |k: int| source(k / 4 % width, k / 4 / width).bytes()[k % 4],
    )
}

proof fn lemma_bytes_of(image: RgbaImage, source: spec_fn(int, int) -> Rgba)
    requires
        image.wf(),
        forall|x: int, y: int| image.has(x, y) ==> #[trigger] image.pixel(x, y) == source(x, y),
    ensures
        image.data@ == bytes_of(image.width as int, image.height as int, source),
{
    let w = image.width as int;
    let h = image.height as int;
    assert forall|k: int| 0 <= k < image.data@.len() implies image.data@[k] == bytes_of(
        w,
        h,
        source,
    )[k] by {
        let i = k / 4;
        assert(0 < w) by (nonlinear_arith)
            requires
                0 <= k < w * h * 4,
                0 <= w,
                0 <= h,
        ;
        let x = i % w;
        let y = i / w;
        assert(0 <= x < w && 0 <= y < h && y * w + x == i) by (nonlinear_arith)
            requires
                0 <= i < w * h,
                0 < w,
                x == i % w,
                y == i / w,
        ;
        assert(image.has(x, y));
        assert(image.pixel(x, y) == raster::rgba_at(image.data@, i));
    }
    assert(image.data@ =~= bytes_of(w, h, source));
}

/// The canvas pixels per logical unit, as a double: the densest tile's, and at
/// least one.
pub open spec fn canvas_scale(tiles: Seq<(&RgbaImage, Rect)>) -> int
    decreases tiles.len(),
{
    if tiles.len() == 0 {
        double::ONE as int
    } else {
        let least = canvas_scale(tiles.drop_last());
        let (image, rect) = tiles.last();
        if 0 < rect.width <= image.width && density(tiles.last()) > least {
            density(tiles.last())
        } else {
            least
        }
    }
}

/// The pixels per logical unit of a tile with at least one, as a double.
pub open spec fn density(tile: (&RgbaImage, Rect)) -> int {
    double::ratio(tile.0.width as int, tile.1.width as int)
}

/// A tile that has pixels but covers no width: no scale is large enough.
pub open spec fn unbounded(tiles: Seq<(&RgbaImage, Rect)>) -> bool {
    exists|i: int| 0 <= i < tiles.len() && #[trigger] tiles[i].0.width > 0 && tiles[i].1.width == 0
}

/// The canvas side for a logical length, as far as it can be represented.
pub open spec fn canvas_side(length: u32, scale: int) -> u32 {
    let side = double::ceiling(double::times(length as int, scale));
    if side <= u32::MAX {
        side as u32
    } else {
        u32::MAX
    }
}

/// The canvas place of a logical one.
pub open spec fn place(v: int, scale: int) -> int {
    double::rounded(double::times(v, scale))
}

/// Why the tiles cannot be composed, if they cannot.
pub open spec fn refused(tiles: Seq<(&RgbaImage, Rect)>, region: Rect) -> Option<Error> {
    let scale = canvas_scale(tiles);
    if region.width == 0 || region.height == 0 {
        Some(Error::EmptyRegion)
    } else if unbounded(tiles) {
        Some(Error::WidthOverflow)
    } else {
        match BufferSpec::unpadded(
            canvas_side(region.width, scale),
            canvas_side(region.height, scale),
            Format::Xrgb8888,
        ) {
            Ok(_) => None,
            Err(error) => Some(error),
        }
    }
}

/// A tile's part of the canvas: left, top, right and bottom.
pub open spec fn placement(overlap: Rect, region: Rect, scale: int) -> (int, int, int, int) {
    (
        place(overlap.x - region.x, scale),
        place(overlap.y - region.y, scale),
        place(overlap.end_x() - region.x, scale),
        place(overlap.end_y() - region.y, scale),
    )
}

/// The bytes of a tile's visible part, scaled to its place on the canvas.
pub open spec fn tile_bytes(tile: (&RgbaImage, Rect), overlap: Rect, width: int, height: int) -> Seq<
    u8,
> {
    let (image, rect) = tile;
    let local = Rect { x: (overlap.x - rect.x) as i32, y: (overlap.y - rect.y) as i32, ..overlap };
    let part = (frame::touched_pixels((image.width, image.height), rect, local)->0).0;
    let bytes = bytes_of(
        part.width as int,
        part.height as int,
        |x: int, y: int| image.pixel(part.x + x, part.y + y),
    );
    codec::scaled(bytes, part.width as int, part.height as int, width, height)
}

/// Canvas pixel (`x`, `y`) once the first `count` tiles are laid on opaque
/// black, in order.
pub open spec fn painted(
    tiles: Seq<(&RgbaImage, Rect)>,
    region: Rect,
    scale: int,
    count: int,
    x: int,
    y: int,
) -> Rgba
    decreases count,
{
    if count <= 0 {
        Rgba { r: 0, g: 0, b: 0, a: 255 }
    } else {
        let below = painted(tiles, region, scale, count - 1, x, y);
        let tile = tiles[count - 1];
        match region.overlap(tile.1) {
            None => below,
            Some(overlap) => {
                let (left, top, right, bottom) = placement(overlap, region, scale);
                if left <= x < right && top <= y < bottom {
                    let bytes = tile_bytes(tile, overlap, right - left, bottom - top);
                    codec::laid_over(
                        below,
                        raster::rgba_at(bytes, raster::offset(right - left, x - left, y - top)),
                    )
                } else {
                    below
                }
            },
        }
    }
}

/// A tile fits the machine: its image is whole and can be scaled to any
/// canvas, and the region starts within a signed integer of its corner.
pub open spec fn usable(tile: (&RgbaImage, Rect), region: Rect) -> bool {
    &&& tile.0.wf()
    &&& tile.0.width <= codec::MAX_SCALED
    &&& tile.0.height <= codec::MAX_SCALED
    &&& tile.0.width * pixels::MAX_DIMENSION * 16 <= isize::MAX
    &&& match region.overlap(tile.1) {
        Some(overlap) => overlap.x - tile.1.x <= i32::MAX && overlap.y - tile.1.y <= i32::MAX,
        None => true,
    }
}

proof fn lemma_scale_range(tiles: Seq<(&RgbaImage, Rect)>)
    ensures
        double::ONE <= canvas_scale(tiles) <= double::LIMIT,
    decreases tiles.len(),
{
    if tiles.len() > 0 {
        lemma_scale_range(tiles.drop_last());
        let (image, rect) = tiles.last();
        if 0 < rect.width <= image.width {
            double::lemma_ratio_range(image.width as int, rect.width as int);
        }
    }
}

/// No tile is denser than the canvas, which has at least one pixel for each
/// logical unit.
pub proof fn no_tile_is_denser_than_the_canvas(tiles: Seq<(&RgbaImage, Rect)>, i: int)
    requires
        0 <= i < tiles.len(),
        tiles[i].1.width > 0,
    ensures
        double::ONE <= canvas_scale(tiles),
        tiles[i].1.width <= tiles[i].0.width ==> density(tiles[i]) <= canvas_scale(tiles),
    decreases tiles.len(),
{
    lemma_scale_range(tiles);
    if i < tiles.len() - 1 {
        assert(tiles.drop_last()[i] == tiles[i]);
        no_tile_is_denser_than_the_canvas(tiles.drop_last(), i);
    }
}

/// The densest tile's scale.
fn scale_of(tiles: &[(&RgbaImage, Rect)]) -> (r: Option<u128>)
    ensures
        match r {
            Some(scale) => !unbounded(tiles@) && scale == canvas_scale(tiles@),
            None => unbounded(tiles@),
        },
{
    let mut scale: u128 = double::ONE;
    let mut i: usize = 0;
    while i < tiles.len()
        invariant
            i <= tiles@.len(),
            scale == canvas_scale(tiles@.take(i as int)),
            forall|j: int|
                0 <= j < i ==> !(#[trigger] tiles@[j].0.width > 0 && tiles@[j].1.width == 0),
        decreases tiles@.len() - i,
    {
        let tile = &tiles[i];
        let width: u32 = tile.0.width;
        let length: u32 = tile.1.width;
        assert(tiles@.take(i + 1).drop_last() =~= tiles@.take(i as int));
        if length == 0 {
            if width > 0 {
                assert(tiles@[i as int].0.width > 0);
                return None;
            }
        } else if length <= width {
            let density: u128 = double::divide(width, length);
            if density > scale {
                scale = density;
            }
        }
        i = i + 1;
    }
    assert(tiles@.take(i as int) =~= tiles@);
    Some(scale)
}

/// Puts the parts of the tiles that lie in `region` together, at the scale of
/// the densest tile. Uncovered parts are black.
pub fn compose(tiles: &[(&RgbaImage, Rect)], region: Rect) -> (r: Result<CapturedFrame, Error>)
    requires
        forall|i: int| 0 <= i < tiles@.len() ==> usable(#[trigger] tiles@[i], region),
    ensures
        match r {
            Ok(frame) => {
                let scale = canvas_scale(tiles@);
                &&& refused(tiles@, region) is None
                &&& frame.image.wf()
                &&& frame.image.width == canvas_side(region.width, scale)
                &&& frame.image.height == canvas_side(region.height, scale)
                &&& frame.logical_width == region.width
                &&& frame.logical_height == region.height
                &&& forall|x: int, y: int|
                    frame.image.has(x, y) ==> #[trigger] frame.image.pixel(x, y) == painted(
                        tiles@,
                        region,
                        scale,
                        tiles@.len() as int,
                        x,
                        y,
                    )
            },
            Err(error) => refused(tiles@, region) == Some(error),
        },
{
    if region.width == 0 || region.height == 0 {
        return Err(Error::EmptyRegion);
    }
    let scale: u128 = match scale_of(tiles) {
        Some(scale) => scale,
        None => return Err(Error::WidthOverflow),
    };
    proof {
        lemma_scale_range(tiles@);
    }
    let width: u32 = double::multiply_up(region.width, scale);
    let height: u32 = double::multiply_up(region.height, scale);
    match BufferSpec::packed(width, height, Format::Xrgb8888) {
        Ok(spec) => {
            proof {
                pixels::lemma_decoded_size(spec);
            }
        },
        Err(error) => return Err(error),
    }
    let mut canvas = RgbaImage::from_pixel(width, height, Rgba { r: 0, g: 0, b: 0, a: 255 });
    let mut i: usize = 0;
    while i < tiles.len()
        invariant
            i <= tiles@.len(),
            forall|j: int| 0 <= j < tiles@.len() ==> usable(#[trigger] tiles@[j], region),
            0 < scale <= double::LIMIT,
            0 < width <= pixels::MAX_DIMENSION,
            0 < height <= pixels::MAX_DIMENSION,
            width * height * 4 <= 0x4000_0000,
            width == canvas_side(region.width, scale as int),
            height == canvas_side(region.height, scale as int),
            canvas.wf(),
            canvas.width == width,
            canvas.height == height,
            forall|x: int, y: int|
                canvas.has(x, y) ==> #[trigger] canvas.pixel(x, y) == painted(
                    tiles@,
                    region,
                    scale as int,
                    i as int,
                    x,
                    y,
                ),
        decreases tiles@.len() - i,
    {
        let image = tiles[i].0;
        let rect = tiles[i].1;
        assert(usable(tiles@[i as int], region));
        if let Some(overlap) = region.intersect(rect) {
            lay(&mut canvas, image, rect, region, overlap, scale, Ghost(tiles@), Ghost(i as int));
        }
        i = i + 1;
    }
    Ok(
        CapturedFrame {
            image: canvas,
            logical_width: region.width,
            logical_height: region.height,
        },
    )
}

/// Lays tile `at` on the canvas.
fn lay(
    canvas: &mut RgbaImage,
    image: &RgbaImage,
    rect: Rect,
    region: Rect,
    overlap: Rect,
    scale: u128,
    Ghost(tiles): Ghost<Seq<(&RgbaImage, Rect)>>,
    Ghost(at): Ghost<int>,
)
    requires
        0 <= at < tiles.len(),
        tiles[at] == (image, rect),
        usable(tiles[at], region),
        region.overlap(rect) == Some(overlap),
        0 < scale <= double::LIMIT,
        old(canvas).wf(),
        old(canvas).width <= pixels::MAX_DIMENSION,
        old(canvas).height <= pixels::MAX_DIMENSION,
        old(canvas).width * old(canvas).height * 4 <= 0x4000_0000,
        old(canvas).width == canvas_side(region.width, scale as int),
        old(canvas).height == canvas_side(region.height, scale as int),
        forall|x: int, y: int|
            old(canvas).has(x, y) ==> #[trigger] old(canvas).pixel(x, y) == painted(
                tiles,
                region,
                scale as int,
                at,
                x,
                y,
            ),
    ensures
        final(canvas).wf(),
        final(canvas).width == old(canvas).width,
        final(canvas).height == old(canvas).height,
        forall|x: int, y: int|
            final(canvas).has(x, y) ==> #[trigger] final(canvas).pixel(x, y) == painted(
                tiles,
                region,
                scale as int,
                at + 1,
                x,
                y,
            ),
{
    let local = Rect {
        x: (overlap.x as i64 - rect.x as i64) as i32,
        y: (overlap.y as i64 - rect.y as i64) as i32,
        width: overlap.width,
        height: overlap.height,
    };
    assert(local.overlap(Rect { x: 0, y: 0, ..rect }) == Some(local));
    let cropped = match frame::crop(image, rect, local) {
        Ok(cropped) => cropped,
        Err(_) => return ,
    };
    let x: u128 = double::multiply_round((overlap.x as i64 - region.x as i64) as u32, scale);
    let y: u128 = double::multiply_round((overlap.y as i64 - region.y as i64) as u32, scale);
    let right: u128 = double::multiply_round((overlap.right() - region.x as i64) as u32, scale);
    let bottom: u128 = double::multiply_round((overlap.bottom() - region.y as i64) as u32, scale);
    proof {
        double::lemma_scaled_order(
            overlap.x - region.x,
            overlap.end_x() - region.x,
            region.width as int,
            scale as int,
        );
        double::lemma_scaled_order(
            overlap.y - region.y,
            overlap.end_y() - region.y,
            region.height as int,
            scale as int,
        );
        frame::lemma_touched_pixels_fit((image.width, image.height), rect, local);
        lemma_sizes(
            image.width as int,
            cropped.image.width as int,
            canvas.width as int,
            canvas.height as int,
            right - x,
            bottom - y,
        );
    }
    let tile = codec::resize(&cropped.image, (right - x) as u32, (bottom - y) as u32);
    proof {
        let part = (frame::touched_pixels((image.width, image.height), rect, local)->0).0;
        let source = |i: int, j: int| image.pixel(part.x + i, part.y + j);
        lemma_bytes_of(cropped.image, source);
        assert(tile_bytes(tiles[at], overlap, right - x, bottom - y) == tile.data@);
    }
    codec::overlay(canvas, &tile, x as i64, y as i64);
}

proof fn lemma_sizes(
    image_width: int,
    part_width: int,
    canvas_width: int,
    canvas_height: int,
    width: int,
    height: int,
)
    requires
        0 <= part_width <= image_width,
        image_width * pixels::MAX_DIMENSION * 16 <= isize::MAX,
        0 <= width <= canvas_width,
        0 <= height <= canvas_height <= pixels::MAX_DIMENSION,
        canvas_width * canvas_height * 4 <= 0x4000_0000,
    ensures
        part_width * height * 16 <= isize::MAX,
        width * height * 4 <= 0x4000_0000,
{
    assert(part_width * height <= image_width * 32768) by (nonlinear_arith)
        requires
            0 <= part_width <= image_width,
            0 <= height <= 32768,
    ;
    assert(width * height <= canvas_width * canvas_height) by (nonlinear_arith)
        requires
            0 <= width <= canvas_width,
            0 <= height <= canvas_height,
    ;
}

/// Where no tile lies, the canvas is opaque black.
pub proof fn uncovered_parts_are_black(
    tiles: Seq<(&RgbaImage, Rect)>,
    region: Rect,
    count: int,
    x: int,
    y: int,
)
    requires
        0 <= count <= tiles.len(),
        forall|i: int|
            0 <= i < count ==> match region.overlap((#[trigger] tiles[i]).1) {
                Some(overlap) => {
                    let (left, top, right, bottom) = placement(
                        overlap,
                        region,
                        canvas_scale(tiles),
                    );
                    !(left <= x < right && top <= y < bottom)
                },
                None => true,
            },
    ensures
        painted(tiles, region, canvas_scale(tiles), count, x, y) == (Rgba {
            r: 0,
            g: 0,
            b: 0,
            a: 255,
        }),
    decreases count,
{
    if count > 0 {
        uncovered_parts_are_black(tiles, region, count - 1, x, y);
        assert(match region.overlap(tiles[count - 1].1) {
            Some(overlap) => {
                let (left, top, right, bottom) = placement(overlap, region, canvas_scale(tiles));
                !(left <= x < right && top <= y < bottom)
            },
            None => true,
        });
    }
}

proof fn lemma_pixel_of_bytes(
    width: int,
    height: int,
    source: spec_fn(int, int) -> Rgba,
    x: int,
    y: int,
)
    requires
        0 <= x < width,
        0 <= y < height,
    ensures
        raster::rgba_at(bytes_of(width, height, source), raster::offset(width, x, y)) == source(
            x,
            y,
        ),
{
    let i = raster::offset(width, x, y);
    raster::lemma_offset_bounds(width, height, x, y);
    assert(i / width == y && i % width == x) by {
        vstd::arithmetic::div_mod::lemma_fundamental_div_mod_converse(i, width, y, x);
        assert(y * width + x == width * y + x) by (nonlinear_arith);
    }
    let bytes = bytes_of(width, height, source);
    assert(forall|c: int| 0 <= c < 4 ==> #[trigger] bytes[4 * i + c] == source(x, y).bytes()[c]);
    assert(bytes[4 * i + 0] == source(x, y).r);
}

proof fn lemma_integer_scale(v: int, len: int, s: int)
    requires
        0 <= v,
        0 < s,
        0 < len,
    ensures
        v * (s * len) / len == v * s,
        frame::scaled_up(v, s * len, len) == v * s,
{
    assert(v * (s * len) == (v * s) * len) by (nonlinear_arith);
    vstd::arithmetic::div_mod::lemma_fundamental_div_mod_converse(
        v * (s * len),
        len,
        v * s,
        0,
    );
    vstd::arithmetic::div_mod::lemma_fundamental_div_mod_converse(
        v * (s * len) + len - 1,
        len,
        v * s,
        len - 1,
    );
}

proof fn lemma_integer_place(v: int, s: int, len: int)
    requires
        0 <= v <= u32::MAX,
        0 < s,
        0 < len,
        s * len <= codec::MAX_SCALED,
    ensures
        place(v, s * double::ONE) == v * s,
{
    assert(0 <= v * s < 0x20_0000_0000_0000) by (nonlinear_arith)
        requires
            0 <= v <= 0xffff_ffff,
            0 < s,
            0 < len,
            s * len <= 0x10_0000,
    ;
    double::lemma_times_whole(v, s);
}

/// At an integer canvas scale a tile captured at that scale is copied: the
/// canvas shows its opaque pixels unchanged, at their place in the layout.
pub proof fn tiles_at_an_integer_scale_are_copied(
    tiles: Seq<(&RgbaImage, Rect)>,
    region: Rect,
    count: int,
    s: int,
    x: int,
    y: int,
)
    requires
        0 < count <= tiles.len(),
        0 < s,
        canvas_scale(tiles) == s * double::ONE,
        usable(tiles[count - 1], region),
        tiles[count - 1].0.width == s * tiles[count - 1].1.width,
        tiles[count - 1].0.height == s * tiles[count - 1].1.height,
        region.overlap(tiles[count - 1].1) is Some,
        ({
            let (left, top, right, bottom) = placement(
                region.overlap(tiles[count - 1].1)->0,
                region,
                canvas_scale(tiles),
            );
            left <= x < right && top <= y < bottom
        }),
        ({
            let (image, rect) = tiles[count - 1];
            image.pixel(x + (region.x - rect.x) * s, y + (region.y - rect.y) * s).a == 255
        }),
    ensures
        ({
            let (image, rect) = tiles[count - 1];
            painted(tiles, region, canvas_scale(tiles), count, x, y) == image.pixel(
                x + (region.x - rect.x) * s,
                y + (region.y - rect.y) * s,
            )
        }),
{
    let (image, rect) = tiles[count - 1];
    let o = region.overlap(rect)->0;
    let w = rect.width as int;
    let h = rect.height as int;
    lemma_integer_place(o.x - region.x, s, w);
    lemma_integer_place(o.y - region.y, s, h);
    lemma_integer_place(o.end_x() - region.x, s, w);
    lemma_integer_place(o.end_y() - region.y, s, h);
    lemma_integer_scale(o.x - rect.x, w, s);
    lemma_integer_scale(o.y - rect.y, h, s);
    lemma_integer_scale(o.end_x() - rect.x, w, s);
    lemma_integer_scale(o.end_y() - rect.y, h, s);
    let local = Rect { x: (o.x - rect.x) as i32, y: (o.y - rect.y) as i32, ..o };
    assert(local.overlap(Rect { x: 0, y: 0, ..rect }) == Some(local));
    let (left, top, right, bottom) = placement(o, region, canvas_scale(tiles));
    let part = (frame::touched_pixels((image.width, image.height), rect, local)->0).0;
    let ox = o.x - rect.x;
    let oy = o.y - rect.y;
    assert((o.end_x() - rect.x) * s <= s * w && 0 <= ox * s <= (o.end_x() - rect.x) * s
        && (o.end_x() - rect.x) * s - ox * s == o.width * s) by (nonlinear_arith)
        requires
            0 <= ox,
            ox == o.x - rect.x,
            o.end_x() == o.x + o.width,
            o.end_x() - rect.x <= w,
            0 < s,
            0 <= o.width,
    ;
    assert((o.end_y() - rect.y) * s <= s * h && 0 <= oy * s <= (o.end_y() - rect.y) * s
        && (o.end_y() - rect.y) * s - oy * s == o.height * s) by (nonlinear_arith)
        requires
            0 <= oy,
            oy == o.y - rect.y,
            o.end_y() == o.y + o.height,
            o.end_y() - rect.y <= h,
            0 < s,
            0 <= o.height,
    ;
    assert((o.end_x() - region.x) * s - (o.x - region.x) * s == o.width * s) by (nonlinear_arith)
        requires
            o.end_x() == o.x + o.width,
    ;
    assert((o.end_y() - region.y) * s - (o.y - region.y) * s == o.height * s) by (nonlinear_arith)
        requires
            o.end_y() == o.y + o.height,
    ;
    assert(part.x == ox * s);
    assert(part.y == oy * s);
    assert(part.width == right - left);
    assert(part.height == bottom - top);
    let source = |i: int, j: int| image.pixel(part.x + i, part.y + j);
    lemma_pixel_of_bytes(part.width as int, part.height as int, source, x - left, y - top);
    assert(part.x + (x - left) == x + (region.x - rect.x) * s) by (nonlinear_arith)
        requires
            part.x == (o.x - rect.x) * s,
            left == (o.x - region.x) * s,
    ;
    assert(part.y + (y - top) == y + (region.y - rect.y) * s) by (nonlinear_arith)
        requires
            part.y == (o.y - rect.y) * s,
            top == (o.y - region.y) * s,
    ;
}

/// Two tiles have the same shape, lie at the same place, and agree wherever
/// the region shows something of them.
pub open spec fn alike(a: (&RgbaImage, Rect), b: (&RgbaImage, Rect), region: Rect) -> bool {
    &&& a.1 == b.1
    &&& a.0.width == b.0.width
    &&& a.0.height == b.0.height
    &&& match region.overlap(a.1) {
        Some(overlap) => {
            let local = Rect {
                x: (overlap.x - a.1.x) as i32,
                y: (overlap.y - a.1.y) as i32,
                ..overlap
            };
            match frame::touched_pixels((a.0.width, a.0.height), a.1, local) {
                Some((part, _)) => forall|x: int, y: int|
                    part.x <= x < part.x + part.width && part.y <= y < part.y + part.height
                        ==> #[trigger] a.0.pixel(x, y) == b.0.pixel(x, y),
                None => true,
            }
        },
        None => true,
    }
}

proof fn lemma_same_scale(a: Seq<(&RgbaImage, Rect)>, b: Seq<(&RgbaImage, Rect)>)
    requires
        a.len() == b.len(),
        forall|i: int|
            0 <= i < a.len() ==> (#[trigger] a[i]).0.width == b[i].0.width && a[i].1.width
                == b[i].1.width,
    ensures
        canvas_scale(a) == canvas_scale(b),
    decreases a.len(),
{
    if a.len() > 0 {
        assert forall|i: int| 0 <= i < a.drop_last().len() implies (
        #[trigger] a.drop_last()[i]).0.width == b.drop_last()[i].0.width && a.drop_last()[i].1.width
            == b.drop_last()[i].1.width by {
            assert(a[i].0.width == b[i].0.width);
        }
        lemma_same_scale(a.drop_last(), b.drop_last());
        assert(a[a.len() - 1].0.width == b[b.len() - 1].0.width);
    }
}

/// At every scale a tile shows only its own part of the layout: pixels that
/// the region does not touch change nothing.
pub proof fn only_the_region_is_shown(
    tiles: Seq<(&RgbaImage, Rect)>,
    others: Seq<(&RgbaImage, Rect)>,
    region: Rect,
    count: int,
    x: int,
    y: int,
)
    requires
        tiles.len() == others.len(),
        0 <= count <= tiles.len(),
        forall|i: int| 0 <= i < tiles.len() ==> alike(#[trigger] tiles[i], others[i], region),
        forall|i: int| 0 <= i < tiles.len() ==> usable(#[trigger] tiles[i], region),
    ensures
        canvas_scale(tiles) == canvas_scale(others),
        painted(tiles, region, canvas_scale(tiles), count, x, y) == painted(
            others,
            region,
            canvas_scale(others),
            count,
            x,
            y,
        ),
    decreases count,
{
    assert forall|i: int| 0 <= i < tiles.len() implies (#[trigger] tiles[i]).0.width
        == others[i].0.width && tiles[i].1.width == others[i].1.width by {
        assert(alike(tiles[i], others[i], region));
    }
    lemma_same_scale(tiles, others);
    if count > 0 {
        only_the_region_is_shown(tiles, others, region, count - 1, x, y);
        let a = tiles[count - 1];
        let b = others[count - 1];
        assert(alike(a, b, region));
        assert(usable(a, region));
        if let Some(overlap) = region.overlap(a.1) {
            let local = Rect {
                x: (overlap.x - a.1.x) as i32,
                y: (overlap.y - a.1.y) as i32,
                ..overlap
            };
            let (left, top, right, bottom) = placement(overlap, region, canvas_scale(tiles));
            let part = (frame::touched_pixels((a.0.width, a.0.height), a.1, local)->0).0;
            let here = |i: int, j: int| a.0.pixel(part.x + i, part.y + j);
            let there = |i: int, j: int| b.0.pixel(part.x + i, part.y + j);
            assert(local.overlap(Rect { x: 0, y: 0, ..a.1 }) == Some(local));
            let (w, h) = (part.width as int, part.height as int);
            assert forall|k: int| 0 <= k < w * h * 4 implies bytes_of(w, h, here)[k] == bytes_of(
                w,
                h,
                there,
            )[k] by {
                let i = k / 4;
                assert(0 < w) by (nonlinear_arith)
                    requires
                        0 <= k < w * h * 4,
                        0 <= w,
                        0 <= h,
                ;
                assert(0 <= i % w < w && 0 <= i / w < h) by (nonlinear_arith)
                    requires
                        0 <= i < w * h,
                        0 < w,
                ;
                assert(a.0.pixel(part.x + i % w, part.y + i / w) == b.0.pixel(
                    part.x + i % w,
                    part.y + i / w,
                ));
            }
            assert(bytes_of(w, h, here) =~= bytes_of(w, h, there));
            assert(tile_bytes(a, overlap, right - left, bottom - top) == tile_bytes(
                b,
                overlap,
                right - left,
                bottom - top,
            ));
        }
    }
}

/// The rectangle, moved.
pub open spec fn moved(rect: Rect, dx: int, dy: int) -> Rect {
    Rect { x: (rect.x + dx) as i32, y: (rect.y + dy) as i32, ..rect }
}

/// The rectangle can be moved that far.
pub open spec fn movable(rect: Rect, dx: int, dy: int) -> bool {
    i32::MIN <= rect.x + dx <= i32::MAX && i32::MIN <= rect.y + dy <= i32::MAX
}

/// Only where things lie to each other matters: moving the region and all
/// tiles together gives the same image.
pub proof fn moving_the_layout_changes_nothing(
    tiles: Seq<(&RgbaImage, Rect)>,
    others: Seq<(&RgbaImage, Rect)>,
    region: Rect,
    dx: int,
    dy: int,
    count: int,
    x: int,
    y: int,
)
    requires
        tiles.len() == others.len(),
        0 <= count <= tiles.len(),
        movable(region, dx, dy),
        forall|i: int|
            0 <= i < tiles.len() ==> movable((#[trigger] tiles[i]).1, dx, dy) && others[i] == (
                tiles[i].0,
                moved(tiles[i].1, dx, dy),
            ),
        forall|i: int| 0 <= i < tiles.len() ==> usable(#[trigger] tiles[i], region),
    ensures
        canvas_scale(tiles) == canvas_scale(others),
        painted(tiles, region, canvas_scale(tiles), count, x, y) == painted(
            others,
            moved(region, dx, dy),
            canvas_scale(others),
            count,
            x,
            y,
        ),
    decreases count,
{
    lemma_same_scale(tiles, others);
    if count > 0 {
        moving_the_layout_changes_nothing(tiles, others, region, dx, dy, count - 1, x, y);
        let a = tiles[count - 1];
        let b = others[count - 1];
        assert(usable(a, region));
        let there = moved(region, dx, dy);
        if let Some(overlap) = region.overlap(a.1) {
            assert(there.overlap(b.1) == Some(moved(overlap, dx, dy)));
            let (left, top, right, bottom) = placement(overlap, region, canvas_scale(tiles));
            let again = moved(overlap, dx, dy);
            let far = placement(again, there, canvas_scale(others));
            assert(far == (left, top, right, bottom));
            let local = Rect {
                x: (overlap.x - a.1.x) as i32,
                y: (overlap.y - a.1.y) as i32,
                ..overlap
            };
            assert(local.overlap(Rect { x: 0, y: 0, ..a.1 }) == Some(local));
            assert(Rect { x: 0, y: 0, ..a.1 } == Rect { x: 0, y: 0, ..b.1 });
            assert(tile_bytes(a, overlap, right - left, bottom - top) == tile_bytes(
                b,
                again,
                right - left,
                bottom - top,
            ));
        } else {
            assert(there.overlap(b.1) is None);
        }
    }
}

/// A tile is laid as its crop, resized to its place: what `frame::crop` gives of
/// the tile for the region is what the canvas shows, over what lay there.
pub proof fn tiles_are_laid_as_their_crops(
    tiles: Seq<(&RgbaImage, Rect)>,
    region: Rect,
    scale: int,
    count: int,
    cropped: CapturedFrame,
    x: int,
    y: int,
)
    requires
        0 < count <= tiles.len(),
        usable(tiles[count - 1], region),
        region.overlap(tiles[count - 1].1) is Some,
        ({
            let (image, rect) = tiles[count - 1];
            let overlap = region.overlap(rect)->0;
            let local = moved(overlap, -(rect.x as int), -(rect.y as int));
            match frame::touched_pixels((image.width, image.height), rect, local) {
                Some((part, clipped)) => frame::shows(
                    cropped,
                    |i: int, j: int| image.pixel(i, j),
                    part,
                    clipped,
                ),
                None => false,
            }
        }),
    ensures
        ({
            let overlap = region.overlap(tiles[count - 1].1)->0;
            let below = painted(tiles, region, scale, count - 1, x, y);
            let (left, top) = (
                place(overlap.x - region.x, scale),
                place(overlap.y - region.y, scale),
            );
            let (width, height) = (
                place(overlap.end_x() - region.x, scale) - left,
                place(overlap.end_y() - region.y, scale) - top,
            );
            let resized = codec::scaled(
                cropped.image.data@,
                cropped.image.width as int,
                cropped.image.height as int,
                width,
                height,
            );
            painted(tiles, region, scale, count, x, y) == if left <= x < left + width && top <= y
                < top + height {
                codec::laid_over(
                    below,
                    raster::rgba_at(resized, raster::offset(width, x - left, y - top)),
                )
            } else {
                below
            }
        }),
{
    let (image, rect) = tiles[count - 1];
    let overlap = region.overlap(rect)->0;
    let local = Rect { x: (overlap.x - rect.x) as i32, y: (overlap.y - rect.y) as i32, ..overlap };
    let part = (frame::touched_pixels((image.width, image.height), rect, local)->0).0;
    let source = |i: int, j: int| image.pixel(part.x + i, part.y + j);
    assert(local == moved(overlap, -(rect.x as int), -(rect.y as int)));
    lemma_bytes_of(cropped.image, source);
}

/// At an integer scale the canvas has that many pixels for each logical unit,
/// and every place lies at that many times its distance.
pub proof fn integer_canvases_have_their_scale(length: u32, s: int)
    requires
        0 < s <= codec::MAX_SCALED,
        length * s <= u32::MAX,
    ensures
        canvas_side(length, s * double::ONE) == length * s,
        place(length as int, s * double::ONE) == length * s,
{
    let n = length * s;
    assert(0 <= n) by (nonlinear_arith)
        requires
            n == length * s,
            0 <= length,
            0 < s,
    ;
    double::lemma_times_whole(length as int, s);
    assert((n * double::ONE + double::ONE - 1) / double::ONE as int == n);
}

} // verus!
