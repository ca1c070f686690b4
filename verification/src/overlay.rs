//! The picture of a region selection over one output: dim outside, clear
//! inside, with a border, redrawn only where it changes.

use core::ops::Range;
use vstd::prelude::*;

use crate::double;
use crate::output::Output;
use crate::pixels;
use crate::pixels::{BufferSpec, Format};
use crate::rect::Rect;

verus! {

/// A half-open range of buffer pixels.
#[derive(Debug, Clone, Copy, PartialEq, Eq, Structural)]
pub struct Span {
    pub start: u32,
    pub end: u32,
}

impl Span {
    pub open spec fn has(self, p: int) -> bool {
        self.start <= p < self.end
    }
}

/// Buffer-pixel edges of the selection on one overlay: the selection, and the
/// part inside its border.
#[derive(Debug, Clone, Copy, PartialEq, Eq, Structural)]
pub struct Spans {
    pub x: Span,
    pub y: Span,
    pub inner_x: Span,
    pub inner_y: Span,
}

/// An overlay image; `None` is dim throughout.
pub type Frame = Option<Spans>;

/// What a pixel of an overlay shows.
#[derive(Debug, Clone, Copy, PartialEq, Eq, Structural)]
pub enum Shade {
    Dim,
    Border,
    Clear,
}

impl Shade {
    /// The bytes of the ARGB pixel.
    pub open spec fn bytes(self) -> Seq<u8> {
        match self {
            Shade::Dim => seq![0u8, 0u8, 0u8, 0x66u8],
            Shade::Border => seq![0xffu8, 0xaau8, 0x82u8, 0xffu8],
            Shade::Clear => seq![0u8, 0u8, 0u8, 0u8],
        }
    }
}

/// The border's width in logical units.
pub const BORDER_WIDTH: i64 = 2;

/// What a frame shows at a pixel.
pub open spec fn shade(frame: Frame, x: int, y: int) -> Shade {
    match frame {
        Some(s) => if s.x.has(x) && s.y.has(y) {
            if s.inner_x.has(x) && s.inner_y.has(y) {
                Shade::Clear
            } else {
                Shade::Border
            }
        } else {
            Shade::Dim
        },
        None => Shade::Dim,
    }
}

/// The first buffer pixel in `0..=len` whose logical coordinate reaches `at`,
/// with `n` pixels for every `d` logical units from `origin` on, as doubles
/// give it.
pub open spec fn edge_at(origin: int, n: int, d: int, len: int, at: int) -> int {
    if at <= origin {
        0
    } else {
        let edge = double::product_up(at - origin, n, d);
        if edge > len {
            len
        } else {
            edge
        }
    }
}

/// The selection on an overlay whose buffer covers `logical`.
pub open spec fn selected(spec: BufferSpec, logical: Rect, selection: Option<Rect>) -> Frame {
    match selection {
        None => None,
        Some(r) => {
            let n = spec.width as int;
            let d = logical.width as int;
            let column = |at: int| edge_at(logical.x as int, n, d, spec.width as int, at) as u32;
            let row = |at: int| edge_at(logical.y as int, n, d, spec.height as int, at) as u32;
            let x = Span { start: column(r.x as int), end: column(r.end_x()) };
            let y = Span { start: row(r.y as int), end: row(r.end_y()) };
            if x.start < x.end && y.start < y.end {
                Some(
                    Spans {
                        x,
                        y,
                        inner_x: Span {
                            start: column(r.x + BORDER_WIDTH),
                            end: column(r.end_x() - BORDER_WIDTH),
                        },
                        inner_y: Span {
                            start: row(r.y + BORDER_WIDTH),
                            end: row(r.end_y() - BORDER_WIDTH),
                        },
                    },
                )
            } else {
                None
            }
        },
    }
}

/// Where the scale is a whole number of parts, 2^`j` of them to one, a pixel
/// lies before the edge exactly when its coordinate lies before `at`.
pub proof fn lemma_edge(origin: int, n: int, d: int, len: int, at: int, j: nat, p: int)
    requires
        0 < n <= u32::MAX,
        0 < d <= u32::MAX,
        0 <= len <= u32::MAX,
        0 <= p < len,
        j <= 20,
        n * vstd::arithmetic::power2::pow2(j) % d == 0,
    ensures
        0 <= edge_at(origin, n, d, len, at) <= len,
        p < edge_at(origin, n, d, len, at) <==> origin * n + p * d < at * n,
{
    let v = at - origin;
    let parts = n * vstd::arithmetic::power2::pow2(j);
    assert((at - origin) * n == at * n - origin * n) by (nonlinear_arith);
    if v <= 0 {
        assert(v * n <= 0 && 0 <= p * d) by (nonlinear_arith)
            requires
                v <= 0,
                0 < n,
                0 <= p,
                0 < d,
        ;
    } else {
        let a = parts / d;
        assert(parts == a * d) by (nonlinear_arith)
            requires
                a == parts / d,
                parts % d == 0,
                0 < d,
        ;
        double::lemma_product_exact(v, n, d, a, j, len);
        let x = v * n;
        let q = (x + d - 1) / d;
        assert(d * q <= x + d - 1 < d * q + d) by (nonlinear_arith)
            requires
                q == (x + d - 1) / d,
                0 < d,
        ;
        assert(p < q <==> p * d < x) by (nonlinear_arith)
            requires
                d * q <= x + d - 1 < d * q + d,
                0 < d,
        ;
        assert(q >= 0) by (nonlinear_arith)
            requires
                d * q + d > x + d - 1,
                x >= 0,
                v > 0,
                x == v * n,
                0 < n,
                0 < d,
        ;
    }
}

/// What a pixel of the overlay is meant to show, by its own coordinate: a
/// pixel stands for the point where it starts.
pub open spec fn meant(spec: BufferSpec, logical: Rect, selection: Option<Rect>, x: int, y: int) -> Shade {
    match selection {
        None => Shade::Dim,
        Some(r) => {
            let n = spec.width as int;
            let d = logical.width as int;
            let gx = logical.x * n + x * d;
            let gy = logical.y * n + y * d;
            let inside = r.x * n <= gx < r.end_x() * n && r.y * n <= gy < r.end_y() * n;
            let border = gx < (r.x + BORDER_WIDTH) * n || gx >= (r.end_x() - BORDER_WIDTH) * n
                || gy < (r.y + BORDER_WIDTH) * n || gy >= (r.end_y() - BORDER_WIDTH) * n;
            if !inside {
                Shade::Dim
            } else if border {
                Shade::Border
            } else {
                Shade::Clear
            }
        },
    }
}

/// Drawing by spans shows at every pixel what testing the pixel's own
/// coordinate would, where the scale is a whole number of parts, 2^`j` of them
/// to one: at every whole scale, and at halves, quarters and so on.
pub proof fn spans_show_what_every_pixel_is_meant_to(
    spec: BufferSpec,
    logical: Rect,
    selection: Option<Rect>,
    j: nat,
    x: int,
    y: int,
)
    requires
        0 < spec.width,
        0 < logical.width,
        j <= 20,
        spec.width * vstd::arithmetic::power2::pow2(j) % (logical.width as int) == 0,
        0 <= x < spec.width,
        0 <= y < spec.height,
    ensures
        shade(selected(spec, logical, selection), x, y) == meant(spec, logical, selection, x, y),
{
    if let Some(r) = selection {
        let n = spec.width as int;
        let d = logical.width as int;
        let w = spec.width as int;
        let h = spec.height as int;
        lemma_edge(logical.x as int, n, d, w, r.x as int, j, x);
        lemma_edge(logical.x as int, n, d, w, r.end_x(), j, x);
        lemma_edge(logical.x as int, n, d, w, r.x + BORDER_WIDTH, j, x);
        lemma_edge(logical.x as int, n, d, w, r.end_x() - BORDER_WIDTH, j, x);
        lemma_edge(logical.y as int, n, d, h, r.y as int, j, y);
        lemma_edge(logical.y as int, n, d, h, r.end_y(), j, y);
        lemma_edge(logical.y as int, n, d, h, r.y + BORDER_WIDTH, j, y);
        lemma_edge(logical.y as int, n, d, h, r.end_y() - BORDER_WIDTH, j, y);
    }
}

fn edge(origin: i32, n: u32, d: u32, len: u32, at: i64) -> (r: u32)
    requires
        0 < d,
        -0x1_0000_0000 <= at <= 0x2_0000_0000,
    ensures
        r == edge_at(origin as int, n as int, d as int, len as int, at as int),
{
    let distance: i64 = at - origin as i64;
    if distance <= 0 {
        return 0;
    }
    double::scale_up(distance as u64, n, d, len)
}

pub fn overlay_frame(spec: BufferSpec, logical: Rect, selection: Option<Rect>) -> (r: Frame)
    requires
        0 < logical.width,
    ensures
        r == selected(spec, logical, selection),
{
    let r = match selection {
        Some(r) => r,
        None => return None,
    };
    let n: u32 = spec.width;
    let d: u32 = logical.width;
    let (left, right): (i64, i64) = (r.x as i64, r.right());
    let (top, bottom): (i64, i64) = (r.y as i64, r.bottom());
    let x = Span {
        start: edge(logical.x, n, d, spec.width, left),
        end: edge(logical.x, n, d, spec.width, right),
    };
    let y = Span {
        start: edge(logical.y, n, d, spec.height, top),
        end: edge(logical.y, n, d, spec.height, bottom),
    };
    if !(x.start < x.end && y.start < y.end) {
        return None;
    }
    Some(
        Spans {
            x,
            y,
            inner_x: Span {
                start: edge(logical.x, n, d, spec.width, left + BORDER_WIDTH),
                end: edge(logical.x, n, d, spec.width, right - BORDER_WIDTH),
            },
            inner_y: Span {
                start: edge(logical.y, n, d, spec.height, top + BORDER_WIDTH),
                end: edge(logical.y, n, d, spec.height, bottom - BORDER_WIDTH),
            },
        },
    )
}

/// Byte `c` of row `y`: four bytes for each pixel, then zeros up to the stride.
pub open spec fn row_byte(spec: BufferSpec, frame: Frame, y: int, c: int) -> u8 {
    if c < spec.width * 4 {
        shade(frame, c / 4, y).bytes()[c % 4]
    } else {
        0
    }
}

/// The bytes of rows `start..end`.
pub open spec fn drawn_rows(spec: BufferSpec, frame: Frame, start: int, end: int) -> Seq<u8> {
    Seq::new(
        ((end - start) * spec.stride) as nat,
        |i: int| row_byte(spec, frame, start + i / (spec.stride as int), i % (spec.stride as int)),
    )
}

fn shade_at(frame: Frame, x: u32, y: u32) -> (r: Shade)
    ensures
        r == shade(frame, x as int, y as int),
{
    match frame {
        Some(s) => if s.x.start <= x && x < s.x.end && s.y.start <= y && y < s.y.end {
            if s.inner_x.start <= x && x < s.inner_x.end && s.inner_y.start <= y && y
                < s.inner_y.end {
                Shade::Clear
            } else {
                Shade::Border
            }
        } else {
            Shade::Dim
        },
        None => Shade::Dim,
    }
}

fn push_shade(out: &mut Vec<u8>, shade: Shade)
    ensures
        final(out)@ == old(out)@ + shade.bytes(),
{
    let pixel: [u8; 4] = match shade {
        Shade::Dim => [0, 0, 0, 0x66],
        Shade::Border => [0xff, 0xaa, 0x82, 0xff],
        Shade::Clear => [0, 0, 0, 0],
    };
    out.push(pixel[0]);
    out.push(pixel[1]);
    out.push(pixel[2]);
    out.push(pixel[3]);
    assert(out@ =~= old(out)@ + shade.bytes());
}

/// Appends row `y`.
fn push_row(spec: BufferSpec, frame: Frame, y: u32, out: &mut Vec<u8>)
    requires
        spec.width * 4 <= spec.stride,
    ensures
        final(out)@ == old(out)@ + Seq::new(
            spec.stride as nat,
            |c: int| row_byte(spec, frame, y as int, c),
        ),
{
    let ghost before = out@;
    let mut x: u32 = 0;
    while x < spec.width
        invariant
            x <= spec.width,
            spec.width * 4 <= spec.stride,
            out@ == before + Seq::new(
                (x * 4) as nat,
                |c: int| row_byte(spec, frame, y as int, c),
            ),
        decreases spec.width - x,
    {
        let ghost now = out@;
        push_shade(out, shade_at(frame, x, y));
        x = x + 1;
        assert(out@ =~= before + Seq::new(
            (x * 4) as nat,
            |c: int| row_byte(spec, frame, y as int, c),
        ));
    }
    let mut c: u32 = spec.width * 4;
    while c < spec.stride
        invariant
            spec.width * 4 <= c <= spec.stride,
            out@ == before + Seq::new(c as nat, |c: int| row_byte(spec, frame, y as int, c)),
        decreases spec.stride - c,
    {
        out.push(0);
        c = c + 1;
        assert(out@ =~= before + Seq::new(
            c as nat,
            |c: int| row_byte(spec, frame, y as int, c),
        ));
    }
}

/// Draws whole `rows` of `frame` into `out`, in place of what it held.
pub fn draw_rows(spec: BufferSpec, frame: Frame, rows: Range<u32>, out: &mut Vec<u8>)
    requires
        0 < spec.stride,
        spec.width * 4 <= spec.stride,
        rows.start <= rows.end,
    ensures
        final(out)@ == drawn_rows(spec, frame, rows.start as int, rows.end as int),
{
    out.clear();
    let ghost start = rows.start as int;
    let ghost stride = spec.stride as int;
    let mut y: u32 = rows.start;
    assert((y - start) * stride == 0) by (nonlinear_arith)
        requires
            y == start,
    ;
    assert(out@ =~= drawn_rows(spec, frame, start, y as int));
    while y < rows.end
        invariant
            0 < stride,
            stride == spec.stride,
            start == rows.start,
            spec.width * 4 <= spec.stride,
            rows.start <= y <= rows.end,
            out@ == drawn_rows(spec, frame, start, y as int),
        decreases rows.end - y,
    {
        push_row(spec, frame, y, out);
        y = y + 1;
        proof {
            let k = y - 1 - start;
            let whole = drawn_rows(spec, frame, start, y as int);
            assert((k + 1) * stride == k * stride + stride) by (nonlinear_arith);
            assert(0 <= k * stride) by (nonlinear_arith)
                requires
                    0 <= k,
                    0 < stride,
            ;
            assert forall|i: int| 0 <= i < whole.len() implies out@[i] == whole[i] by {
                if i >= k * stride {
                    let c = i - k * stride;
                    assert(k * stride + c == stride * k + c) by (nonlinear_arith);
                    vstd::arithmetic::div_mod::lemma_fundamental_div_mod_converse(i, stride, k, c);
                } else {
                    assert(drawn_rows(spec, frame, start, y - 1)[i] == whole[i]);
                }
            }
            assert(out@ =~= whole);
        }
    }
}

/// A box of buffer pixels, half-open on both axes.
#[derive(Debug, Clone, Copy, PartialEq, Eq, Structural)]
pub struct DirtyBox {
    pub x0: u32,
    pub y0: u32,
    pub x1: u32,
    pub y1: u32,
}

impl DirtyBox {
    pub open spec fn has(self, x: int, y: int) -> bool {
        self.x0 <= x < self.x1 && self.y0 <= y < self.y1
    }
}

/// The box around the selections of two different frames.
pub open spec fn difference(a: Frame, b: Frame) -> Option<DirtyBox> {
    if a == b {
        None
    } else {
        match (a, b) {
            (Some(p), Some(q)) => Some(
                DirtyBox {
                    x0: if p.x.start <= q.x.start { p.x.start } else { q.x.start },
                    y0: if p.y.start <= q.y.start { p.y.start } else { q.y.start },
                    x1: if p.x.end >= q.x.end { p.x.end } else { q.x.end },
                    y1: if p.y.end >= q.y.end { p.y.end } else { q.y.end },
                },
            ),
            (Some(s), None) | (None, Some(s)) => Some(
                DirtyBox { x0: s.x.start, y0: s.y.start, x1: s.x.end, y1: s.y.end },
            ),
            (None, None) => None,
        }
    }
}

fn outer(s: Spans) -> (r: DirtyBox)
    ensures
        r == (DirtyBox { x0: s.x.start, y0: s.y.start, x1: s.x.end, y1: s.y.end }),
{
    DirtyBox { x0: s.x.start, y0: s.y.start, x1: s.x.end, y1: s.y.end }
}

/// The buffer-pixel box outside which two frames are the same, or `None` when
/// they are identical.
pub fn changed(a: Frame, b: Frame) -> (r: Option<DirtyBox>)
    ensures
        r == difference(a, b),
{
    match (a, b) {
        (Some(p), Some(q)) => if p == q {
            None
        } else {
            Some(
                DirtyBox {
                    x0: if p.x.start <= q.x.start { p.x.start } else { q.x.start },
                    y0: if p.y.start <= q.y.start { p.y.start } else { q.y.start },
                    x1: if p.x.end >= q.x.end { p.x.end } else { q.x.end },
                    y1: if p.y.end >= q.y.end { p.y.end } else { q.y.end },
                },
            )
        },
        (Some(s), None) => Some(outer(s)),
        (None, Some(s)) => Some(outer(s)),
        (None, None) => None,
    }
}

/// Two frames show the same outside the box of their difference.
pub proof fn frames_agree_outside_their_difference(a: Frame, b: Frame, x: int, y: int)
    requires
        match difference(a, b) {
            Some(dirty) => !dirty.has(x, y),
            None => true,
        },
    ensures
        shade(a, x, y) == shade(b, x, y),
{
}

/// The rows of a buffer holding `held` that differ from `frame`; all of them
/// when what the buffer holds is unknown.
pub open spec fn stale_span(held: Option<Frame>, frame: Frame, height: u32) -> (u32, u32) {
    match held {
        None => (0, height),
        Some(held) => match difference(held, frame) {
            Some(dirty) => (dirty.y0, dirty.y1),
            None => (0, 0),
        },
    }
}

pub fn stale_rows(held: Option<Frame>, frame: Frame, height: u32) -> (r: Range<u32>)
    ensures
        (r.start, r.end) == stale_span(held, frame, height),
{
    match held {
        None => Range { start: 0, end: height },
        Some(held) => match changed(held, frame) {
            Some(dirty) => Range { start: dirty.y0, end: dirty.y1 },
            None => Range { start: 0, end: 0 },
        },
    }
}

/// A buffer shows a frame, in every row.
pub open spec fn buffer_shows(bytes: Seq<u8>, spec: BufferSpec, frame: Frame) -> bool {
    bytes == drawn_rows(spec, frame, 0, spec.height as int)
}

/// A buffer's bytes with rows `start..end` replaced.
pub open spec fn with_rows(
    bytes: Seq<u8>,
    spec: BufferSpec,
    start: int,
    end: int,
    rows: Seq<u8>,
) -> Seq<u8> {
    Seq::new(
        bytes.len(),
        |i: int|
            if start * spec.stride <= i < end * spec.stride {
                rows[i - start * spec.stride]
            } else {
                bytes[i]
            },
    )
}

/// Redrawing only the stale rows leaves the buffer showing exactly the new
/// frame, whatever it held before.
pub proof fn redrawing_stale_rows_makes_the_buffer_exact(
    bytes: Seq<u8>,
    spec: BufferSpec,
    held: Option<Frame>,
    frame: Frame,
)
    requires
        spec.size() is Ok,
        bytes.len() == spec.stride * spec.height,
        held is Some ==> buffer_shows(bytes, spec, held->0),
        frame is Some ==> (frame->0).y.end <= spec.height,
        held matches Some(Some(s)) ==> s.y.end <= spec.height,
    ensures
        ({
            let (start, end) = stale_span(held, frame, spec.height);
            let rows = drawn_rows(spec, frame, start as int, end as int);
            buffer_shows(with_rows(bytes, spec, start as int, end as int, rows), spec, frame)
        }),
{
    let (start, end) = stale_span(held, frame, spec.height);
    let start = start as int;
    let end = end as int;
    let stride = spec.stride as int;
    let h = spec.height as int;
    let rows = drawn_rows(spec, frame, start, end);
    let after = with_rows(bytes, spec, start, end, rows);
    let whole = drawn_rows(spec, frame, 0, h);
    let w = spec.width as int;
    let n = pixels::pixel_size(spec.format);
    assert(stride > 0) by (nonlinear_arith)
        requires
            w * n <= stride,
            w > 0,
            n > 0,
    ;
    assert((h - 0) * stride == stride * h) by (nonlinear_arith);
    assert forall|i: int| 0 <= i < whole.len() implies after[i] == whole[i] by {
        let y = i / stride;
        let c = i % stride;
        assert(y * stride + c == i && 0 <= c < stride && 0 <= y < h) by (nonlinear_arith)
            requires
                y == i / stride,
                c == i % stride,
                0 <= i < stride * h,
                0 < stride,
        ;
        if start * stride <= i < end * stride {
            assert(start <= y < end) by (nonlinear_arith)
                requires
                    start * stride <= y * stride + c < end * stride,
                    0 <= c < stride,
            ;
            let j = i - start * stride;
            assert(j == stride * (y - start) + c) by (nonlinear_arith)
                requires
                    j == y * stride + c - start * stride,
            ;
            vstd::arithmetic::div_mod::lemma_fundamental_div_mod_converse(j, stride, y - start, c);
            assert(0 <= j < (end - start) * stride) by (nonlinear_arith)
                requires
                    start * stride <= i < end * stride,
                    j == i - start * stride,
            ;
        } else {
            assert(!(start <= y < end)) by (nonlinear_arith)
                requires
                    !(start * stride <= y * stride + c < end * stride),
                    0 <= c < stride,
            ;
            let old = held->0;
            assert(bytes[i] == drawn_rows(spec, old, 0, h)[i]);
            if c < spec.width * 4 {
                frames_agree_outside_their_difference(old, frame, c / 4, y);
            }
        }
    }
    assert(after =~= whole);
}

/// The items at the positions where `mask` is set, in order.
pub open spec fn selected_by<T>(items: Seq<T>, mask: Seq<bool>) -> Seq<T>
    decreases mask.len(),
{
    if mask.len() == 0 || items.len() == 0 {
        Seq::empty()
    } else {
        let fewer = selected_by(items.drop_last(), mask.drop_last());
        if mask.last() {
            fewer.push(items.last())
        } else {
            fewer
        }
    }
}

/// `mask` holds the answers of `keep` for the items.
pub open spec fn answers<T, F: Fn(&T) -> bool>(keep: F, items: Seq<T>, mask: Seq<bool>) -> bool {
    &&& mask.len() == items.len()
    &&& forall|i: int| 0 <= i < items.len() ==> call_ensures(keep, (&#[trigger] items[i],), mask[i])
}

/// Removes the items `keep` rejects, and the entries at the same positions of
/// `parallel`.
pub fn retain_parallel<T, U, F: Fn(&T) -> bool>(
    items: &mut Vec<T>,
    parallel: &mut Vec<U>,
    keep: F,
)
    requires
        old(items)@.len() == old(parallel)@.len(),
        forall|i: int|
            0 <= i < old(items)@.len() ==> call_requires(keep, (&#[trigger] old(items)@[i],)),
    ensures
        exists|mask: Seq<bool>|
            #[trigger] answers(keep, old(items)@, mask) && final(items)@ == selected_by(
                old(items)@,
                mask,
            ) && final(parallel)@ == selected_by(old(parallel)@, mask),
{
    let ghost all = items@;
    let ghost others = parallel@;
    let ghost mut mask: Seq<bool> = Seq::empty();
    let mut i: usize = 0;
    while i < items.len()
        invariant
            all.len() == others.len(),
            mask.len() <= all.len(),
            items@.len() == parallel@.len(),
            items@ == selected_by(all.take(mask.len() as int), mask) + all.skip(mask.len() as int),
            parallel@ == selected_by(others.take(mask.len() as int), mask) + others.skip(
                mask.len() as int,
            ),
            i == selected_by(all.take(mask.len() as int), mask).len(),
            i == selected_by(others.take(mask.len() as int), mask).len(),
            forall|k: int| 0 <= k < all.len() ==> call_requires(keep, (&#[trigger] all[k],)),
            forall|k: int|
                0 <= k < mask.len() ==> call_ensures(keep, (&#[trigger] all[k],), mask[k]),
        decreases all.len() - mask.len(),
    {
        let ghost at = mask.len() as int;
        assert(items@[i as int] == all[at]);
        assert(call_requires(keep, (&all[at],)));
        let kept = keep(&items[i]);
        proof {
            let longer = mask.push(kept);
            assert(all.take(at + 1).drop_last() =~= all.take(at));
            assert(others.take(at + 1).drop_last() =~= others.take(at));
            assert(longer.drop_last() =~= mask);
            assert(all.take(at + 1).last() == all[at]);
            mask = longer;
        }
        if kept {
            assert(items@ =~= selected_by(all.take(at + 1), mask) + all.skip(at + 1));
            assert(parallel@ =~= selected_by(others.take(at + 1), mask) + others.skip(at + 1));
            i = i + 1;
        } else {
            let _ = items.remove(i);
            let _ = parallel.remove(i);
            assert(items@ =~= selected_by(all.take(at + 1), mask) + all.skip(at + 1));
            assert(parallel@ =~= selected_by(others.take(at + 1), mask) + others.skip(at + 1));
        }
    }
    proof {
        assert(all.skip(mask.len() as int).len() == 0);
        assert(all.take(mask.len() as int) =~= all);
        assert(others.take(mask.len() as int) =~= others);
        assert(items@ =~= selected_by(all, mask));
        assert(parallel@ =~= selected_by(others, mask));
        assert(answers(keep, all, mask));
    }
}

/// A committed frame and the buffer geometry it was committed with.
#[derive(Debug, Clone, Copy, PartialEq, Eq, Structural)]
pub struct Shown {
    pub spec: BufferSpec,
    pub scale: u32,
    pub frame: Option<Spans>,
}

/// A buffer of an overlay.
#[derive(Debug, Clone, Copy, PartialEq, Eq, Structural)]
pub struct OverlayBuffer {
    pub spec: BufferSpec,
    /// The compositor still reads it.
    pub busy: bool,
}

/// Why an overlay cannot be drawn.
#[derive(Debug, Clone, Copy, PartialEq, Eq, Structural)]
pub enum DrawError {
    WidthOverflow,
    HeightOverflow,
    Pixels(pixels::Error),
}

/// What drawing an overlay calls for.
#[derive(Debug, Clone, Copy, PartialEq, Eq, Structural)]
pub enum Draw {
    Nothing,
    /// Write rows `start..end` of `frame` to buffer `index` (a new one if
    /// `fresh`), damage the box and commit.
    Commit {
        spec: BufferSpec,
        scale: u32,
        frame: Option<Spans>,
        index: usize,
        fresh: bool,
        start: u32,
        end: u32,
        dirty: DirtyBox,
    },
}

/// The selection's surface on one output.
#[derive(Debug)]
pub struct Overlay {
    pub output: u32,
    pub size: Option<(u32, u32)>,
    pub scale: i32,
    pub origin: (i32, i32),
    pub buffers: Vec<OverlayBuffer>,
    /// Parallel to `buffers`: the frame each one holds, or `None` until it has
    /// been drawn in full.
    pub drawn: Vec<Option<Frame>>,
    /// What the compositor shows; `None` forces full damage.
    pub shown: Option<Shown>,
    /// The compositor has not asked for the next frame; redraws wait for it.
    pub frame_pending: bool,
    pub dirty: bool,
}

/// The most buffers an overlay holds: a stalled compositor must not make it
/// allocate endlessly.
pub const MAX_BUFFERS: usize = 3;

/// The buffer of an overlay at an output's scale.
pub open spec fn overlay_spec(size: (u32, u32), scale: i32) -> Result<(BufferSpec, u32), DrawError> {
    let scale = if scale >= 1 { scale as u32 } else { 1 };
    if size.0 * scale > u32::MAX {
        Err(DrawError::WidthOverflow)
    } else if size.1 * scale > u32::MAX {
        Err(DrawError::HeightOverflow)
    } else {
        match BufferSpec::unpadded(
            (size.0 * scale) as u32,
            (size.1 * scale) as u32,
            Format::Argb8888,
        ) {
            Ok(spec) => Ok((spec, scale)),
            Err(error) => Err(DrawError::Pixels(error)),
        }
    }
}

/// What must be redrawn on screen for `frame` to show.
pub open spec fn screen_damage(shown: Option<Shown>, spec: BufferSpec, scale: u32, frame: Frame) -> Option<
    DirtyBox,
> {
    match shown {
        Some(shown) if shown.spec == spec && shown.scale == scale => difference(
            shown.frame,
            frame,
        ),
        _ => Some(DirtyBox { x0: 0, y0: 0, x1: spec.width, y1: spec.height }),
    }
}

/// A buffer is worth keeping: it is in use or has the right shape.
pub open spec fn kept_buffer(buffer: OverlayBuffer, spec: BufferSpec) -> bool {
    buffer.busy || buffer.spec == spec
}

/// The buffers worth keeping, in order.
pub open spec fn kept_mask(buffers: Seq<OverlayBuffer>, spec: BufferSpec) -> Seq<bool> {
    buffers.map_values(|b: OverlayBuffer| kept_buffer(b, spec))
}

/// The first free buffer of the right shape is at `i`.
pub open spec fn first_free(buffers: Seq<OverlayBuffer>, spec: BufferSpec, i: int) -> bool {
    &&& 0 <= i < buffers.len()
    &&& !buffers[i].busy && buffers[i].spec == spec
    &&& forall|j: int|
        0 <= j < i ==> (#[trigger] buffers[j]).busy || buffers[j].spec != spec
}

fn find_free(buffers: &Vec<OverlayBuffer>, spec: BufferSpec) -> (r: Option<usize>)
    ensures
        match r {
            Some(i) => first_free(buffers@, spec, i as int),
            None => forall|j: int| !first_free(buffers@, spec, j),
        },
{
    let mut i: usize = 0;
    while i < buffers.len()
        invariant
            i <= buffers@.len(),
            forall|j: int|
                0 <= j < i ==> (#[trigger] buffers@[j]).busy || buffers@[j].spec != spec,
        decreases buffers@.len() - i,
    {
        if !buffers[i].busy && buffers[i].spec == spec {
            return Some(i);
        }
        i = i + 1;
    }
    None
}

impl Overlay {
    pub open spec fn wf(self) -> bool {
        &&& self.buffers@.len() == self.drawn@.len()
        &&& self.size matches Some(size) ==> size.0 > 0 && size.1 > 0
    }

    /// The overlay's part of the layout, once it has a size.
    pub open spec fn bounds(self, output: Output) -> Option<Rect> {
        match self.size {
            Some(size) => Some(
                Rect {
                    x: output.position.0,
                    y: output.position.1,
                    width: size.0,
                    height: size.1,
                },
            ),
            None => None,
        }
    }

    /// Whether the output moved or changed its scale since the last drawing.
    pub open spec fn moved(self, output: Output) -> bool {
        self.scale != output.scale || self.origin != output.position
    }

    /// A new overlay of an output: without a size, and with nothing drawn.
    pub open spec fn fresh(self, output: u32, scale: i32, origin: (i32, i32)) -> bool {
        &&& self.output == output
        &&& self.size is None
        &&& self.scale == scale
        &&& self.origin == origin
        &&& self.buffers@.len() == 0
        &&& self.drawn@.len() == 0
        &&& self.shown is None
        &&& !self.frame_pending
        &&& self.dirty
    }

    pub fn new(output: u32, scale: i32, origin: (i32, i32)) -> (r: Overlay)
        ensures
            r.wf(),
            r.fresh(output, scale, origin),
    {
        Overlay {
            output,
            size: None,
            scale,
            origin,
            buffers: Vec::new(),
            drawn: Vec::new(),
            shown: None,
            frame_pending: false,
            dirty: true,
        }
    }

    /// What drawing comes to: the overlay after it, and the reply.
    pub open spec fn redrawn(
        self,
        output: Output,
        selection: Option<Rect>,
        after: Overlay,
        r: Result<Draw, DrawError>,
    ) -> bool {
        &&& after.output == self.output
        &&& after.size == self.size
        &&& self.size is None ==> r == Ok::<Draw, DrawError>(Draw::Nothing) && after == self
        &&& self.size is Some ==> {
                let size = self.size->0;
                let wanted = self.dirty || self.moved(output);
                let asked = overlay_spec(size, output.scale);
                let bounds = self.bounds(output)->0;
                &&& after.scale == output.scale
                &&& after.origin == output.position
                &&& if !wanted || self.frame_pending {
                    &&& r == Ok::<Draw, DrawError>(Draw::Nothing)
                    &&& after.dirty == wanted
                    &&& after.buffers@ == self.buffers@
                    &&& after.drawn@ == self.drawn@
                    &&& after.shown == self.shown
                    &&& after.frame_pending == self.frame_pending
                } else if asked is Err {
                    &&& r == Err::<Draw, DrawError>(asked->Err_0)
                    &&& after.dirty
                    &&& after.buffers@ == self.buffers@
                    &&& after.drawn@ == self.drawn@
                    &&& after.shown == self.shown
                    &&& !after.frame_pending
                } else {
                    let (spec, scale) = asked->Ok_0;
                    let frame = selected(spec, bounds, selection);
                    let mask = kept_mask(self.buffers@, spec);
                    let kept = selected_by(self.buffers@, mask);
                    let held = selected_by(self.drawn@, mask);
                    match screen_damage(self.shown, spec, scale, frame) {
                        None => {
                            &&& r == Ok::<Draw, DrawError>(Draw::Nothing)
                            &&& !after.dirty
                            &&& after.buffers@ == self.buffers@
                            &&& after.drawn@ == self.drawn@
                            &&& after.shown == self.shown
                            &&& after.frame_pending == self.frame_pending
                        },
                        Some(dirty) => match r {
                            Ok(Draw::Nothing) => {
                                &&& kept.len() >= MAX_BUFFERS
                                &&& forall|j: int| !first_free(kept, spec, j)
                                &&& after.dirty
                                &&& after.buffers@ == kept
                                &&& after.drawn@ == held
                                &&& after.shown == self.shown
                                &&& after.frame_pending == self.frame_pending
                            },
                            Ok(
                                Draw::Commit {
                                    spec: made,
                                    scale: at,
                                    frame: shows,
                                    index,
                                    fresh,
                                    start,
                                    end,
                                    dirty: damaged,
                                },
                            ) => {
                                let before = if fresh { None } else { held[index as int] };
                                &&& made == spec
                                &&& at == scale
                                &&& shows == frame
                                &&& damaged == dirty
                                &&& if fresh {
                                    index == kept.len() && kept.len() < MAX_BUFFERS && (forall|
                                        j: int,
                                    |
                                        !first_free(kept, spec, j))
                                } else {
                                    first_free(kept, spec, index as int)
                                }
                                &&& (start, end) == stale_span(before, frame, spec.height)
                                &&& after.buffers@ == if fresh {
                                    kept.push(OverlayBuffer { spec, busy: true })
                                } else {
                                    kept.update(index as int, OverlayBuffer { spec, busy: true })
                                }
                                &&& after.drawn@ == if fresh {
                                    held.push(Some(frame))
                                } else {
                                    held.update(index as int, Some(frame))
                                }
                                &&& after.shown == Some(Shown { spec, scale, frame })
                                &&& after.frame_pending
                                &&& !after.dirty
                            },
                            Err(_) => false,
                        },
                    }
                }
        }
    }

    /// Decides how to show the selection: nothing while it is up to date or
    /// the compositor has not asked for another frame; otherwise the stale
    /// rows of a free buffer are redrawn and committed with the damage between
    /// what is shown and the new frame.
    pub fn draw(&mut self, output: &Output, selection: Option<Rect>) -> (r: Result<Draw, DrawError>)
        requires
            old(self).wf(),
        ensures
            final(self).wf(),
            old(self).redrawn(*output, selection, *final(self), r),
    {
        let (width, height): (u32, u32) = match self.size {
            Some(size) => size,
            None => return Ok(Draw::Nothing),
        };
        if self.scale != output.scale || self.origin.0 != output.position.0 || self.origin.1
            != output.position.1 {
            self.scale = output.scale;
            self.origin = output.position;
            self.dirty = true;
        }
        // The compositor paces redraws: one commit per frame callback.
        if !self.dirty || self.frame_pending {
            return Ok(Draw::Nothing);
        }
        let scale: u32 = if self.scale >= 1 {
            self.scale as u32
        } else {
            1
        };
        let buffer_width: u32 = match width.checked_mul(scale) {
            Some(width) => width,
            None => return Err(DrawError::WidthOverflow),
        };
        let buffer_height: u32 = match height.checked_mul(scale) {
            Some(height) => height,
            None => return Err(DrawError::HeightOverflow),
        };
        let spec = match BufferSpec::packed(buffer_width, buffer_height, Format::Argb8888) {
            Ok(spec) => spec,
            Err(error) => return Err(DrawError::Pixels(error)),
        };
        let bounds = Rect { x: output.position.0, y: output.position.1, width, height };
        let frame = overlay_frame(spec, bounds, selection);
        let damage = match self.shown {
            Some(shown) => if shown.spec == spec && shown.scale == scale {
                changed(shown.frame, frame)
            } else {
                Some(DirtyBox { x0: 0, y0: 0, x1: spec.width, y1: spec.height })
            },
            None => Some(DirtyBox { x0: 0, y0: 0, x1: spec.width, y1: spec.height }),
        };
        let dirty = match damage {
            Some(dirty) => dirty,
            None => {
                // The selection changed elsewhere; this image did not.
                self.dirty = false;
                return Ok(Draw::Nothing);
            },
        };
        let keep = |b: &OverlayBuffer| -> (k: bool)
            ensures
                k == kept_buffer(*b, spec),
            { b.busy || b.spec == spec };
        let ghost all = self.buffers@;
        let ghost records = self.drawn@;
        retain_parallel(&mut self.buffers, &mut self.drawn, keep);
        proof {
            let mask = choose|mask: Seq<bool>|
                #[trigger] answers(keep, all, mask) && self.buffers@ == selected_by(all, mask)
                    && self.drawn@ == selected_by(records, mask);
            assert forall|i: int| 0 <= i < all.len() implies mask[i] == kept_mask(all, spec)[i] by {
                assert(call_ensures(keep, (&all[i],), mask[i]));
            }
            assert(mask =~= kept_mask(all, spec));
            lemma_same_selection(all, records, mask);
        }
        let (index, fresh): (usize, bool) = match find_free(&self.buffers, spec) {
            Some(index) => (index, false),
            None => {
                if self.buffers.len() >= MAX_BUFFERS {
                    return Ok(Draw::Nothing);
                }
                self.buffers.push(OverlayBuffer { spec, busy: false });
                self.drawn.push(None);
                (self.buffers.len() - 1, true)
            },
        };
        // Rewrite what this buffer holds, which may be older than what is shown.
        let rows = stale_rows(self.drawn[index], frame, spec.height);
        self.drawn.set(index, Some(frame));
        self.buffers.set(index, OverlayBuffer { spec, busy: true });
        self.frame_pending = true;
        self.shown = Some(Shown { spec, scale, frame });
        self.dirty = false;
        proof {
            let kept = selected_by(all, kept_mask(all, spec));
            let held = selected_by(records, kept_mask(all, spec));
            if fresh {
                assert(self.buffers@ =~= kept.push(OverlayBuffer { spec, busy: true }));
                assert(self.drawn@ =~= held.push(Some(frame)));
            }
        }
        Ok(
            Draw::Commit {
                spec,
                scale,
                frame,
                index,
                fresh,
                start: rows.start,
                end: rows.end,
                dirty,
            },
        )
    }

    /// The compositor is done with a buffer.
    pub fn released(&mut self, index: usize)
        requires
            old(self).wf(),
            index < old(self).buffers@.len(),
        ensures
            final(self).wf(),
            final(self).buffers@ == old(self).buffers@.update(
                index as int,
                OverlayBuffer { busy: false, ..old(self).buffers@[index as int] },
            ),
            *final(self) == (Overlay { buffers: final(self).buffers, ..*old(self) }),
    {
        let spec = self.buffers[index].spec;
        self.buffers.set(index, OverlayBuffer { spec, busy: false });
    }
}

proof fn lemma_same_selection<T, U>(a: Seq<T>, b: Seq<U>, mask: Seq<bool>)
    requires
        a.len() == b.len(),
    ensures
        selected_by(a, mask).len() == selected_by(b, mask).len(),
    decreases mask.len(),
{
    if mask.len() > 0 && a.len() > 0 {
        lemma_same_selection(a.drop_last(), b.drop_last(), mask.drop_last());
    }
}

} // verus!
