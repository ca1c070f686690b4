//! Which buffer rows a capture's damage touches.

use core::ops::Range;
use vstd::prelude::*;

use crate::frame::PixelRect;

verus! {

/// A damage box, in signed buffer pixels as sent: it need not lie on the
/// buffer.
#[derive(Debug, Clone, Copy, PartialEq, Eq, Structural)]
pub struct DamageBox {
    pub x: i32,
    pub y: i32,
    pub width: i32,
    pub height: i32,
}

impl DamageBox {
    /// The box shares columns with the area.
    pub open spec fn meets_columns(self, area: PixelRect) -> bool {
        let left = if self.x >= area.x { self.x as int } else { area.x as int };
        let right = if self.x + self.width <= area.x + area.width {
            self.x + self.width
        } else {
            area.x + area.width
        };
        left < right
    }

    /// The box touches row `y` of the area.
    pub open spec fn touches_row(self, area: PixelRect, y: int) -> bool {
        &&& self.meets_columns(area)
        &&& area.y <= y < area.y + area.height
        &&& self.y <= y < self.y + self.height
    }
}

/// Some box touches row `y` of the area.
pub open spec fn damaged(damage: Seq<DamageBox>, area: PixelRect, y: int) -> bool {
    exists|i: int| 0 <= i < damage.len() && #[trigger] damage[i].touches_row(area, y)
}

/// Row `y` lies in the band.
pub open spec fn in_band(band: Range<u32>, y: int) -> bool {
    band.start <= y < band.end
}

/// Row `y` lies in one of the bands.
pub open spec fn covered(bands: Seq<Range<u32>>, y: int) -> bool {
    exists|i: int| 0 <= i < bands.len() && in_band(#[trigger] bands[i], y)
}

/// Nonempty bands in order, with undamaged rows between them.
pub open spec fn separate(bands: Seq<Range<u32>>) -> bool {
    &&& forall|i: int| 0 <= i < bands.len() ==> (#[trigger] bands[i]).start < bands[i].end
    &&& forall|i: int, j: int|
        0 <= i < j < bands.len() ==> (#[trigger] bands[i]).end < (#[trigger] bands[j]).start
}

spec fn ordered(bands: Seq<Range<u32>>) -> bool {
    &&& forall|i: int| 0 <= i < bands.len() ==> (#[trigger] bands[i]).start < bands[i].end
    &&& forall|i: int, j: int|
        0 <= i <= j < bands.len() ==> (#[trigger] bands[i]).start <= (#[trigger] bands[j]).start
}

proof fn lemma_insert_covers(bands: Seq<Range<u32>>, at: int, band: Range<u32>, y: int)
    requires
        0 <= at <= bands.len(),
    ensures
        covered(bands.insert(at, band), y) <==> covered(bands, y) || in_band(band, y),
{
    let longer = bands.insert(at, band);
    if covered(bands, y) {
        let i = choose|i: int| 0 <= i < bands.len() && in_band(#[trigger] bands[i], y);
        if i < at {
            assert(longer[i] == bands[i]);
        } else {
            assert(longer[i + 1] == bands[i]);
        }
    }
    if in_band(band, y) {
        assert(longer[at] == band);
    }
    if covered(longer, y) {
        let i = choose|i: int| 0 <= i < longer.len() && in_band(#[trigger] longer[i], y);
        if i < at {
            assert(bands[i] == longer[i]);
        } else if i > at {
            assert(bands[i - 1] == longer[i]);
        }
    }
}

/// Inserts a band, keeping the order of their starts.
fn insert_band(bands: &mut Vec<Range<u32>>, band: Range<u32>)
    requires
        ordered(old(bands)@),
        band.start < band.end,
    ensures
        ordered(final(bands)@),
        forall|y: int|
            #![trigger covered(final(bands)@, y)]
            covered(final(bands)@, y) <==> covered(old(bands)@, y) || in_band(band, y),
{
    let mut at: usize = bands.len();
    while at > 0 && bands[at - 1].start > band.start
        invariant
            at <= bands@.len(),
            ordered(bands@),
            forall|i: int| at <= i < bands@.len() ==> (#[trigger] bands@[i]).start > band.start,
        decreases at,
    {
        at = at - 1;
    }
    proof {
        assert forall|y: int|
            #![trigger covered(bands@.insert(at as int, band), y)]
            covered(bands@.insert(at as int, band), y) <==> covered(bands@, y) || in_band(
                band,
                y,
            ) by {
            lemma_insert_covers(bands@, at as int, band, y);
        }
    }
    bands.insert(at, band);
}

/// The rows of one box within the area.
fn rows_of(damage: DamageBox, area: PixelRect) -> (r: Option<Range<u32>>)
    requires
        area.y + area.height <= u32::MAX,
    ensures
        match r {
            Some(band) => band.start < band.end && forall|y: int|
                in_band(band, y) <==> damage.touches_row(area, y),
            None => forall|y: int| !damage.touches_row(area, y),
        },
{
    let left: i64 = area.x as i64;
    let top: i64 = area.y as i64;
    let right: i64 = left + area.width as i64;
    let bottom: i64 = top + area.height as i64;
    let x: i64 = damage.x as i64;
    let y: i64 = damage.y as i64;
    let from: i64 = if x >= left { x } else { left };
    let to: i64 = if x + damage.width as i64 <= right { x + damage.width as i64 } else { right };
    let start: i64 = if y >= top { y } else { top };
    let end: i64 = if y + damage.height as i64 <= bottom {
        y + damage.height as i64
    } else {
        bottom
    };
    if from < to && start < end {
        Some(Range { start: start as u32, end: end as u32 })
    } else {
        None
    }
}

/// Buffer rows of the damage boxes that touch `area`, clipped to it, sorted
/// and merged. Damage may over-report, so boxes are clipped rather than
/// trusted.
pub fn damage_rows(damage: &[DamageBox], area: PixelRect) -> (r: Vec<Range<u32>>)
    requires
        area.y + area.height <= u32::MAX,
    ensures
        separate(r@),
        forall|y: int| #[trigger] covered(r@, y) <==> damaged(damage@, area, y),
{
    let mut bands: Vec<Range<u32>> = Vec::new();
    let mut i: usize = 0;
    while i < damage.len()
        invariant
            i <= damage@.len(),
            area.y + area.height <= u32::MAX,
            ordered(bands@),
            forall|y: int|
                #[trigger] covered(bands@, y) <==> damaged(damage@.take(i as int), area, y),
        decreases damage@.len() - i,
    {
        let ghost before = bands@;
        let found = rows_of(damage[i], area);
        proof {
            assert forall|y: int| #[trigger]
                damaged(damage@.take(i + 1), area, y) <==> damaged(
                    damage@.take(i as int),
                    area,
                    y,
                ) || damage@[i as int].touches_row(area, y) by {
                lemma_one_more_box(damage@, i as int, area, y);
            }
        }
        if let Some(band) = found {
            insert_band(&mut bands, band);
        }
        i = i + 1;
        assert forall|y: int| #[trigger] covered(bands@, y) <==> damaged(
            damage@.take(i as int),
            area,
            y,
        ) by {
            assert(covered(before, y) <==> damaged(damage@.take(i - 1), area, y));
        }
    }
    assert(damage@.take(i as int) =~= damage@);
    merge(&bands)
}

proof fn lemma_one_more_box(damage: Seq<DamageBox>, i: int, area: PixelRect, y: int)
    requires
        0 <= i < damage.len(),
    ensures
        damaged(damage.take(i + 1), area, y) <==> damaged(damage.take(i), area, y)
            || damage[i].touches_row(area, y),
{
    let less = damage.take(i);
    let more = damage.take(i + 1);
    if damaged(less, area, y) {
        let k = choose|k: int| 0 <= k < less.len() && #[trigger] less[k].touches_row(area, y);
        assert(more[k].touches_row(area, y));
    }
    if damage[i].touches_row(area, y) {
        assert(more[i].touches_row(area, y));
    }
    if damaged(more, area, y) {
        let k = choose|k: int| 0 <= k < more.len() && #[trigger] more[k].touches_row(area, y);
        if k < i {
            assert(less[k].touches_row(area, y));
        }
    }
}

/// Joins bands that overlap or touch.
fn merge(bands: &Vec<Range<u32>>) -> (merged: Vec<Range<u32>>)
    requires
        ordered(bands@),
    ensures
        separate(merged@),
        forall|y: int| #[trigger] covered(merged@, y) <==> covered(bands@, y),
{
    let mut merged: Vec<Range<u32>> = Vec::new();
    let mut i: usize = 0;
    while i < bands.len()
        invariant
            i <= bands@.len(),
            ordered(bands@),
            separate(merged@),
            merged@.len() > 0 ==> i > 0 && merged@.last().start <= bands@[i - 1].start,
            forall|y: int| #[trigger] covered(merged@, y) <==> covered(bands@.take(i as int), y),
        decreases bands@.len() - i,
    {
        let start: u32 = bands[i].start;
        let end: u32 = bands[i].end;
        let ghost before = merged@;
        let last: usize = merged.len();
        if last > 0 && start <= merged[last - 1].end {
            if end > merged[last - 1].end {
                let first: u32 = merged[last - 1].start;
                merged.set(last - 1, Range { start: first, end });
            }
        } else {
            merged.push(Range { start, end });
        }
        proof {
            assert forall|y: int| #[trigger] covered(merged@, y) <==> covered(
                bands@.take(i + 1),
                y,
            ) by {
                assert(bands@.take(i + 1) =~= bands@.take(i as int).insert(
                    i as int,
                    bands@[i as int],
                ));
                lemma_insert_covers(bands@.take(i as int), i as int, bands@[i as int], y);
                assert(covered(before, y) <==> covered(bands@.take(i as int), y));
                lemma_merge_step(before, merged@, bands@[i as int], y);
            }
        }
        i = i + 1;
    }
    assert(bands@.take(i as int) =~= bands@);
    merged
}

/// Extending the last band, or adding one, covers exactly the added rows.
proof fn lemma_merge_step(
    before: Seq<Range<u32>>,
    after: Seq<Range<u32>>,
    band: Range<u32>,
    y: int,
)
    requires
        separate(before),
        after == before.push(band) || (before.len() > 0 && before.last().start <= band.start
            <= before.last().end && after.len() == before.len() && after.last().start
            == before.last().start && after.last().end == (if band.end > before.last().end {
            band.end
        } else {
            before.last().end
        }) && forall|i: int| 0 <= i < before.len() - 1 ==> after[i] == before[i]),
    ensures
        covered(after, y) <==> covered(before, y) || in_band(band, y),
{
    let n = before.len() as int;
    if after == before.push(band) {
        assert(after =~= before.insert(n, band));
        lemma_insert_covers(before, n, band, y);
    } else {
        if covered(before, y) {
            let i = choose|i: int| 0 <= i < n && in_band(#[trigger] before[i], y);
            assert(in_band(after[i], y));
        }
        if in_band(band, y) {
            assert(in_band(after[n - 1], y));
        }
        if covered(after, y) {
            let i = choose|i: int| 0 <= i < n && in_band(#[trigger] after[i], y);
            if i < n - 1 {
                assert(in_band(before[i], y));
            } else if !in_band(band, y) {
                assert(in_band(before[n - 1], y));
            }
        }
    }
}

/// Separate bands that cover every row below `height`, and nothing else, are
/// the single band of all rows.
pub proof fn covering_every_row_is_one_band(bands: Seq<Range<u32>>, height: u32)
    requires
        separate(bands),
        height > 0,
        forall|y: int| #[trigger] covered(bands, y) <==> 0 <= y < height,
    ensures
        bands.len() == 1,
        bands[0].start == 0,
        bands[0].end == height,
{
    assert(covered(bands, 0));
    let first = choose|i: int| 0 <= i < bands.len() && in_band(#[trigger] bands[i], 0);
    let end = bands[first].end as int;
    assert(in_band(bands[first], end - 1));
    assert(covered(bands, end - 1));
    if end < height {
        assert(covered(bands, end));
        let next = choose|i: int| 0 <= i < bands.len() && in_band(#[trigger] bands[i], end);
        if next > first {
            assert(bands[first].end < bands[next].start);
        } else if next < first {
            assert(bands[next].end < bands[first].start);
        }
    }
    assert(end == height);
    if bands.len() > 1 {
        let other = if first == 0 { 1int } else { 0int };
        let y = bands[other].start as int;
        assert(in_band(bands[other], y));
        assert(covered(bands, y));
        if other > first {
            assert(bands[first].end < bands[other].start);
        } else {
            assert(bands[other].end < bands[first].start);
        }
    }
}

/// Bands that cover the same rows are the same bands: the damaged rows alone
/// determine the result.
pub proof fn separate_bands_are_determined_by_their_rows(
    a: Seq<Range<u32>>,
    b: Seq<Range<u32>>,
)
    requires
        separate(a),
        separate(b),
        forall|y: int| #[trigger] covered(a, y) <==> covered(b, y),
    ensures
        a.len() == b.len(),
        forall|i: int|
            0 <= i < a.len() ==> (#[trigger] a[i]).start == b[i].start && a[i].end == b[i].end,
    decreases a.len() + b.len(),
{
    if a.len() == 0 {
        if b.len() > 0 {
            assert(in_band(b[0], b[0].start as int));
            assert(covered(a, b[0].start as int));
        }
    } else if b.len() == 0 {
        assert(in_band(a[0], a[0].start as int));
        assert(covered(a, a[0].start as int));
    } else {
        let x = a.last();
        let y = b.last();
        lemma_last_rows(a);
        lemma_last_rows(b);
        assert(covered(a, x.end - 1));
        assert(covered(a, y.end - 1));
        assert(x.end == y.end);
        if x.start < y.start {
            lemma_before_last(b, y.start - 1);
            assert(in_band(a[a.len() - 1], y.start - 1));
            assert(covered(a, y.start - 1));
        } else if y.start < x.start {
            lemma_before_last(a, x.start - 1);
            assert(in_band(b[b.len() - 1], x.start - 1));
            assert(covered(b, x.start - 1));
        }
        let fewer_a = a.drop_last();
        let fewer_b = b.drop_last();
        assert forall|r: int| #[trigger] covered(fewer_a, r) <==> covered(fewer_b, r) by {
            lemma_without_last(a, r);
            lemma_without_last(b, r);
            assert(covered(a, r) <==> covered(b, r));
        }
        separate_bands_are_determined_by_their_rows(fewer_a, fewer_b);
        assert forall|i: int| 0 <= i < a.len() implies (#[trigger] a[i]).start == b[i].start
            && a[i].end == b[i].end by {
            if i < a.len() - 1 {
                assert(fewer_a[i].start == fewer_b[i].start);
            }
        }
    }
}

/// No covered row lies beyond the last band.
proof fn lemma_last_rows(bands: Seq<Range<u32>>)
    requires
        separate(bands),
        bands.len() > 0,
    ensures
        forall|y: int| #[trigger] covered(bands, y) ==> y < bands.last().end,
        in_band(bands[bands.len() - 1], bands.last().end - 1),
        covered(bands, bands.last().end - 1),
{
    assert(in_band(bands[bands.len() - 1], bands.last().end - 1));
    assert forall|y: int| #[trigger] covered(bands, y) implies y < bands.last().end by {
        let i = choose|i: int| 0 <= i < bands.len() && in_band(#[trigger] bands[i], y);
        if i < bands.len() - 1 {
            assert(bands[i].end < bands[bands.len() - 1].start);
        }
    }
}

/// The row just before the last band is not covered.
proof fn lemma_before_last(bands: Seq<Range<u32>>, y: int)
    requires
        separate(bands),
        bands.len() > 0,
        y == bands.last().start - 1,
    ensures
        !covered(bands, y),
{
    if covered(bands, y) {
        let i = choose|i: int| 0 <= i < bands.len() && in_band(#[trigger] bands[i], y);
        if i < bands.len() - 1 {
            assert(bands[i].end < bands[bands.len() - 1].start);
        }
    }
}

proof fn lemma_without_last(bands: Seq<Range<u32>>, y: int)
    requires
        separate(bands),
        bands.len() > 0,
    ensures
        covered(bands.drop_last(), y) <==> covered(bands, y) && y < bands.last().start,
{
    let fewer = bands.drop_last();
    if covered(fewer, y) {
        let i = choose|i: int| 0 <= i < fewer.len() && in_band(#[trigger] fewer[i], y);
        assert(in_band(bands[i], y));
        assert(bands[i].end < bands[bands.len() - 1].start);
    }
    if covered(bands, y) && y < bands.last().start {
        let i = choose|i: int| 0 <= i < bands.len() && in_band(#[trigger] bands[i], y);
        assert(in_band(fewer[i], y));
    }
}

/// A row counts as damaged exactly when one of its pixels that the area holds
/// lies in a damage box.
pub proof fn damaged_rows_hold_damaged_pixels(damage: Seq<DamageBox>, area: PixelRect, y: int)
    ensures
        damaged(damage, area, y) <==> exists|i: int, x: int|
            #![trigger damage[i], in_area(area, x, y)]
            0 <= i < damage.len() && in_area(area, x, y) && damage[i].x <= x < damage[i].x
                + damage[i].width && damage[i].y <= y < damage[i].y + damage[i].height,
{
    if damaged(damage, area, y) {
        let i = choose|i: int| 0 <= i < damage.len() && #[trigger] damage[i].touches_row(area, y);
        let x = if damage[i].x >= area.x { damage[i].x as int } else { area.x as int };
        assert(in_area(area, x, y));
        assert(damage[i].x <= x < damage[i].x + damage[i].width);
    }
    if exists|i: int, x: int|
        #![trigger damage[i], in_area(area, x, y)]
        0 <= i < damage.len() && in_area(area, x, y) && damage[i].x <= x < damage[i].x
            + damage[i].width && damage[i].y <= y < damage[i].y + damage[i].height {
        let (i, x) = choose|i: int, x: int|
            #![trigger damage[i], in_area(area, x, y)]
            0 <= i < damage.len() && in_area(area, x, y) && damage[i].x <= x < damage[i].x
                + damage[i].width && damage[i].y <= y < damage[i].y + damage[i].height;
        assert(damage[i].touches_row(area, y));
    }
}

/// The pixel lies in the area.
pub open spec fn in_area(area: PixelRect, x: int, y: int) -> bool {
    area.x <= x < area.x + area.width && area.y <= y < area.y + area.height
}

} // verus!
