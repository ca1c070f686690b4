//! The map of a workspace: where its windows lie in proportion to the monitor,
//! and which of them is next in a direction.

use vstd::prelude::*;

use crate::hypr::Client;
use crate::hypr::Monitor;
use crate::hypr::Rect;
use crate::single;
use crate::single::Single;

verus! {

/// The bits of the least share of a side that a tile keeps: a fiftieth.
pub const LEAST: u32 = 0x3ca3_d70a;

/// The bits of where a tile starts at most: 98 hundredths.
pub const LAST: u32 = 0x3f7a_e148;

/// The bits of how far apart two tiles have to be to lie in a direction: two
/// thousandths.
pub const APART: u32 = 0x3b03_126f;

/// A part of the map, in proportion to its sides.
#[derive(Debug, Clone, Copy, PartialEq, Eq, Structural)]
pub struct RelativeRect {
    pub x: Single,
    pub y: Single,
    pub w: Single,
    pub h: Single,
}

#[derive(Debug, Clone, Copy, PartialEq, Eq, Structural)]
pub struct Tile {
    pub index: usize,
    pub rect: RelativeRect,
}

/// The part of the layout that a map shows.
#[derive(Debug, Clone, Copy, PartialEq, Eq, Structural)]
pub struct Canvas {
    pub left: i64,
    pub top: i64,
    pub right: i64,
    pub bottom: i64,
}

impl Canvas {
    pub open spec fn wf(self) -> bool {
        &&& i32::MIN <= self.left < self.right <= 0xffff_ffff
        &&& i32::MIN <= self.top < self.bottom <= 0xffff_ffff
    }

    /// The rectangle lies on the canvas.
    pub open spec fn holds(self, r: Rect) -> bool {
        &&& self.left <= r.x && r.x + r.w <= self.right
        &&& self.top <= r.y && r.y + r.h <= self.bottom
    }

    /// The smallest canvas that also holds the rectangle.
    pub open spec fn widened(self, r: Rect) -> Canvas {
        Canvas {
            left: if r.x < self.left {
                r.x as i64
            } else {
                self.left
            },
            top: if r.y < self.top {
                r.y as i64
            } else {
                self.top
            },
            right: if r.x + r.w > self.right {
                (r.x + r.w) as i64
            } else {
                self.right
            },
            bottom: if r.y + r.h > self.bottom {
                (r.y + r.h) as i64
            } else {
                self.bottom
            },
        }
    }
}

/// The canvas of a monitor alone.
pub open spec fn bare(monitor: Monitor) -> Canvas {
    let area = monitor.area();
    Canvas {
        left: area.x as i64,
        top: area.y as i64,
        right: (area.x + area.w) as i64,
        bottom: (area.y + area.h) as i64,
    }
}

/// The smallest canvas that holds the monitor and all windows.
pub open spec fn hull(monitor: Monitor, clients: Seq<&Client>) -> Canvas
    decreases clients.len(),
{
    if clients.len() == 0 {
        bare(monitor)
    } else {
        hull(monitor, clients.drop_last()).widened(clients.last().frame())
    }
}

/// The map holds the monitor and every window on it.
pub proof fn the_map_holds_every_window(monitor: Monitor, clients: Seq<&Client>)
    ensures
        hull(monitor, clients).wf(),
        hull(monitor, clients).holds(monitor.area()),
        forall|i: int|
            0 <= i < clients.len() ==> hull(monitor, clients).holds(
                (#[trigger] clients[i]).frame(),
            ),
    decreases clients.len(),
{
    if clients.len() > 0 {
        let rest = clients.drop_last();
        the_map_holds_every_window(monitor, rest);
        assert forall|i: int| 0 <= i < clients.len() implies hull(monitor, clients).holds(
            (#[trigger] clients[i]).frame(),
        ) by {
            if i < rest.len() {
                assert(rest[i] == clients[i]);
            }
        }
    } else {
        let area = monitor.area();
        assert(1 <= area.w <= i32::MAX);
        assert(1 <= area.h <= i32::MAX);
    }
}

fn canvas_for(clients: &[&Client], monitor: &Monitor) -> (r: Canvas)
    ensures
        r == hull(*monitor, clients@),
        r.wf(),
{
    let area = monitor.canvas();
    let mut canvas = Canvas {
        left: area.x as i64,
        top: area.y as i64,
        right: area.x as i64 + area.w as i64,
        bottom: area.y as i64 + area.h as i64,
    };
    let mut i: usize = 0;
    assert(clients@.take(0) =~= Seq::empty());
    while i < clients.len()
        invariant
            i <= clients@.len(),
            canvas == hull(*monitor, clients@.take(i as int)),
        decreases clients@.len() - i,
    {
        let rect = clients[i].rect();
        let right: i64 = rect.x as i64 + rect.w as i64;
        let bottom: i64 = rect.y as i64 + rect.h as i64;
        assert(clients@.take(i + 1).drop_last() =~= clients@.take(i as int));
        assert(clients@.take(i + 1).last() == clients@[i as int]);
        if (rect.x as i64) < canvas.left {
            canvas.left = rect.x as i64;
        }
        if (rect.y as i64) < canvas.top {
            canvas.top = rect.y as i64;
        }
        if right > canvas.right {
            canvas.right = right;
        }
        if bottom > canvas.bottom {
            canvas.bottom = bottom;
        }
        i = i + 1;
    }
    assert(clients@.take(i as int) =~= clients@);
    proof {
        the_map_holds_every_window(*monitor, clients@);
    }
    canvas
}

/// Where a stretch begins on a side and what it takes of it: it never starts
/// beyond the last place, keeps at least the least share, and ends by the end
/// of the side.
pub open spec fn share(offset: int, length: int, side: int) -> (Single, Single) {
    let zero = Single { bits: 0 };
    let one = Single { bits: single::ONE };
    let start = single::of_int(offset).over(single::of_int(side)).within(
        zero,
        Single { bits: LAST },
    );
    let part = single::of_int(length).over(single::of_int(side)).within(
        Single { bits: LEAST },
        one,
    );
    if one.below(start.plus(part)) {
        let rest = one.minus(start).larger(Single { bits: LEAST });
        (one.minus(rest).within(zero, Single { bits: LAST }), rest)
    } else {
        (start, part)
    }
}

/// The stretch starts and ends on the side, and keeps the least share.
pub open spec fn fits(share: (Single, Single)) -> bool {
    &&& (Single { bits: 0 }).up_to(share.0)
    &&& (Single { bits: LEAST }).up_to(share.1)
    &&& share.0.plus(share.1).up_to(Single { bits: single::ONE })
}

/// A sum within a 2^-25th of one is not above one.
proof fn lemma_sum_to_one(start: Single, part: Single)
    requires
        start.finite(),
        part.finite(),
        0 <= start.value(),
        0 < part.value(),
        start.value() + part.value() < single::unit() + vstd::arithmetic::power2::pow2(124),
    ensures
        start.plus(part).up_to(Single { bits: single::ONE }),
{
    let u = single::unit();
    let off = vstd::arithmetic::power2::pow2(124) - 1;
    let sum = start.value() + part.value();
    vstd::arithmetic::power2::lemma2_to64();
    vstd::arithmetic::power2::lemma_pow2_adds(23, 126);
    vstd::arithmetic::power2::lemma_pow2_adds(2, 124);
    vstd::arithmetic::power2::lemma_pow2_pos(124);
    single::lemma_near_close(0x80_0000, 126, 1, off);
    single::lemma_near_order(sum, u + off, 1);
}

/// What is left of one above a half is exact.
proof fn lemma_rest(value: Single)
    requires
        !value.negative(),
        0x3f00_0000 <= value.code() <= single::ONE,
    ensures
        ({
            let rest = (Single { bits: single::ONE }).minus(value);
            &&& !rest.negative()
            &&& rest.finite()
            &&& rest.value() == single::unit() - value.value()
        }),
{
    let code = value.code();
    let p = vstd::arithmetic::power2::pow2(125) as int;
    let u = single::unit();
    vstd::arithmetic::power2::lemma2_to64();
    vstd::arithmetic::power2::lemma_pow2_adds(24, 125);
    vstd::arithmetic::power2::lemma_pow2_adds(23, 126);
    vstd::arithmetic::power2::lemma_pow2_pos(125);
    vstd::arithmetic::power2::lemma_pow2_unfold(126);
    single::lemma_amount(code);
    single::lemma_amount(single::ONE as int);
    single::lemma_amount(0);
    single::lemma_amount_order(code, single::ONE as int);
    let k: int = if code == single::ONE {
        0x100_0000
    } else {
        single::digits(code)
    };
    assert(single::power(code) == if code == single::ONE { 126nat } else { 125nat });
    assert(value.value() == k * p);
    assert(u - k * p == (0x100_0000 - k) * p) by (nonlinear_arith)
        requires
            u == 0x100_0000 * p,
    ;
    single::lemma_exact(0x100_0000 - k, 125);
    single::lemma_near_amount(single::ONE as int);
    single::lemma_near_order((0x100_0000 - k) * p, u, 1);
    assert(single::amount(single::ONE as int) == u);
}

/// Every stretch of a side fits on it.
proof fn lemma_share_fits(offset: int, length: int, side: int)
    requires
        i64::MIN <= offset <= i64::MAX,
        i64::MIN <= length <= i64::MAX,
        0 < side <= i64::MAX,
    ensures
        fits(share(offset, length, side)),
{
    let zero = Single { bits: 0 };
    let one = Single { bits: single::ONE };
    let least = Single { bits: LEAST };
    let last = Single { bits: LAST };
    single::lemma_of_int(offset);
    single::lemma_of_int(length);
    single::lemma_of_int(side);
    single::lemma_quotient(single::of_int(offset), single::of_int(side));
    single::lemma_quotient(single::of_int(length), single::of_int(side));
    let start = single::of_int(offset).over(single::of_int(side)).within(zero, last);
    let part = single::of_int(length).over(single::of_int(side)).within(least, one);
    assert(zero.up_to(start) && start.up_to(last));
    assert(least.up_to(part) && part.up_to(one));
    if one.below(start.plus(part)) {
        let u = single::unit();
        let rest = one.minus(start).larger(least);
        let moved = one.minus(rest).within(zero, last);
        vstd::arithmetic::power2::lemma2_to64();
        vstd::arithmetic::power2::lemma_pow2_adds(24, 125);
        vstd::arithmetic::power2::lemma_pow2_adds(23, 126);
        vstd::arithmetic::power2::lemma_pow2_adds(23, 125);
        vstd::arithmetic::power2::lemma_pow2_adds(5, 120);
        vstd::arithmetic::power2::lemma_pow2_adds(4, 120);
        vstd::arithmetic::power2::lemma_pow2_pos(120);
        vstd::arithmetic::power2::lemma_pow2_pos(125);
        vstd::arithmetic::power2::lemma_pow2_unfold(149);
        single::lemma_amount(0);
        single::lemma_amount(single::ONE as int);
        single::lemma_amount(LEAST as int);
        single::lemma_amount(LAST as int);
        single::lemma_amount(start.code());
        single::lemma_amount_order(start.code(), LAST as int);
        assert(single::amount(LAST as int) == 0xfa_e148 * vstd::arithmetic::power2::pow2(125));
        assert(single::amount(LEAST as int) == 0xa3_d70a * vstd::arithmetic::power2::pow2(120));
        assert(start.value() <= single::amount(LAST as int) < u);
        if start.code() >= 0x3f00_0000 {
            lemma_rest(start);
            if rest != least {
                assert(rest == one.minus(start));
                single::lemma_near_amount(start.code());
                assert(one.minus(rest) == start);
                lemma_sum_to_one(moved, rest);
            } else {
                single::lemma_near_order(u - rest.value(), u, 1);
                assert(zero.up_to(moved) && moved.up_to(last));
                single::lemma_amount(moved.code());
                single::lemma_amount_order(moved.code(), LAST as int);
                lemma_sum_to_one(moved, rest);
            }
        } else {
            single::lemma_amount_order(start.code(), 0x3f00_0000);
            single::lemma_amount(0x3f00_0000);
            single::lemma_near_amount(0x3f00_0000);
            single::lemma_near_amount(single::ONE as int);
            let left = u - start.value();
            single::lemma_near_order(single::amount(0x3f00_0000), left, 1);
            single::lemma_near_order(left, u, 1);
            assert(rest == one.minus(start));
            lemma_rest(rest);
            let whole = one.minus(rest);
            single::lemma_amount(rest.code());
            single::lemma_amount_order(0x3f00_0000, rest.code());
            if !last.below(whole) {
                assert(moved == whole);
            }
            single::lemma_amount(moved.code());
            single::lemma_amount_order(moved.code(), whole.code());
            lemma_sum_to_one(moved, rest);
        }
    } else {
        let sum = start.value() + part.value();
        single::lemma_amount(start.code());
        single::lemma_amount(part.code());
        single::lemma_near_order(sum, sum, 1);
    }
}

fn share_of(offset: i64, length: i64, side: i64) -> (r: (Single, Single))
    ensures
        r == share(offset as int, length as int, side as int),
{
    let zero = Single { bits: 0 };
    let one = Single { bits: single::ONE };
    let side = Single::of(side);
    let start = Single::of(offset).quotient(side).clamp(zero, Single { bits: LAST });
    let part = Single::of(length).quotient(side).clamp(Single { bits: LEAST }, one);
    if one.less(start.sum(part)) {
        let rest = one.difference(start).max(Single { bits: LEAST });
        (one.difference(rest).clamp(zero, Single { bits: LAST }), rest)
    } else {
        (start, part)
    }
}

/// Where a rectangle lies on a canvas.
pub open spec fn placed(rect: Rect, canvas: Canvas) -> RelativeRect {
    let across = share(rect.x - canvas.left, rect.w as int, canvas.right - canvas.left);
    let down = share(rect.y - canvas.top, rect.h as int, canvas.bottom - canvas.top);
    RelativeRect { x: across.0, y: down.0, w: across.1, h: down.1 }
}

/// The part of the map lies on it, and keeps the least share of its sides.
pub open spec fn on_the_map(rect: RelativeRect) -> bool {
    fits((rect.x, rect.w)) && fits((rect.y, rect.h))
}

/// The tiles of windows on the map of a monitor.
pub fn tiles_for(clients: &[&Client], monitor: &Monitor) -> (r: Vec<Tile>)
    ensures
        r@.len() == clients@.len(),
        forall|i: int|
            0 <= i < r@.len() ==> (#[trigger] r@[i]).index == i && r@[i].rect == placed(
                clients@[i].frame(),
                hull(*monitor, clients@),
            ) && on_the_map(r@[i].rect),
{
    let canvas = canvas_for(clients, monitor);
    proof {
        the_map_holds_every_window(*monitor, clients@);
    }
    let mut tiles: Vec<Tile> = Vec::new();
    let mut i: usize = 0;
    while i < clients.len()
        invariant
            i <= clients@.len(),
            canvas.wf(),
            canvas == hull(*monitor, clients@),
            forall|k: int|
                0 <= k < clients@.len() ==> canvas.holds((#[trigger] clients@[k]).frame()),
            tiles@.len() == i,
            forall|k: int|
                0 <= k < i ==> (#[trigger] tiles@[k]).index == k && tiles@[k].rect == placed(
                    clients@[k].frame(),
                    canvas,
                ) && on_the_map(tiles@[k].rect),
        decreases clients@.len() - i,
    {
        let rect = clients[i].rect();
        assert(canvas.holds(clients@[i as int].frame()));
        proof {
            lemma_share_fits(
                rect.x - canvas.left,
                rect.w as int,
                canvas.right - canvas.left,
            );
            lemma_share_fits(
                rect.y - canvas.top,
                rect.h as int,
                canvas.bottom - canvas.top,
            );
        }
        let across = share_of(
            rect.x as i64 - canvas.left,
            rect.w as i64,
            canvas.right - canvas.left,
        );
        let down = share_of(
            rect.y as i64 - canvas.top,
            rect.h as i64,
            canvas.bottom - canvas.top,
        );
        tiles.push(
            Tile {
                index: i,
                rect: RelativeRect { x: across.0, y: down.0, w: across.1, h: down.1 },
            },
        );
        i = i + 1;
    }
    tiles
}

impl RelativeRect {
    pub open spec fn middle(self) -> (Single, Single) {
        let two = Single { bits: single::TWO };
        (self.x.plus(self.w.over(two)), self.y.plus(self.h.over(two)))
    }

    fn center(&self) -> (r: (Single, Single))
        ensures
            r == self.middle(),
    {
        let two = Single { bits: single::TWO };
        (self.x.sum(self.w.quotient(two)), self.y.sum(self.h.quotient(two)))
    }
}

/// How far one tile's middle is from another's, across and down.
pub open spec fn movement(from: RelativeRect, to: RelativeRect) -> (Single, Single) {
    (to.middle().0.minus(from.middle().0), to.middle().1.minus(from.middle().1))
}

/// The tile lies in the direction, as seen from the current one.
pub open spec fn lies_there(
    current: usize,
    tiles: Seq<Tile>,
    dx: i32,
    dy: i32,
    i: int,
) -> bool {
    let moved = movement(tiles[current as int].rect, tiles[i].rect);
    let apart = Single { bits: APART };
    &&& 0 <= i < tiles.len()
    &&& tiles[i].index != current
    &&& dx != 0 ==> !moved.0.times(single::of_int(dx as int)).up_to(apart)
    &&& dy != 0 ==> !moved.1.times(single::of_int(dy as int)).up_to(apart)
}

/// How far the tile is: what lies aside counts twice.
pub open spec fn remoteness(current: usize, tiles: Seq<Tile>, dx: i32, i: int) -> Single {
    let moved = movement(tiles[current as int].rect, tiles[i].rect);
    let across = moved.0.unsigned();
    let down = moved.1.unsigned();
    let two = Single { bits: single::TWO };
    if dx != 0 {
        across.plus(down.times(two))
    } else {
        down.plus(across.times(two))
    }
}

/// The tile is the nearest in the direction, and the first of those. One whose
/// distance is no number counts only where it is the first of all.
pub open spec fn nearest(current: usize, tiles: Seq<Tile>, dx: i32, dy: i32, i: int) -> bool {
    &&& lies_there(current, tiles, dx, dy, i)
    &&& forall|j: int| #[trigger]
        lies_there(current, tiles, dx, dy, j) ==> !remoteness(current, tiles, dx, j).below(
            remoteness(current, tiles, dx, i),
        )
    &&& forall|j: int|
        0 <= j < i && #[trigger] lies_there(current, tiles, dx, dy, j) ==> remoteness(
            current,
            tiles,
            dx,
            i,
        ).below(remoteness(current, tiles, dx, j)) || (remoteness(
            current,
            tiles,
            dx,
            j,
        ).no_number() && exists|k: int|
            0 <= k < j && #[trigger] lies_there(current, tiles, dx, dy, k))
}

/// The window next to the current one in a direction.
pub fn nearest_in_direction(current: usize, tiles: &[Tile], dx: i32, dy: i32) -> (r: Option<usize>)
    ensures
        current >= tiles@.len() ==> r is None,
        current < tiles@.len() ==> match r {
            Some(index) => exists|i: int|
                #[trigger] nearest(current, tiles@, dx, dy, i) && tiles@[i].index == index,
            None => forall|i: int| !#[trigger] lies_there(current, tiles@, dx, dy, i),
        },
{
    if current >= tiles.len() {
        return None;
    }
    let origin = tiles[current].rect.center();
    let mut best: Option<(Single, usize)> = None;
    let mut i: usize = 0;
    while i < tiles.len()
        invariant
            current < tiles@.len(),
            i <= tiles@.len(),
            origin == tiles@[current as int].rect.middle(),
            best is None ==> forall|j: int|
                0 <= j < i ==> !#[trigger] lies_there(current, tiles@, dx, dy, j),
            best is Some ==> {
                let (score, b) = best->0;
                &&& b < i
                &&& lies_there(current, tiles@, dx, dy, b as int)
                &&& score == remoteness(current, tiles@, dx, b as int)
                &&& forall|j: int|
                    0 <= j < i && #[trigger] lies_there(current, tiles@, dx, dy, j)
                        ==> !remoteness(current, tiles@, dx, j).below(score)
                &&& forall|j: int|
                    0 <= j < b && #[trigger] lies_there(current, tiles@, dx, dy, j)
                        ==> score.below(remoteness(current, tiles@, dx, j)) || (remoteness(
                        current,
                        tiles@,
                        dx,
                        j,
                    ).no_number() && exists|k: int|
                        0 <= k < j && #[trigger] lies_there(current, tiles@, dx, dy, k))
            },
        decreases tiles@.len() - i,
    {
        let center = tiles[i].rect.center();
        let move_x = center.0.difference(origin.0);
        let move_y = center.1.difference(origin.1);
        let apart = Single { bits: APART };
        let there = tiles[i].index != current && (dx == 0 || !move_x.product(
            Single::of(dx as i64),
        ).at_most(apart)) && (dy == 0 || !move_y.product(Single::of(dy as i64)).at_most(apart));
        if there {
            assert(lies_there(current, tiles@, dx, dy, i as int));
            let two = Single { bits: single::TWO };
            let score = if dx != 0 {
                move_x.abs().sum(move_y.abs().product(two))
            } else {
                move_y.abs().sum(move_x.abs().product(two))
            };
            assert(score == remoteness(current, tiles@, dx, i as int));
            let closer = match best {
                Some((least, _)) => score.less(least),
                None => true,
            };
            if closer {
                proof {
                    if let Some((least, b)) = best {
                        assert(lies_there(current, tiles@, dx, dy, b as int));
                        assert forall|j: int|
                            0 <= j < i && #[trigger] lies_there(
                                current,
                                tiles@,
                                dx,
                                dy,
                                j,
                            ) implies score.below(remoteness(current, tiles@, dx, j)) || (
                        remoteness(current, tiles@, dx, j).no_number() && exists|k: int|
                            0 <= k < j && #[trigger] lies_there(
                                current,
                                tiles@,
                                dx,
                                dy,
                                k,
                            )) by {
                            if j > b {
                                assert(lies_there(current, tiles@, dx, dy, b as int));
                            }
                        }
                    }
                }
                best = Some((score, i));
            }
        } else {
            assert(!lies_there(current, tiles@, dx, dy, i as int));
        }
        i = i + 1;
    }
    match best {
        Some((_, b)) => {
            assert(nearest(current, tiles@, dx, dy, b as int));
            Some(tiles[b].index)
        },
        None => None,
    }
}

/// On sides of up to 2^24 pixels, a stretch that lies on its side stays where
/// it is: no part of it has to be moved back.
proof fn lemma_share_stays(offset: int, length: int, side: int)
    requires
        0 <= offset,
        0 <= length,
        offset + length <= side,
        0 < side <= 0x100_0000,
    ensures
        share(offset, length, side) == (
            single::of_int(offset).over(single::of_int(side)).within(
                Single { bits: 0 },
                Single { bits: LAST },
            ),
            single::of_int(length).over(single::of_int(side)).within(
                Single { bits: LEAST },
                Single { bits: single::ONE },
            ),
        ),
{
    let u = single::unit();
    let p = vstd::arithmetic::power2::pow2(125) as int;
    let a = single::of_int(offset).over(single::of_int(side));
    let b = single::of_int(length).over(single::of_int(side));
    let start = a.within(Single { bits: 0 }, Single { bits: LAST });
    let part = b.within(Single { bits: LEAST }, Single { bits: single::ONE });
    single::quotients_are_closest(offset, side);
    single::quotients_are_closest(length, side);
    lemma_close_step(offset, side);
    lemma_close_step(length, side);
    vstd::arithmetic::power2::lemma2_to64();
    vstd::arithmetic::power2::lemma_pow2_adds(24, 125);
    vstd::arithmetic::power2::lemma_pow2_adds(5, 120);
    vstd::arithmetic::power2::lemma_pow2_pos(120);
    single::lemma_amount(a.code());
    single::lemma_amount(b.code());
    single::lemma_amount(start.code());
    single::lemma_amount(part.code());
    single::lemma_amount(LEAST as int);
    single::lemma_amount(LAST as int);
    assert(single::amount(LAST as int) == 0xfa_e148 * vstd::arithmetic::power2::pow2(125));
    assert(single::amount(LEAST as int) == 0xa3_d70a * vstd::arithmetic::power2::pow2(120));
    single::lemma_amount_order(start.code(), a.code());
    single::lemma_amount_order(start.code(), LAST as int);
    if part == b {
        let (x, y) = (a.value(), b.value());
        assert(x + y <= u + p) by (nonlinear_arith)
            requires
                2 * (x * side - offset * u) <= p * side,
                2 * (y * side - length * u) <= p * side,
                offset + length <= side,
                0 < side,
                0 < u,
        ;
    }
    assert(0 <= start.value() + part.value() <= u + p);
    single::lemma_near_one(start.value() + part.value());
}

/// A share is within half a 2^-24th of the fraction.
proof fn lemma_close_step(n: int, s: int)
    requires
        0 <= n <= s,
        0 < s <= 0x100_0000,
    ensures
        ({
            let q = single::of_int(n).over(single::of_int(s));
            let step = vstd::arithmetic::power2::pow2(125) * s;
            -step <= 2 * (q.value() * s - n * single::unit()) <= step
        }),
{
    let q = single::of_int(n).over(single::of_int(s));
    let u = single::unit();
    let p = vstd::arithmetic::power2::pow2(125) as int;
    vstd::arithmetic::power2::lemma2_to64();
    vstd::arithmetic::power2::lemma_pow2_adds(24, 125);
    vstd::arithmetic::power2::lemma_pow2_pos(125);
    single::quotients_are_closest(n, s);
    let z = n * 0x100_0000;
    let k = (2 * z + s) / (2 * s);
    assert(-s <= 2 * (k * s - z) <= s && 0 <= k <= 0x100_0000) by (nonlinear_arith)
        requires
            k == (2 * z + s) / (2 * s),
            z == n * 0x100_0000,
            0 <= n <= s,
            0 < s,
    ;
    single::lemma_exact(k, 125);
    let code = single::near(k * p, 1);
    assert(single::size(q.value() * s - n * u) <= single::size(single::amount(code) * s - n * u));
    let e = k * s - z;
    assert(k * p * s - n * u == e * p) by (nonlinear_arith)
        requires
            e == k * s - z,
            z == n * 0x100_0000,
            u == 0x100_0000 * p,
    ;
    assert(-(s * p) <= 2 * (e * p) <= s * p) by (nonlinear_arith)
        requires
            -s <= 2 * e <= s,
            0 < p,
    ;
}

/// Only fractions near the bounds are brought to them.
proof fn lemma_capped(n: int, s: int)
    requires
        0 <= n <= s,
        0 < s <= 0x100_0000,
    ensures
        ({
            let q = single::of_int(n).over(single::of_int(s));
            let start = q.within(Single { bits: 0 }, Single { bits: LAST });
            let part = q.within(Single { bits: LEAST }, Single { bits: single::ONE });
            &&& single::closest(start, n, s) || (start == Single { bits: LAST } && 100 * n >= 97
                * s)
            &&& single::closest(part, n, s) || (part == Single { bits: LEAST } && 100 * n <= 3 * s)
        }),
{
    let q = single::of_int(n).over(single::of_int(s));
    let u = single::unit();
    let p = vstd::arithmetic::power2::pow2(125) as int;
    single::quotients_are_closest(n, s);
    lemma_close_step(n, s);
    vstd::arithmetic::power2::lemma2_to64();
    vstd::arithmetic::power2::lemma_pow2_adds(24, 125);
    vstd::arithmetic::power2::lemma_pow2_adds(5, 120);
    vstd::arithmetic::power2::lemma_pow2_pos(120);
    single::lemma_amount(LEAST as int);
    single::lemma_amount(LAST as int);
    assert(single::amount(LAST as int) == 0xfa_e148 * p);
    assert(single::amount(LEAST as int) == 0xa3_d70a * vstd::arithmetic::power2::pow2(120));
    let v = q.value();
    if q.code() > LAST {
        single::lemma_amount_order(LAST as int, q.code());
        assert(100 * n >= 97 * s) by (nonlinear_arith)
            requires
                2 * (v * s - n * u) <= p * s,
                v >= 0xfa_e148 * p,
                u == 0x100_0000 * p,
                0 < p,
                0 < s,
        ;
    }
    if q.code() < LEAST {
        single::lemma_amount_order(q.code(), LEAST as int);
        assert(100 * n <= 3 * s) by (nonlinear_arith)
            requires
                2 * (v * s - n * u) >= -(p * s),
                32 * v <= 0xa3_d70a * p,
                u == 0x100_0000 * p,
                0 < p,
                0 < s,
        ;
    }
}

/// The map shows windows in proportion. On maps of up to 2^24 pixels, no number
/// is closer than a tile's to the part of the map's side that lies before its
/// window, or that the window takes. Only a window in the last three hundredths
/// of the map may start elsewhere, and only one that takes no more than those
/// may have another size: its tile is kept from becoming too narrow.
pub proof fn tiles_show_windows_in_proportion(
    monitor: Monitor,
    clients: Seq<&Client>,
    i: int,
)
    requires
        0 <= i < clients.len(),
        hull(monitor, clients).right - hull(monitor, clients).left <= 0x100_0000,
        hull(monitor, clients).bottom - hull(monitor, clients).top <= 0x100_0000,
    ensures
        ({
            let map = hull(monitor, clients);
            let window = clients[i].frame();
            let tile = placed(window, map);
            let last = Single { bits: LAST };
            let least = Single { bits: LEAST };
            &&& single::closest(tile.x, window.x - map.left, map.right - map.left) || (tile.x == last
                && 100 * (window.x - map.left) >= 97 * (map.right - map.left))
            &&& single::closest(tile.y, window.y - map.top, map.bottom - map.top) || (tile.y == last
                && 100 * (window.y - map.top) >= 97 * (map.bottom - map.top))
            &&& single::closest(tile.w, window.w as int, map.right - map.left) || (tile.w == least
                && 100 * window.w <= 3 * (map.right - map.left))
            &&& single::closest(tile.h, window.h as int, map.bottom - map.top) || (tile.h == least
                && 100 * window.h <= 3 * (map.bottom - map.top))
        }),
{
    the_map_holds_every_window(monitor, clients);
    let map = hull(monitor, clients);
    let window = clients[i].frame();
    assert(map.holds(window));
    lemma_share_stays(window.x - map.left, window.w as int, map.right - map.left);
    lemma_share_stays(window.y - map.top, window.h as int, map.bottom - map.top);
    lemma_capped(window.x - map.left, map.right - map.left);
    lemma_capped(window.w as int, map.right - map.left);
    lemma_capped(window.y - map.top, map.bottom - map.top);
    lemma_capped(window.h as int, map.bottom - map.top);
}

proof fn lemma_shares_in_order(a: int, b: int, length: int, other: int, side: int)
    requires
        0 <= a <= b,
        0 <= length,
        0 <= other,
        a + length <= side,
        b + other <= side,
        0 < side <= 0x100_0000,
    ensures
        share(a, length, side).0.up_to(share(b, other, side).0),
{
    let u = single::unit();
    lemma_share_stays(a, length, side);
    lemma_share_stays(b, other, side);
    single::quotients_are_closest(a, side);
    single::quotients_are_closest(b, side);
    vstd::arithmetic::power2::lemma_pow2_pos(149);
    assert(0 <= a * u * u <= b * u * u && 0 < side * u) by (nonlinear_arith)
        requires
            0 <= a <= b,
            0 < side,
            0 < u,
    ;
    single::lemma_near_order(a * u * u, b * u * u, side * u);
}

/// The map keeps the order of windows: of two, the one further right has no
/// tile further left, and the one further down none further up.
pub proof fn the_map_keeps_the_order_of_windows(
    monitor: Monitor,
    clients: Seq<&Client>,
    i: int,
    j: int,
)
    requires
        0 <= i < clients.len(),
        0 <= j < clients.len(),
        hull(monitor, clients).right - hull(monitor, clients).left <= 0x100_0000,
        hull(monitor, clients).bottom - hull(monitor, clients).top <= 0x100_0000,
    ensures
        ({
            let map = hull(monitor, clients);
            let a = placed(clients[i].frame(), map);
            let b = placed(clients[j].frame(), map);
            &&& clients[i].frame().x <= clients[j].frame().x ==> a.x.up_to(b.x)
            &&& clients[i].frame().y <= clients[j].frame().y ==> a.y.up_to(b.y)
        }),
{
    the_map_holds_every_window(monitor, clients);
    let map = hull(monitor, clients);
    let (p, q) = (clients[i].frame(), clients[j].frame());
    assert(map.holds(p) && map.holds(q));
    if p.x <= q.x {
        lemma_shares_in_order(
            p.x - map.left,
            q.x - map.left,
            p.w as int,
            q.w as int,
            map.right - map.left,
        );
    }
    if p.y <= q.y {
        lemma_shares_in_order(
            p.y - map.top,
            q.y - map.top,
            p.h as int,
            q.h as int,
            map.bottom - map.top,
        );
    }
}

/// A window that was moved.
pub open spec fn moved_by(before: Client, after: Client, dx: int, dy: int) -> bool {
    &&& after.at[0] == before.at[0] + dx
    &&& after.at[1] == before.at[1] + dy
    &&& after.size[0] == before.size[0]
    &&& after.size[1] == before.size[1]
}

proof fn lemma_moved_hull(
    monitor: Monitor,
    other: Monitor,
    clients: Seq<&Client>,
    moved: Seq<&Client>,
    dx: int,
    dy: int,
)
    requires
        other == (Monitor { x: other.x, y: other.y, ..monitor }),
        other.x == monitor.x + dx,
        other.y == monitor.y + dy,
        clients.len() == moved.len(),
        forall|i: int|
            0 <= i < clients.len() ==> moved_by(*(#[trigger] clients[i]), *moved[i], dx, dy),
    ensures
        hull(other, moved).left == hull(monitor, clients).left + dx,
        hull(other, moved).right == hull(monitor, clients).right + dx,
        hull(other, moved).top == hull(monitor, clients).top + dy,
        hull(other, moved).bottom == hull(monitor, clients).bottom + dy,
    decreases clients.len(),
{
    the_map_holds_every_window(monitor, clients);
    if clients.len() > 0 {
        let (a, b) = (clients.drop_last(), moved.drop_last());
        assert forall|i: int| 0 <= i < a.len() implies moved_by(*(#[trigger] a[i]), *b[i], dx, dy) by {
            assert(moved_by(*clients[i], *moved[i], dx, dy));
        }
        lemma_moved_hull(monitor, other, a, b, dx, dy);
        the_map_holds_every_window(monitor, a);
        let n = clients.len() - 1;
        assert(moved_by(*clients[n], *moved[n], dx, dy));
    }
}

/// The map does not depend on where the monitor lies: moving it with all its
/// windows leaves every tile where it was.
pub proof fn moving_a_monitor_leaves_its_map(
    monitor: Monitor,
    other: Monitor,
    clients: Seq<&Client>,
    moved: Seq<&Client>,
    dx: int,
    dy: int,
    i: int,
)
    requires
        other == (Monitor { x: other.x, y: other.y, ..monitor }),
        other.x == monitor.x + dx,
        other.y == monitor.y + dy,
        clients.len() == moved.len(),
        forall|k: int|
            0 <= k < clients.len() ==> moved_by(*(#[trigger] clients[k]), *moved[k], dx, dy),
        0 <= i < clients.len(),
    ensures
        placed(moved[i].frame(), hull(other, moved)) == placed(
            clients[i].frame(),
            hull(monitor, clients),
        ),
{
    lemma_moved_hull(monitor, other, clients, moved, dx, dy);
    assert(moved_by(*clients[i], *moved[i], dx, dy));
}

/// The map is no larger than the monitor and its windows make it: each of its
/// edges is one of theirs.
pub proof fn the_map_is_no_larger_than_needed(monitor: Monitor, clients: Seq<&Client>)
    ensures
        ({
            let map = hull(monitor, clients);
            let area = monitor.area();
            &&& map.left == area.x || exists|i: int|
                0 <= i < clients.len() && map.left == (#[trigger] clients[i]).frame().x
            &&& map.top == area.y || exists|i: int|
                0 <= i < clients.len() && map.top == (#[trigger] clients[i]).frame().y
            &&& map.right == area.x + area.w || exists|i: int|
                0 <= i < clients.len() && map.right == (#[trigger] clients[i]).frame().x
                    + clients[i].frame().w
            &&& map.bottom == area.y + area.h || exists|i: int|
                0 <= i < clients.len() && map.bottom == (#[trigger] clients[i]).frame().y
                    + clients[i].frame().h
        }),
    decreases clients.len(),
{
    if clients.len() > 0 {
        let rest = clients.drop_last();
        the_map_is_no_larger_than_needed(monitor, rest);
        let before = hull(monitor, rest);
        let last = clients.len() - 1;
        assert(clients[last] == clients.last());
        assert forall|i: int| 0 <= i < rest.len() implies #[trigger] rest[i] == clients[i] by {}
    }
}

proof fn lemma_towards(from: Single, to: Single, step: int)
    requires
        from.finite(),
        to.finite(),
        step != 0,
        i32::MIN <= step <= i32::MAX,
        !to.minus(from).times(single::of_int(step)).up_to(Single { bits: APART }),
    ensures
        step > 0 ==> from.below(to),
        step < 0 ==> to.below(from),
{
    let gap = to.minus(from);
    let away = single::of_int(step);
    let sum = to.value() + from.flipped().value();
    single::lemma_of_int(step);
    single::lemma_amount(from.code());
    single::lemma_amount(to.code());
    single::lemma_near_order(single::size(sum), single::size(sum), 1);
    single::lemma_near_order(0, single::size(sum), 1);
    assert(!gap.no_number());
    assert(sum > 0 ==> !gap.negative());
    assert(sum < 0 ==> gap.negative());
    assert(sum == 0 ==> gap.code() == 0);
    single::lemma_amount(0);
    single::lemma_amount(gap.code());
    single::lemma_amount(away.code());
    vstd::arithmetic::power2::lemma_pow2_pos(149);
    let m = single::amount(gap.code()) * single::amount(away.code());
    assert(0 <= m && (gap.code() == 0 ==> m == 0)) by (nonlinear_arith)
        requires
            m == single::amount(gap.code()) * single::amount(away.code()),
            0 <= single::amount(gap.code()),
            0 <= single::amount(away.code()),
            gap.code() == 0 ==> single::amount(gap.code()) == 0,
    ;
    single::lemma_near_order(m, m, single::unit());
    if gap.code() == 0 {
        assert(single::near(0, single::unit()) == 0) by {
            assert(0int / single::unit() == 0 && 0int % single::unit() == 0) by (nonlinear_arith)
                requires
                    0 < single::unit(),
            ;
        }
    }
    let far = gap.times(away);
    assert(away.negative() == (step < 0));
    assert(!far.no_number());
    assert(gap.code() == 0 ==> far.code() == 0);
    assert(far.negative() ==> far.place() <= 0);
    assert(!far.negative() && gap.code() > 0);
    assert(far.negative() == (gap.negative() != away.negative()));
    assert(from.flipped().value() == -from.value());
    // Numbers are ordered as what they stand for.
    if !from.negative() && !to.negative() {
        if from.code() >= to.code() {
            single::lemma_amount_order(to.code(), from.code());
        } else {
            single::lemma_amount_order(from.code(), to.code());
        }
    }
    if from.negative() && to.negative() {
        if from.code() >= to.code() {
            single::lemma_amount_order(to.code(), from.code());
        } else {
            single::lemma_amount_order(from.code(), to.code());
        }
    }
}

/// An arrow key goes its way: the tile that it reaches has its middle on that
/// side of the current one's.
pub proof fn arrows_go_their_way(current: usize, tiles: Seq<Tile>, dx: i32, dy: i32, i: int)
    requires
        current < tiles.len(),
        nearest(current, tiles, dx, dy, i),
        tiles[current as int].rect.middle().0.finite(),
        tiles[current as int].rect.middle().1.finite(),
        tiles[i].rect.middle().0.finite(),
        tiles[i].rect.middle().1.finite(),
    ensures
        ({
            let from = tiles[current as int].rect.middle();
            let to = tiles[i].rect.middle();
            &&& tiles[i].index != current
            &&& dx > 0 ==> from.0.below(to.0)
            &&& dx < 0 ==> to.0.below(from.0)
            &&& dy > 0 ==> from.1.below(to.1)
            &&& dy < 0 ==> to.1.below(from.1)
        }),
{
    let from = tiles[current as int].rect.middle();
    let to = tiles[i].rect.middle();
    if dx != 0 {
        lemma_towards(from.0, to.0, dx as int);
    }
    if dy != 0 {
        lemma_towards(from.1, to.1, dy as int);
    }
}

/// The middle of a tile on the map is a finite number.
pub proof fn lemma_placed_middle(rect: Rect, map: Canvas)
    requires
        map.wf(),
        map.holds(rect),
        rect.w >= 1,
        rect.h >= 1,
    ensures
        placed(rect, map).middle().0.finite(),
        placed(rect, map).middle().1.finite(),
{
    lemma_share_fits(rect.x - map.left, rect.w as int, map.right - map.left);
    lemma_share_fits(rect.y - map.top, rect.h as int, map.bottom - map.top);
    let tile = placed(rect, map);
    lemma_middle(tile.x, tile.w);
    lemma_middle(tile.y, tile.h);
}

proof fn lemma_middle(start: Single, part: Single)
    requires
        fits((start, part)),
    ensures
        start.plus(part.over(Single { bits: single::TWO })).finite(),
{
    let two = Single { bits: single::TWO };
    let u = single::unit();
    // Neither is more than one.
    lemma_parts_of_one(start, part);
    let half = part.over(two);
    vstd::arithmetic::power2::lemma2_to64();
    vstd::arithmetic::power2::lemma_pow2_pos(149);
    vstd::arithmetic::power2::lemma_pow2_adds(23, 126);
    vstd::arithmetic::power2::lemma_pow2_adds(23, 127);
    vstd::arithmetic::power2::lemma_pow2_adds(1, 149);
    vstd::arithmetic::power2::lemma_pow2_pos(126);
    vstd::arithmetic::power2::lemma_pow2_pos(127);
    single::lemma_amount(single::ONE as int);
    single::lemma_amount(single::TWO as int);
    assert(single::amount(single::ONE as int) == u);
    assert(single::amount(single::TWO as int) == 2 * u);
    single::lemma_amount(part.code());
    single::lemma_amount(start.code());
    single::lemma_amount_order(part.code(), single::ONE as int);
    single::lemma_amount_order(start.code(), single::ONE as int);
    let n = single::amount(part.code()) * u;
    let d = 2 * u;
    assert(0 <= n <= u * d) by (nonlinear_arith)
        requires
            n == single::amount(part.code()) * u,
            0 <= single::amount(part.code()) <= u,
            d == 2 * u,
            0 < u,
    ;
    assert(0 < vstd::arithmetic::power2::pow2(126) * d) by (nonlinear_arith)
        requires
            0 < vstd::arithmetic::power2::pow2(126),
            0 < d,
    ;
    single::lemma_near_close(0x80_0000, 126, d, 0);
    single::lemma_near_order(n, u * d, d);
    assert(half.code() <= single::ONE);
    single::lemma_amount(half.code());
    single::lemma_amount_order(half.code(), single::ONE as int);
    let sum = start.value() + half.value();
    single::lemma_near_close(0x80_0000, 127, 1, 0);
    single::lemma_near_order(single::size(sum), 2 * u, 1);
}

/// What adds up to no more than one is no more than one.
proof fn lemma_parts_of_one(start: Single, part: Single)
    requires
        fits((start, part)),
    ensures
        start.code() <= single::ONE,
        part.code() <= single::ONE,
        !part.negative(),
{
    let sum = start.value() + part.value();
    if start.finite() && part.finite() {
        single::lemma_amount(start.code());
        single::lemma_amount(part.code());
        single::lemma_amount(0);
        single::lemma_near_amount(start.code());
        single::lemma_near_amount(part.code());
        assert(0 <= start.value() && 0 < part.value());
        single::lemma_near_order(start.value(), sum, 1);
        single::lemma_near_order(part.value(), sum, 1);
        assert(single::near(sum, 1) <= single::ONE);
    }
}

} // verus!
