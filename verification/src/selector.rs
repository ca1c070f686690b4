//! Choosing a region with a pointer, a keyboard or touch.

use vstd::prelude::*;

use crate::output::{Output, Outputs};
use crate::overlay;
use crate::overlay::{Draw, DrawError, Overlay};
use crate::pixels;
use crate::rect::{Rect, Region};
use crate::text;

verus! {

/// The evdev code of the left button.
pub const LEFT_BUTTON: u32 = 0x110;

/// Evdev key codes.
pub const KEY_ESCAPE: u32 = 1;

pub const KEY_SPACE: u32 = 57;

pub const KEY_LEFT_SHIFT: u32 = 42;

pub const KEY_RIGHT_SHIFT: u32 = 54;

/// How long overlays may take to get a size, in microseconds.
pub const SETUP_TIMEOUT: u64 = 5_000_000;

/// `a + b`, held to what fits.
pub open spec fn saturated(v: int) -> i32 {
    if v > i32::MAX {
        i32::MAX
    } else if v < i32::MIN {
        i32::MIN
    } else {
        v as i32
    }
}

fn saturate(v: i64) -> (r: i32)
    ensures
        r == saturated(v as int),
{
    if v > 0x7fff_ffff {
        0x7fff_ffff
    } else if v < -0x8000_0000 {
        -0x8000_0000
    } else {
        v as i32
    }
}

/// A drag between an anchor and the pointer.
#[derive(Debug, Clone, Copy)]
pub struct Drag {
    pub anchor: Option<(i32, i32)>,
    pub position: (i32, i32),
    /// The seat that drags; others are ignored until it is done.
    pub owner: Option<u32>,
    /// The whole rectangle moves with the pointer.
    pub moving: bool,
    /// Both sides are the longer one.
    pub square: bool,
}

impl Default for Drag {
    fn default() -> (r: Drag)
        ensures
            r == (Drag {
                anchor: None,
                position: (0, 0),
                owner: None,
                moving: false,
                square: false,
            }),
    {
        Drag { anchor: None, position: (0, 0), owner: None, moving: false, square: false }
    }
}

/// The pixels from `a` to `b`, both counted.
pub open spec fn extent(a: i32, b: i32) -> u32 {
    let distance = if a >= b { a - b } else { b - a };
    if distance + 1 > u32::MAX {
        u32::MAX
    } else {
        (distance + 1) as u32
    }
}

fn extent_of(a: i32, b: i32) -> (r: u32)
    ensures
        r == extent(a, b),
        r > 0,
{
    let distance: i64 = if a >= b { a as i64 - b as i64 } else { b as i64 - a as i64 };
    if distance >= 0xffff_ffff {
        0xffff_ffff
    } else {
        (distance + 1) as u32
    }
}

/// Where `length` pixels that end at the anchor start, or the anchor itself
/// when they grow forward.
pub open spec fn near_side(anchor: i32, position: i32, length: u32) -> i32 {
    if position >= anchor {
        anchor
    } else {
        let back = length - 1;
        saturated(anchor - if back > i32::MAX { i32::MAX as int } else { back })
    }
}

fn near_side_of(anchor: i32, position: i32, length: u32) -> (r: i32)
    requires
        length > 0,
    ensures
        r == near_side(anchor, position, length),
{
    if position >= anchor {
        anchor
    } else {
        let back: i64 = if length - 1 > 0x7fff_ffff {
            0x7fff_ffff
        } else {
            (length - 1) as i64
        };
        saturate(anchor as i64 - back)
    }
}

impl Drag {
    /// A seat's pointer moves. While the rectangle is moving its anchor comes
    /// along.
    pub open spec fn moved(self, seat: u32, position: (i32, i32)) -> Drag {
        if self.owner is Some && self.owner->0 != seat {
            self
        } else {
            Drag {
                anchor: match self.anchor {
                    Some(anchor) if self.moving => Some(
                        (
                            saturated(anchor.0 + saturated(position.0 - self.position.0)),
                            saturated(anchor.1 + saturated(position.1 - self.position.1)),
                        ),
                    ),
                    anchor => anchor,
                },
                position,
                ..self
            }
        }
    }

    /// A seat presses: it owns the drag if nobody does.
    pub open spec fn started(self, seat: u32) -> Drag {
        if self.owner is None {
            Drag { owner: Some(seat), anchor: Some(self.position), ..self }
        } else {
            self
        }
    }

    /// The selected rectangle, with both corners in it.
    pub open spec fn area(self) -> Option<Rect> {
        match self.anchor {
            None => None,
            Some(anchor) => {
                let w = extent(anchor.0, self.position.0);
                let h = extent(anchor.1, self.position.1);
                let longer = if w >= h { w } else { h };
                let width = if self.square { longer } else { w };
                let height = if self.square { longer } else { h };
                Some(
                    Rect {
                        x: near_side(anchor.0, self.position.0, width),
                        y: near_side(anchor.1, self.position.1, height),
                        width,
                        height,
                    },
                )
            },
        }
    }

    pub fn motion(&mut self, seat: u32, position: (i32, i32))
        ensures
            *final(self) == old(self).moved(seat, position),
    {
        if let Some(owner) = self.owner {
            if owner != seat {
                return ;
            }
        }
        if self.moving {
            if let Some(anchor) = self.anchor {
                let dx: i32 = saturate(position.0 as i64 - self.position.0 as i64);
                let dy: i32 = saturate(position.1 as i64 - self.position.1 as i64);
                self.anchor = Some(
                    (saturate(anchor.0 as i64 + dx as i64), saturate(anchor.1 as i64 + dy as i64)),
                );
            }
        }
        self.position = position;
    }

    pub fn start(&mut self, seat: u32)
        ensures
            *final(self) == old(self).started(seat),
    {
        if self.owner.is_none() {
            self.owner = Some(seat);
            self.anchor = Some(self.position);
        }
    }

    pub fn rect(&self) -> (r: Option<Rect>)
        ensures
            r == self.area(),
    {
        let anchor: (i32, i32) = match self.anchor {
            Some(anchor) => anchor,
            None => return None,
        };
        let mut width: u32 = extent_of(anchor.0, self.position.0);
        let mut height: u32 = extent_of(anchor.1, self.position.1);
        if self.square {
            width = if width >= height {
                width
            } else {
                height
            };
            height = width;
        }
        Some(
            Rect {
                x: near_side_of(anchor.0, self.position.0, width),
                y: near_side_of(anchor.1, self.position.1, height),
                width,
                height,
            },
        )
    }
}

/// The side of a drag's rectangle along one axis: of a square, the longer one.
pub open spec fn side(drag: Drag, own: u32, other: u32) -> u32 {
    if drag.square && other > own {
        other
    } else {
        own
    }
}

/// A side of that length, from the anchor towards the pointer, stays within
/// the coordinate range.
pub open spec fn reaches(anchor: i32, position: i32, length: u32) -> bool {
    if position >= anchor {
        position - anchor < length
    } else {
        length - 1 <= i32::MAX && anchor - (length - 1) >= i32::MIN
    }
}

/// A drag's rectangle holds the anchor and the pointer, as far as coordinates
/// reach.
pub proof fn a_drag_covers_both_corners(drag: Drag)
    requires
        drag.anchor matches Some(anchor) && ({
            let w = extent(anchor.0, drag.position.0);
            let h = extent(anchor.1, drag.position.1);
            &&& reaches(anchor.0, drag.position.0, side(drag, w, h))
            &&& reaches(anchor.1, drag.position.1, side(drag, h, w))
        }),
    ensures
        ({
            let r = drag.area()->0;
            &&& r.width > 0 && r.height > 0
            &&& drag.square ==> r.width == r.height
            &&& r.has((drag.anchor->0).0 as int, (drag.anchor->0).1 as int)
            &&& r.has(drag.position.0 as int, drag.position.1 as int)
        }),
{
}

/// Moving the rectangle keeps its size while nothing leaves the coordinate
/// range.
pub proof fn moving_keeps_the_size(drag: Drag, seat: u32, position: (i32, i32))
    requires
        drag.moving,
        drag.anchor is Some,
        i32::MIN <= position.0 - drag.position.0 <= i32::MAX,
        i32::MIN <= position.1 - drag.position.1 <= i32::MAX,
        i32::MIN <= (drag.anchor->0).0 + position.0 - drag.position.0 <= i32::MAX,
        i32::MIN <= (drag.anchor->0).1 + position.1 - drag.position.1 <= i32::MAX,
    ensures
        drag.moved(seat, position).area()->0.width == drag.area()->0.width,
        drag.moved(seat, position).area()->0.height == drag.area()->0.height,
{
}

/// Why a selection ended without a region.
#[derive(Debug, Clone, Copy, PartialEq, Eq, Structural)]
pub enum Error {
    Cancelled,
    OutsideOutputs,
    EmptyRegion,
    NoName,
    NoCompositor,
    NoLayerShell,
    NoSeat,
    NoOutputs,
    NotReady,
    EmptyOutput,
    LayoutChanged,
    InputDisconnected,
    OutputDisconnected,
    WidthOverflow,
    HeightOverflow,
    Pixels(pixels::Error),
}

impl Error {
    /// The words shown for the error.
    pub open spec fn text(self) -> Seq<char> {
        match self {
            Error::Cancelled => "region selection cancelled"@,
            Error::OutsideOutputs =>
                "region selection cancelled: start of region is outside all outputs"@,
            Error::EmptyRegion => "region selection cancelled: empty region"@,
            Error::NoName => "selected output has no name"@,
            Error::NoCompositor => "region selection requires wl_compositor"@,
            Error::NoLayerShell => "region selection requires layer-shell support"@,
            Error::NoSeat => "region selection requires an input seat"@,
            Error::NoOutputs => "no outputs available for region selection"@,
            Error::NotReady => "region selection overlay did not become ready"@,
            Error::EmptyOutput => "region selector received an empty output"@,
            Error::LayoutChanged => "region selection cancelled: display layout changed"@,
            Error::InputDisconnected => "region selection cancelled: input device disconnected"@,
            Error::OutputDisconnected => "selected output disconnected"@,
            Error::WidthOverflow => "overlay width overflow"@,
            Error::HeightOverflow => "overlay height overflow"@,
            Error::Pixels(error) => error.text(),
        }
    }

    pub fn message(&self) -> (r: String)
        ensures
            r@ == self.text(),
    {
        let words = match *self {
            Error::Cancelled => "region selection cancelled",
            Error::OutsideOutputs =>
                "region selection cancelled: start of region is outside all outputs",
            Error::EmptyRegion => "region selection cancelled: empty region",
            Error::NoName => "selected output has no name",
            Error::NoCompositor => "region selection requires wl_compositor",
            Error::NoLayerShell => "region selection requires layer-shell support",
            Error::NoSeat => "region selection requires an input seat",
            Error::NoOutputs => "no outputs available for region selection",
            Error::NotReady => "region selection overlay did not become ready",
            Error::EmptyOutput => "region selector received an empty output",
            Error::LayoutChanged => "region selection cancelled: display layout changed",
            Error::InputDisconnected => "region selection cancelled: input device disconnected",
            Error::OutputDisconnected => "selected output disconnected",
            Error::WidthOverflow => "overlay width overflow",
            Error::HeightOverflow => "overlay height overflow",
            Error::Pixels(error) => return error.message(),
        };
        words.to_owned()
    }
}

/// The rectangle starts on the output.
pub open spec fn starts_on(rect: Rect, output: Rect) -> bool {
    output.has(rect.x as int, rect.y as int)
}

fn starts_on_output(rect: Rect, output: Rect) -> (r: bool)
    ensures
        r == starts_on(rect, output),
{
    rect.x >= output.x && (rect.x as i64) < output.right() && rect.y >= output.y && (rect.y as i64)
        < output.bottom()
}

/// The rectangle starts within a signed integer of the corner of each output
/// it starts on.
pub open spec fn starts_near(rect: Rect, output: Rect) -> bool {
    starts_on(rect, output) ==> rect.x - output.x <= i32::MAX && rect.y - output.y <= i32::MAX
}

/// The part of a rectangle on the output it starts on, relative to it.
pub open spec fn region_on(rect: Rect, name: Seq<char>, output: Rect, r: Result<Region, Error>) -> bool {
    match rect.overlap(output) {
        None => r == Err::<Region, Error>(Error::EmptyRegion),
        Some(clipped) => if name.len() == 0 {
            r == Err::<Region, Error>(Error::NoName)
        } else {
            &&& r matches Ok(region)
            &&& region.output@ == name
            &&& region.rect == (Rect {
                x: (clipped.x - output.x) as i32,
                y: (clipped.y - output.y) as i32,
                ..clipped
            })
        },
    }
}

fn clip_region(rect: Rect, name: &str, output: Rect) -> (r: Result<Region, Error>)
    requires
        starts_on(rect, output),
        starts_near(rect, output),
    ensures
        region_on(rect, name@, output, r),
{
    let clipped = match rect.intersect(output) {
        Some(clipped) => clipped,
        None => return Err(Error::EmptyRegion),
    };
    if name.is_empty() {
        return Err(Error::NoName);
    }
    Ok(
        Region {
            output: name.to_owned(),
            rect: Rect {
                x: (clipped.x as i64 - output.x as i64) as i32,
                y: (clipped.y as i64 - output.y as i64) as i32,
                width: clipped.width,
                height: clipped.height,
            },
        },
    )
}

/// The first output that the rectangle starts on is at `i`.
pub open spec fn first_start(rect: Rect, outputs: Seq<(String, Rect)>, i: int) -> bool {
    &&& 0 <= i < outputs.len()
    &&& starts_on(rect, outputs[i].1)
    &&& forall|j: int| 0 <= j < i ==> !starts_on(rect, (#[trigger] outputs[j]).1)
}

/// The portal's single-output selection: the first output that contains the
/// top-left corner owns the region, and its dimensions are clipped to that
/// output.
pub fn region_in_output(rect: Rect, outputs: &[(String, Rect)]) -> (r: Result<Region, Error>)
    requires
        forall|i: int| 0 <= i < outputs@.len() ==> starts_near(rect, (#[trigger] outputs@[i]).1),
    ensures
        (r == Err::<Region, Error>(Error::OutsideOutputs) && forall|i: int|
            0 <= i < outputs@.len() ==> !starts_on(rect, (#[trigger] outputs@[i]).1)) || exists|
            i: int,
        |
            #[trigger] first_start(rect, outputs@, i) && region_on(
                rect,
                outputs@[i].0@,
                outputs@[i].1,
                r,
            ),
{
    let mut i: usize = 0;
    while i < outputs.len()
        invariant
            i <= outputs@.len(),
            forall|k: int|
                0 <= k < outputs@.len() ==> starts_near(rect, (#[trigger] outputs@[k]).1),
            forall|k: int| 0 <= k < i ==> !starts_on(rect, (#[trigger] outputs@[k]).1),
        decreases outputs@.len() - i,
    {
        if starts_on_output(rect, outputs[i].1) {
            assert(first_start(rect, outputs@, i as int));
            assert(starts_near(rect, outputs@[i as int].1));
            return clip_region(rect, outputs[i].0.as_str(), outputs[i].1);
        }
        i = i + 1;
    }
    Err(Error::OutsideOutputs)
}

/// Of the outputs the rectangle starts on, `i` has the first name; of equal
/// names the lowest number counts.
pub open spec fn owner_at(rect: Rect, outputs: Outputs, i: int) -> bool {
    &&& 0 <= i < outputs.list@.len()
    &&& starts_on(rect, outputs.list@[i].1.area())
    &&& forall|j: int|
        0 <= j < outputs.list@.len() && starts_on(rect, (#[trigger] outputs.list@[j]).1.area())
            ==> !text::precedes(outputs.list@[j].1.name@, outputs.list@[i].1.name@)
    &&& forall|j: int|
        0 <= j < i && starts_on(rect, (#[trigger] outputs.list@[j]).1.area()) ==> text::precedes(
            outputs.list@[i].1.name@,
            outputs.list@[j].1.name@,
        )
}

fn owner_of(rect: Rect, outputs: &Outputs) -> (r: Option<usize>)
    ensures
        match r {
            Some(i) => owner_at(rect, *outputs, i as int),
            None => forall|j: int|
                0 <= j < outputs.list@.len() ==> !starts_on(
                    rect,
                    (#[trigger] outputs.list@[j]).1.area(),
                ),
        },
{
    let mut best: Option<usize> = None;
    let mut i: usize = 0;
    while i < outputs.list.len()
        invariant
            i <= outputs.list@.len(),
            match best {
                Some(b) => b < i && starts_on(rect, outputs.list@[b as int].1.area()) && (forall|
                    j: int,
                |
                    0 <= j < i && starts_on(rect, (#[trigger] outputs.list@[j]).1.area())
                        ==> !text::precedes(
                        outputs.list@[j].1.name@,
                        outputs.list@[b as int].1.name@,
                    )) && (forall|j: int|
                    0 <= j < b && starts_on(rect, (#[trigger] outputs.list@[j]).1.area())
                        ==> text::precedes(
                        outputs.list@[b as int].1.name@,
                        outputs.list@[j].1.name@,
                    )),
                None => forall|j: int|
                    0 <= j < i ==> !starts_on(rect, (#[trigger] outputs.list@[j]).1.area()),
            },
        decreases outputs.list@.len() - i,
    {
        let ghost before = best;
        if starts_on_output(rect, outputs.list[i].1.rect()) {
            let better = match best {
                Some(b) => text::comes_before(
                    outputs.list[i].1.name.as_str(),
                    outputs.list[b].1.name.as_str(),
                ),
                None => true,
            };
            proof {
                let name = outputs.list@[i as int].1.name@;
                text::lemma_order(name, name, name);
                if better && before is Some {
                    let held = outputs.list@[before->0 as int].1.name@;
                    assert forall|j: int|
                        0 <= j < i && starts_on(
                            rect,
                            (#[trigger] outputs.list@[j]).1.area(),
                        ) implies text::precedes(name, outputs.list@[j].1.name@) && !text::precedes(
                        outputs.list@[j].1.name@,
                        name,
                    ) by {
                        text::lemma_order(name, held, outputs.list@[j].1.name@);
                        text::lemma_order(
                            name,
                            outputs.list@[j].1.name@,
                            outputs.list@[j].1.name@,
                        );
                    }
                }
            }
            if better {
                best = Some(i);
            }
        }
        i = i + 1;
    }
    best
}

/// A change to the drag.
#[derive(Debug, Clone, Copy)]
pub enum Change {
    Motion { seat: u32, position: (i32, i32) },
    Start { seat: u32 },
    Square { on: bool },
}

/// The drag after a change.
pub open spec fn dragged(drag: Drag, change: Change) -> Drag {
    match change {
        Change::Motion { seat, position } => drag.moved(seat, position),
        Change::Start { seat } => drag.started(seat),
        Change::Square { on } => Drag { square: on, ..drag },
    }
}

/// A drawing's outcome as the selection reports it.
pub open spec fn reported(drawn: Result<Draw, DrawError>) -> Result<Draw, Error> {
    match drawn {
        Ok(draw) => Ok(draw),
        Err(DrawError::WidthOverflow) => Err(Error::WidthOverflow),
        Err(DrawError::HeightOverflow) => Err(Error::HeightOverflow),
        Err(DrawError::Pixels(error)) => Err(Error::Pixels(error)),
    }
}

/// A selection in progress.
#[derive(Debug)]
pub struct Selector {
    pub overlays: Vec<Overlay>,
    pub drag: Drag,
    pub result: Option<Result<Region, Error>>,
}

/// A rectangle shows on an overlay; one without a size is always drawn.
pub open spec fn meets(rect: Option<Rect>, bounds: Option<Rect>) -> bool {
    match (rect, bounds) {
        (Some(rect), Some(bounds)) => rect.overlap(bounds) is Some,
        _ => false,
    }
}

/// The overlay's part of the layout, while its output is connected.
pub open spec fn overlay_bounds(overlay: Overlay, outputs: Outputs) -> Option<Rect> {
    if outputs.has(overlay.output) {
        overlay.bounds(outputs.output(overlay.output))
    } else {
        None
    }
}

/// Whether changing the selection can change the overlay's image.
pub open spec fn touched(
    overlay: Overlay,
    outputs: Outputs,
    before: Option<Rect>,
    after: Option<Rect>,
) -> bool {
    let bounds = overlay_bounds(overlay, outputs);
    before != after && (bounds is None || meets(before, bounds) || meets(after, bounds))
}

/// Only the need to redraw differs.
pub open spec fn same_overlay(a: Overlay, b: Overlay) -> bool {
    &&& a.output == b.output
    &&& a.size == b.size
    &&& a.scale == b.scale
    &&& a.origin == b.origin
    &&& a.buffers == b.buffers
    &&& a.drawn == b.drawn
    &&& a.shown == b.shown
    &&& a.frame_pending == b.frame_pending
}

fn same_rect(a: Option<Rect>, b: Option<Rect>) -> (r: bool)
    ensures
        r == (a == b),
{
    match (a, b) {
        (Some(a), Some(b)) => a == b,
        (None, None) => true,
        _ => false,
    }
}

fn does_meet(rect: Option<Rect>, bounds: Rect) -> (r: bool)
    ensures
        r == meets(rect, Some(bounds)),
{
    match rect {
        Some(rect) => rect.intersect(bounds).is_some(),
        None => false,
    }
}

/// Whether an output has an area.
pub open spec fn has_area() -> spec_fn((u32, Output)) -> bool {
    |entry: (u32, Output)| entry.1.area().width > 0 && entry.1.area().height > 0
}

/// There is one new overlay for each output.
pub open spec fn covers(overlays: Seq<Overlay>, outputs: Seq<(u32, Output)>) -> bool {
    &&& overlays.len() == outputs.len()
    &&& forall|i: int|
        0 <= i < overlays.len() ==> (#[trigger] overlays[i]).fresh(
            outputs[i].0,
            outputs[i].1.scale,
            outputs[i].1.position,
        )
}

/// The outcome of a finished drag: the output that contains the corner of its
/// rectangle owns the region; of several, the one with the first name.
pub open spec fn region_of(rect: Rect, outputs: Outputs, r: Result<Region, Error>) -> bool {
    ||| r == Err::<Region, Error>(Error::OutsideOutputs) && forall|i: int|
        0 <= i < outputs.list@.len() ==> !starts_on(rect, (#[trigger] outputs.list@[i]).1.area())
    ||| exists|i: int| #[trigger]
        owner_at(rect, outputs, i) && region_on(
            rect,
            outputs.list@[i].1.name@,
            outputs.list@[i].1.area(),
            r,
        )
}

/// Wherever the rectangle starts, it starts near the output's corner.
pub open spec fn starts_near_all(rect: Rect, outputs: Outputs) -> bool {
    forall|i: int|
        0 <= i < outputs.list@.len() ==> starts_near(rect, (#[trigger] outputs.list@[i]).1.area())
}

impl Selector {
    pub open spec fn wf(self) -> bool {
        forall|i: int| 0 <= i < self.overlays@.len() ==> (#[trigger] self.overlays@[i]).wf()
    }

    /// Exactly the overlays that the step from `before` to this selector can
    /// change are marked for drawing.
    pub open spec fn redraws(self, old: Selector, outputs: Outputs) -> bool {
        &&& self.overlays@.len() == old.overlays@.len()
        &&& forall|i: int|
            0 <= i < self.overlays@.len() ==> same_overlay(
                #[trigger] self.overlays@[i],
                old.overlays@[i],
            ) && self.overlays@[i].dirty == (old.overlays@[i].dirty || touched(
                old.overlays@[i],
                outputs,
                old.drag.area(),
                self.drag.area(),
            ))
    }

    /// An overlay on every output that has an area, in their order.
    pub fn start(
        outputs: &Outputs,
        compositor: bool,
        layer_shell: bool,
        seats: usize,
    ) -> (r: Result<Selector, Error>)
        requires
            outputs.wf(),
        ensures
            match r {
                Ok(selector) => {
                    let shown = outputs.list@.filter(has_area());
                    &&& compositor && layer_shell && seats > 0
                    &&& selector.wf()
                    &&& selector.result is None
                    &&& selector.drag == (Drag {
                        anchor: None,
                        position: (0, 0),
                        owner: None,
                        moving: false,
                        square: false,
                    })
                    &&& selector.overlays@.len() > 0
                    &&& covers(selector.overlays@, shown)
                },
                Err(error) => if !compositor {
                    error == Error::NoCompositor
                } else if !layer_shell {
                    error == Error::NoLayerShell
                } else if seats == 0 {
                    error == Error::NoSeat
                } else {
                    error == Error::NoOutputs && outputs.list@.filter(has_area()).len() == 0
                },
            },
    {
        if !compositor {
            return Err(Error::NoCompositor);
        }
        if !layer_shell {
            return Err(Error::NoLayerShell);
        }
        if seats == 0 {
            return Err(Error::NoSeat);
        }
        let mut overlays: Vec<Overlay> = Vec::new();
        let mut i: usize = 0;
        assert(covers(overlays@, outputs.list@.take(0).filter(has_area()))) by {
            reveal(Seq::filter);
        }
        while i < outputs.list.len()
            invariant
                i <= outputs.list@.len(),
                forall|k: int| 0 <= k < overlays@.len() ==> (#[trigger] overlays@[k]).wf(),
                covers(overlays@, outputs.list@.take(i as int).filter(has_area())),
            decreases outputs.list@.len() - i,
        {
            let entry = &outputs.list[i];
            let rect = entry.1.rect();
            let ghost fewer = overlays@;
            if rect.width > 0 && rect.height > 0 {
                overlays.push(Overlay::new(entry.0, entry.1.scale, entry.1.position));
            }
            i = i + 1;
            proof {
                reveal(Seq::filter);
                let seen = outputs.list@.take(i as int);
                assert(seen.drop_last() =~= outputs.list@.take(i - 1));
                assert forall|k: int| 0 <= k < fewer.len() implies overlays@[k] == fewer[k] by {}
            }
        }
        assert(outputs.list@.take(i as int) =~= outputs.list@);
        if overlays.len() == 0 {
            return Err(Error::NoOutputs);
        }
        Ok(Selector { overlays, drag: Drag::default(), result: None })
    }

    /// Applies an input change to the drag and marks only the overlays whose
    /// image it can change: those the old or the new rectangle overlaps.
    pub fn update(&mut self, outputs: &Outputs, change: Change)
        requires
            old(self).wf(),
            outputs.wf(),
        ensures
            final(self).wf(),
            final(self).drag == dragged(old(self).drag, change),
            final(self).result == old(self).result,
            final(self).redraws(*old(self), *outputs),
    {
        let before = self.drag.rect();
        match change {
            Change::Motion { seat, position } => self.drag.motion(seat, position),
            Change::Start { seat } => self.drag.start(seat),
            Change::Square { on } => {
                self.drag.square = on;
            },
        }
        let after = self.drag.rect();
        if same_rect(before, after) {
            return ;
        }
        let mut i: usize = 0;
        while i < self.overlays.len()
            invariant
                i <= self.overlays@.len(),
                outputs.wf(),
                self.wf(),
                before != after,
                self.result == old(self).result,
                self.drag == dragged(old(self).drag, change),
                self.overlays@.len() == old(self).overlays@.len(),
                forall|k: int|
                    i <= k < self.overlays@.len() ==> #[trigger] self.overlays@[k] == old(self).overlays@[k],
                forall|k: int|
                    0 <= k < i ==> same_overlay(#[trigger] self.overlays@[k], old(self).overlays@[k])
                        && self.overlays@[k].dirty == (old(self).overlays@[k].dirty || touched(
                        old(self).overlays@[k],
                        *outputs,
                        before,
                        after,
                    )),
            decreases self.overlays@.len() - i,
        {
            let ghost earlier = self.overlays@;
            assert(self.overlays@[i as int] == old(self).overlays@[i as int]);
            let found = outputs.find(self.overlays[i].output);
            let mark = match (self.overlays[i].size, found) {
                (Some(size), Some(at)) => {
                    let position: (i32, i32) = outputs.list[at].1.position;
                    let bounds = Rect {
                        x: position.0,
                        y: position.1,
                        width: size.0,
                        height: size.1,
                    };
                    does_meet(before, bounds) || does_meet(after, bounds)
                },
                _ => true,
            };
            if mark {
                self.overlays[i].dirty = true;
            }
            assert forall|k: int| 0 <= k < self.overlays@.len() && k != i implies
                #[trigger] self.overlays@[k] == earlier[k] by {}
            i = i + 1;
        }
    }

    /// Ends the selection without a region, unless it has ended.
    pub fn cancel(&mut self)
        requires
            old(self).wf(),
        ensures
            final(self).wf(),
            final(self).overlays == old(self).overlays,
            final(self).drag == old(self).drag,
            final(self).result == if old(self).result is None {
                Some(Err::<Region, Error>(Error::Cancelled))
            } else {
                old(self).result
            },
    {
        if self.result.is_none() {
            self.result = Some(Err(Error::Cancelled));
        }
    }

    /// Whether a seat's release ends the selection: the first end wins.
    pub open spec fn finishes(self, seat: u32) -> bool {
        self.result is None && self.drag.owner == Some(seat) && self.drag.area() is Some
    }

    /// How the selection stands once a seat has released.
    pub open spec fn ends(
        self,
        seat: u32,
        outputs: Outputs,
        after: Option<Result<Region, Error>>,
    ) -> bool {
        if self.finishes(seat) {
            after is Some && region_of(self.drag.area()->0, outputs, after->0)
        } else {
            after == self.result
        }
    }

    /// A seat releases: the dragged rectangle becomes the region.
    pub fn finish(&mut self, seat: u32, outputs: &Outputs)
        requires
            old(self).wf(),
            old(self).finishes(seat) ==> starts_near_all(old(self).drag.area()->0, *outputs),
        ensures
            final(self).wf(),
            final(self).overlays == old(self).overlays,
            final(self).drag == old(self).drag,
            old(self).ends(seat, *outputs, final(self).result),
    {
        // A batch of events can hold both a cancellation and a release.
        if self.result.is_some() {
            return ;
        }
        let owns = match self.drag.owner {
            Some(owner) => owner == seat,
            None => false,
        };
        if !owns {
            return ;
        }
        let rect = match self.drag.rect() {
            Some(rect) => rect,
            None => return ,
        };
        let region = match owner_of(rect, outputs) {
            Some(at) => {
                assert(owner_at(rect, *outputs, at as int));
                let output = &outputs.list[at].1;
                clip_region(rect, output.name.as_str(), output.rect())
            },
            None => Err(Error::OutsideOutputs),
        };
        self.result = Some(region);
    }

    /// Takes the result once there is one; before that, an error if an overlay
    /// has had no size for too long.
    pub fn poll(&mut self, elapsed: u64) -> (r: Option<Result<Region, Error>>)
        requires
            old(self).wf(),
        ensures
            final(self).wf(),
            final(self).overlays == old(self).overlays,
            final(self).drag == old(self).drag,
            final(self).result is None,
            r == if old(self).result is Some {
                old(self).result
            } else if elapsed >= SETUP_TIMEOUT && exists|i: int|
                0 <= i < old(self).overlays@.len() && (#[trigger] old(self).overlays@[i]).size is None {
                Some(Err::<Region, Error>(Error::NotReady))
            } else {
                None
            },
    {
        if self.result.is_some() {
            return self.result.take();
        }
        if elapsed < SETUP_TIMEOUT {
            return None;
        }
        if self.any_unsized() {
            Some(Err(Error::NotReady))
        } else {
            None
        }
    }

    fn any_unsized(&self) -> (r: bool)
        ensures
            r == exists|i: int|
                0 <= i < self.overlays@.len() && (#[trigger] self.overlays@[i]).size is None,
    {
        let mut i: usize = 0;
        while i < self.overlays.len()
            invariant
                i <= self.overlays@.len(),
                forall|k: int| 0 <= k < i ==> (#[trigger] self.overlays@[k]).size is Some,
            decreases self.overlays@.len() - i,
        {
            if self.overlays[i].size.is_none() {
                assert(self.overlays@[i as int].size is None);
                return true;
            }
            i = i + 1;
        }
        false
    }

    /// The index of the overlay on an output.
    fn overlay_on(&self, output: u32) -> (r: Option<usize>)
        ensures
            match r {
                Some(at) => at < self.overlays@.len() && self.overlays@[at as int].output == output
                    && forall|k: int| 0 <= k < at ==> (#[trigger] self.overlays@[k]).output != output,
                None => forall|k: int|
                    0 <= k < self.overlays@.len() ==> (#[trigger] self.overlays@[k]).output
                        != output,
            },
    {
        let mut i: usize = 0;
        while i < self.overlays.len()
            invariant
                i <= self.overlays@.len(),
                forall|k: int| 0 <= k < i ==> (#[trigger] self.overlays@[k]).output != output,
            decreases self.overlays@.len() - i,
        {
            if self.overlays[i].output == output {
                return Some(i);
            }
            i = i + 1;
        }
        None
    }

    /// An overlay's surface gets its size.
    pub fn configure(&mut self, output: u32, width: u32, height: u32) -> (r: Option<Error>)
        requires
            old(self).wf(),
        ensures
            final(self).wf(),
            final(self).drag == old(self).drag,
            final(self).result == old(self).result,
            final(self).overlays@.len() == old(self).overlays@.len(),
            r == if width == 0 || height == 0 {
                Some(Error::EmptyOutput)
            } else {
                None
            },
            forall|i: int|
                0 <= i < final(self).overlays@.len() ==> {
                    let now = #[trigger] final(self).overlays@[i];
                    let before = old(self).overlays@[i];
                    let first = before.output == output && forall|k: int|
                        0 <= k < i ==> (#[trigger] old(self).overlays@[k]).output != output;
                    if r is None && first {
                        now == (Overlay { size: Some((width, height)), dirty: true, ..before })
                    } else {
                        now == before
                    }
                },
    {
        if width == 0 || height == 0 {
            return Some(Error::EmptyOutput);
        }
        if let Some(at) = self.overlay_on(output) {
            self.overlays[at].size = Some((width, height));
            self.overlays[at].dirty = true;
        }
        None
    }

    /// The compositor asks for an overlay's next frame.
    pub fn frame_done(&mut self, output: u32)
        requires
            old(self).wf(),
        ensures
            final(self).wf(),
            final(self).drag == old(self).drag,
            final(self).result == old(self).result,
            final(self).overlays@.len() == old(self).overlays@.len(),
            forall|i: int|
                0 <= i < final(self).overlays@.len() ==> {
                    let now = #[trigger] final(self).overlays@[i];
                    let before = old(self).overlays@[i];
                    let first = before.output == output && forall|k: int|
                        0 <= k < i ==> (#[trigger] old(self).overlays@[k]).output != output;
                    if first {
                        now == (Overlay { frame_pending: false, ..before })
                    } else {
                        now == before
                    }
                },
    {
        if let Some(at) = self.overlay_on(output) {
            self.overlays[at].frame_pending = false;
        }
    }
}

/// Once a selection has ended, a release does not change how.
pub proof fn the_first_end_wins(
    selector: Selector,
    seat: u32,
    outputs: Outputs,
    after: Option<Result<Region, Error>>,
)
    requires
        selector.result is Some,
        selector.ends(seat, outputs, after),
    ensures
        after == selector.result,
{
}

/// An input seat: where its pointer is and which touch it follows.
#[derive(Debug, Clone, Copy, PartialEq, Eq, Structural)]
pub struct Seat {
    pub output: Option<u32>,
    pub touch_id: Option<i32>,
    pub pointer: bool,
    pub keyboard: bool,
    pub touch: bool,
}

/// The input devices to bind and to release.
#[derive(Debug, Clone, Copy, PartialEq, Eq, Structural)]
pub struct DeviceChanges {
    pub bind_pointer: bool,
    pub bind_keyboard: bool,
    pub bind_touch: bool,
    pub release_pointer: bool,
    pub release_keyboard: bool,
    pub release_touch: bool,
}

impl DeviceChanges {
    /// Whether a device went: that cancels a selection.
    pub fn lost(&self) -> (r: bool)
        ensures
            r == (self.release_pointer || self.release_keyboard || self.release_touch),
    {
        self.release_pointer || self.release_keyboard || self.release_touch
    }
}

impl Seat {
    pub fn new() -> (r: Seat)
        ensures
            r == (Seat {
                output: None,
                touch_id: None,
                pointer: false,
                keyboard: false,
                touch: false,
            }),
    {
        Seat { output: None, touch_id: None, pointer: false, keyboard: false, touch: false }
    }

    /// The devices the seat has now.
    pub fn capabilities(&mut self, pointer: bool, keyboard: bool, touch: bool) -> (r: DeviceChanges)
        ensures
            *final(self) == (Seat { pointer, keyboard, touch, ..*old(self) }),
            r == (DeviceChanges {
                bind_pointer: pointer && !old(self).pointer,
                bind_keyboard: keyboard && !old(self).keyboard,
                bind_touch: touch && !old(self).touch,
                release_pointer: !pointer && old(self).pointer,
                release_keyboard: !keyboard && old(self).keyboard,
                release_touch: !touch && old(self).touch,
            }),
    {
        let changes = DeviceChanges {
            bind_pointer: pointer && !self.pointer,
            bind_keyboard: keyboard && !self.keyboard,
            bind_touch: touch && !self.touch,
            release_pointer: !pointer && self.pointer,
            release_keyboard: !keyboard && self.keyboard,
            release_touch: !touch && self.touch,
        };
        self.pointer = pointer;
        self.keyboard = keyboard;
        self.touch = touch;
        changes
    }
}

/// Where a point of a surface lies in the layout, while its output is
/// connected.
pub open spec fn pointed(outputs: Outputs, output: Option<u32>, x: i32, y: i32) -> Option<(i32, i32)> {
    match output {
        Some(id) => if outputs.has(id) {
            let origin = outputs.output(id).position;
            Some((saturated(origin.0 + x), saturated(origin.1 + y)))
        } else {
            None
        },
        None => None,
    }
}

fn point_of(outputs: &Outputs, output: Option<u32>, x: i32, y: i32) -> (r: Option<(i32, i32)>)
    requires
        outputs.wf(),
    ensures
        r == pointed(*outputs, output, x, y),
{
    let at: usize = match output {
        Some(id) => match outputs.find(id) {
            Some(at) => at,
            None => return None,
        },
        None => return None,
    };
    let origin: (i32, i32) = outputs.list[at].1.position;
    Some((saturate(origin.0 as i64 + x as i64), saturate(origin.1 as i64 + y as i64)))
}

impl Selector {
    /// The drag after a seat's pointer moved to a point of its surface.
    pub open spec fn pointed_drag(
        self,
        outputs: Outputs,
        seat: u32,
        output: Option<u32>,
        x: i32,
        y: i32,
    ) -> Drag {
        match pointed(outputs, output, x, y) {
            Some(position) => self.drag.moved(seat, position),
            None => self.drag,
        }
    }

    /// A seat's pointer or touch moves on its surface, in whole pixels.
    pub fn move_pointer(&mut self, outputs: &Outputs, seat_id: u32, seat: &Seat, x: i32, y: i32)
        requires
            old(self).wf(),
            outputs.wf(),
        ensures
            final(self).wf(),
            final(self).result == old(self).result,
            final(self).drag == old(self).pointed_drag(*outputs, seat_id, seat.output, x, y),
            final(self).redraws(*old(self), *outputs),
    {
        if let Some(position) = point_of(outputs, seat.output, x, y) {
            self.update(outputs, Change::Motion { seat: seat_id, position });
        }
    }

    /// A button: the left one drags, pressing any other cancels.
    pub fn button(&mut self, outputs: &Outputs, seat: u32, button: u32, pressed: bool)
        requires
            old(self).wf(),
            outputs.wf(),
            button == LEFT_BUTTON && !pressed && old(self).finishes(seat) ==> starts_near_all(
                old(self).drag.area()->0,
                *outputs,
            ),
        ensures
            final(self).wf(),
            button != LEFT_BUTTON ==> final(self).drag == old(self).drag && final(self).overlays
                == old(self).overlays && final(self).result == if pressed && old(self).result is None {
                Some(Err::<Region, Error>(Error::Cancelled))
            } else {
                old(self).result
            },
            button == LEFT_BUTTON && pressed ==> final(self).drag == old(self).drag.started(seat)
                && final(self).result == old(self).result && final(self).redraws(
                *old(self),
                *outputs,
            ),
            button == LEFT_BUTTON && !pressed ==> final(self).drag == old(self).drag
                && final(self).overlays == old(self).overlays && old(self).ends(
                seat,
                *outputs,
                final(self).result,
            ),
    {
        if button != LEFT_BUTTON {
            if pressed {
                self.cancel();
            }
        } else if pressed {
            self.update(outputs, Change::Start { seat });
        } else {
            self.finish(seat, outputs);
        }
    }

    /// A seat may steer the drag: it drags, or nobody does.
    pub open spec fn steers(self, seat: u32) -> bool {
        self.drag.owner is None || self.drag.owner == Some(seat)
    }

    /// A key, by its evdev code: Escape cancels, Space moves the rectangle and
    /// Shift makes it a square while held.
    pub fn key(&mut self, outputs: &Outputs, seat: u32, key: u32, down: bool)
        requires
            old(self).wf(),
            outputs.wf(),
        ensures
            final(self).wf(),
            final(self).result == if key == KEY_ESCAPE && down && old(self).result is None {
                Some(Err::<Region, Error>(Error::Cancelled))
            } else {
                old(self).result
            },
            final(self).drag == if !old(self).steers(seat) {
                old(self).drag
            } else if key == KEY_SPACE {
                Drag { moving: down, ..old(self).drag }
            } else if key == KEY_LEFT_SHIFT || key == KEY_RIGHT_SHIFT {
                Drag { square: down, ..old(self).drag }
            } else {
                old(self).drag
            },
            final(self).redraws(*old(self), *outputs),
    {
        if key == KEY_ESCAPE && down {
            self.cancel();
        }
        let steers = match self.drag.owner {
            Some(owner) => owner == seat,
            None => true,
        };
        if !steers {
            return ;
        }
        if key == KEY_SPACE {
            self.drag.moving = down;
        }
        if key == KEY_LEFT_SHIFT || key == KEY_RIGHT_SHIFT {
            self.update(outputs, Change::Square { on: down });
        }
    }

    /// A touch begins on an output's surface: the first one of a seat drags.
    pub fn touch_down(
        &mut self,
        outputs: &Outputs,
        seat_id: u32,
        seat: &mut Seat,
        output: Option<u32>,
        id: i32,
        x: i32,
        y: i32,
    )
        requires
            old(self).wf(),
            outputs.wf(),
        ensures
            final(self).wf(),
            final(self).result == old(self).result,
            if old(seat).touch_id is Some {
                *final(self) == *old(self) && *final(seat) == *old(seat)
            } else {
                let moved = old(self).pointed_drag(*outputs, seat_id, output, x, y);
                &&& *final(seat) == (Seat { output, touch_id: Some(id), ..*old(seat) })
                &&& final(self).drag == moved.started(seat_id)
                &&& final(self).overlays@.len() == old(self).overlays@.len()
                &&& forall|i: int|
                    0 <= i < final(self).overlays@.len() ==> {
                        let before = old(self).overlays@[i];
                        let now = #[trigger] final(self).overlays@[i];
                        &&& same_overlay(now, before)
                        &&& now.dirty == (before.dirty || touched(
                            before,
                            *outputs,
                            old(self).drag.area(),
                            moved.area(),
                        ) || touched(before, *outputs, moved.area(), final(self).drag.area()))
                    }
            },
    {
        if seat.touch_id.is_some() {
            return ;
        }
        seat.output = output;
        seat.touch_id = Some(id);
        self.move_pointer(outputs, seat_id, seat, x, y);
        self.update(outputs, Change::Start { seat: seat_id });
    }

    /// The touch that a seat follows moves; others are ignored.
    pub fn touch_motion(
        &mut self,
        outputs: &Outputs,
        seat_id: u32,
        seat: &Seat,
        id: i32,
        x: i32,
        y: i32,
    )
        requires
            old(self).wf(),
            outputs.wf(),
        ensures
            final(self).wf(),
            final(self).result == old(self).result,
            final(self).drag == if seat.touch_id == Some(id) {
                old(self).pointed_drag(*outputs, seat_id, seat.output, x, y)
            } else {
                old(self).drag
            },
            final(self).redraws(*old(self), *outputs),
    {
        if follows(seat, id) {
            self.move_pointer(outputs, seat_id, seat, x, y);
        }
    }

    /// The touch that a seat follows ends: so does the selection.
    pub fn touch_up(&mut self, outputs: &Outputs, seat_id: u32, seat: &mut Seat, id: i32)
        requires
            old(self).wf(),
            old(seat).touch_id == Some(id) && old(self).finishes(seat_id) ==> starts_near_all(
                old(self).drag.area()->0,
                *outputs,
            ),
        ensures
            final(self).wf(),
            final(self).drag == old(self).drag,
            final(self).overlays == old(self).overlays,
            if old(seat).touch_id == Some(id) {
                &&& *final(seat) == (Seat { touch_id: None, ..*old(seat) })
                &&& old(self).ends(seat_id, *outputs, final(self).result)
            } else {
                *final(seat) == *old(seat) && final(self).result == old(self).result
            },
    {
        if follows(seat, id) {
            self.finish(seat_id, outputs);
            seat.touch_id = None;
        }
    }

    /// Decides how to show the selection on one overlay.
    pub fn draw(&mut self, at: usize, outputs: &Outputs) -> (r: Result<Draw, Error>)
        requires
            old(self).wf(),
            outputs.wf(),
            at < old(self).overlays@.len(),
        ensures
            final(self).wf(),
            final(self).drag == old(self).drag,
            final(self).result == old(self).result,
            final(self).overlays@.len() == old(self).overlays@.len(),
            forall|i: int|
                0 <= i < final(self).overlays@.len() && i != at ==> final(self).overlays@[i] == old(self).overlays@[i],
            ({
                let overlay = old(self).overlays@[at as int];
                if overlay.size is None {
                    r == Ok::<Draw, Error>(Draw::Nothing) && final(self).overlays@[at as int]
                        == overlay
                } else if !outputs.has(overlay.output) {
                    r == Err::<Draw, Error>(Error::OutputDisconnected) && final(self).overlays@[at as int]
                        == overlay
                } else {
                    exists|drawn: Result<Draw, DrawError>|
                        #[trigger] overlay.redrawn(
                            outputs.output(overlay.output),
                            old(self).drag.area(),
                            final(self).overlays@[at as int],
                            drawn,
                        ) && r == reported(drawn)
                }
            }),
    {
        let selection = self.drag.rect();
        if self.overlays[at].size.is_none() {
            return Ok(Draw::Nothing);
        }
        let found: usize = match outputs.find(self.overlays[at].output) {
            Some(found) => found,
            None => return Err(Error::OutputDisconnected),
        };
        let drawn = self.overlays[at].draw(&outputs.list[found].1, selection);
        let r = match drawn {
            Ok(draw) => Ok(draw),
            Err(DrawError::WidthOverflow) => Err(Error::WidthOverflow),
            Err(DrawError::HeightOverflow) => Err(Error::HeightOverflow),
            Err(DrawError::Pixels(error)) => Err(Error::Pixels(error)),
        };
        assert(r == reported(drawn));
        r
    }
}

fn follows(seat: &Seat, id: i32) -> (r: bool)
    ensures
        r == (seat.touch_id == Some(id)),
{
    match seat.touch_id {
        Some(current) => current == id,
        None => false,
    }
}

/// The side of the cursor image.
pub const CURSOR_SIDE: usize = 24;

/// The row and column of the cursor's center.
pub const CURSOR_CENTER: usize = 11;

/// A pixel of the crosshair: white lines with black sides.
pub open spec fn cursor_pixel(x: int, y: int) -> Seq<u8> {
    if x == CURSOR_CENTER || y == CURSOR_CENTER {
        seq![255u8, 255u8, 255u8, 255u8]
    } else if 10 <= x <= 12 || 10 <= y <= 12 {
        seq![0u8, 0u8, 0u8, 255u8]
    } else {
        seq![0u8, 0u8, 0u8, 0u8]
    }
}

/// The crosshair as ARGB bytes.
pub fn cursor_image() -> (r: Vec<u8>)
    ensures
        r@ == Seq::new(
            2304,
            |i: int| cursor_pixel(i / 4 % 24, i / 4 / 24)[i % 4],
        ),
{
    let mut bytes: Vec<u8> = Vec::new();
    let mut i: usize = 0;
    while i < 576
        invariant
            i <= 576,
            bytes@ == Seq::new(
                (i * 4) as nat,
                |k: int| cursor_pixel(k / 4 % 24, k / 4 / 24)[k % 4],
            ),
        decreases 576 - i,
    {
        let x: usize = i % CURSOR_SIDE;
        let y: usize = i / CURSOR_SIDE;
        let white = x == CURSOR_CENTER || y == CURSOR_CENTER;
        let side = (10 <= x && x <= 12) || (10 <= y && y <= 12);
        let color: u8 = if white {
            255
        } else {
            0
        };
        let alpha: u8 = if white || side {
            255
        } else {
            0
        };
        let ghost before = bytes@;
        bytes.push(color);
        bytes.push(color);
        bytes.push(color);
        bytes.push(alpha);
        i = i + 1;
        assert(bytes@ =~= Seq::new(
            (i * 4) as nat,
            |k: int| cursor_pixel(k / 4 % 24, k / 4 / 24)[k % 4],
        ));
    }
    bytes
}

/// A plain drag selects exactly the pixels between its corners, both counted.
pub proof fn a_drag_covers_what_lies_between(drag: Drag, x: int, y: int)
    requires
        !drag.square,
        drag.anchor matches Some(anchor) && ({
            &&& reaches(anchor.0, drag.position.0, extent(anchor.0, drag.position.0))
            &&& reaches(anchor.1, drag.position.1, extent(anchor.1, drag.position.1))
        }),
    ensures
        ({
            let (a, p) = (drag.anchor->0, drag.position);
            drag.area()->0.has(x, y) <==> (a.0 <= x <= p.0 || p.0 <= x <= a.0) && (a.1 <= y <= p.1
                || p.1 <= y <= a.1)
        }),
{
}

/// Moving the rectangle takes it as far as the pointer went, while nothing
/// leaves the coordinate range.
pub proof fn moving_follows_the_pointer(drag: Drag, seat: u32, position: (i32, i32))
    requires
        drag.moving,
        drag.anchor is Some,
        drag.owner is None || drag.owner == Some(seat),
        i32::MIN <= position.0 - drag.position.0 <= i32::MAX,
        i32::MIN <= position.1 - drag.position.1 <= i32::MAX,
        i32::MIN <= (drag.anchor->0).0 + position.0 - drag.position.0 <= i32::MAX,
        i32::MIN <= (drag.anchor->0).1 + position.1 - drag.position.1 <= i32::MAX,
        i32::MIN < drag.area()->0.x,
        i32::MIN < drag.area()->0.y,
        i32::MIN < drag.moved(seat, position).area()->0.x,
        i32::MIN < drag.moved(seat, position).area()->0.y,
        drag.area()->0.width <= i32::MAX,
        drag.area()->0.height <= i32::MAX,
    ensures
        ({
            let (before, after) = (drag.area()->0, drag.moved(seat, position).area()->0);
            &&& after.x - before.x == position.0 - drag.position.0
            &&& after.y - before.y == position.1 - drag.position.1
        }),
{
}

/// Another seat does not disturb a drag.
pub proof fn only_the_dragging_seat_moves_it(drag: Drag, seat: u32, position: (i32, i32))
    requires
        drag.owner matches Some(owner) && owner != seat,
    ensures
        drag.moved(seat, position) == drag,
        drag.started(seat) == drag,
{
}

/// The region of a finished drag is the dragged rectangle as the output shows
/// it: each of its points is a dragged point that lies on the output, and the
/// other way round, counted from the output's corner.
pub proof fn a_region_is_what_was_dragged(
    rect: Rect,
    outputs: Outputs,
    region: Region,
    x: int,
    y: int,
)
    requires
        region_of(rect, outputs, Ok(region)),
        starts_near_all(rect, outputs),
    ensures
        exists|i: int| #[trigger]
            owner_at(rect, outputs, i) && outputs.list@[i].1.name@ == region.output@
                && outputs.list@[i].1.area().has(rect.x as int, rect.y as int) && {
                let area = outputs.list@[i].1.area();
                region.rect.has(x - area.x, y - area.y) <==> rect.has(x, y) && area.has(x, y)
            },
{
    let i = choose|i: int| #[trigger]
        owner_at(rect, outputs, i) && region_on(
            rect,
            outputs.list@[i].1.name@,
            outputs.list@[i].1.area(),
            Ok(region),
        );
    assert(starts_near(rect, outputs.list@[i].1.area()));
}

/// Pointing at a point of an output's surface points at that point of the
/// layout, on the output.
pub proof fn pointing_reaches_the_output(outputs: Outputs, id: u32, x: i32, y: i32)
    requires
        outputs.has(id),
        0 <= x < outputs.output(id).area().width,
        0 <= y < outputs.output(id).area().height,
        outputs.output(id).area().end_x() <= i32::MAX,
        outputs.output(id).area().end_y() <= i32::MAX,
    ensures
        ({
            let area = outputs.output(id).area();
            match pointed(outputs, Some(id), x, y) {
                Some(point) => {
                    &&& area.has(point.0 as int, point.1 as int)
                    &&& point.0 - area.x == x
                    &&& point.1 - area.y == y
                },
                None => false,
            }
        }),
{
}

} // verus!
