//! The settings of an extra display: what their menus show, what choosing an
//! entry changes, and a picture of the layout.

use vstd::prelude::*;

use crate::desktop::DesktopConfig;
use crate::desktop::Position;
use crate::hypr::Monitor;
use crate::hypr::Rect;
use crate::layout::RelativeRect;
use crate::single;
use crate::single::Single;
use crate::text;
use crate::widgets::Menu;

verus! {

/// The resolutions on offer, in landscape.
pub open spec fn resolution(index: int) -> (u32, u32) {
    if index == 0 {
        (1920, 1080)
    } else if index == 1 {
        (2560, 1440)
    } else if index == 2 {
        (3840, 2160)
    } else if index == 3 {
        (2048, 1536)
    } else {
        (2560, 1600)
    }
}

fn resolution_at(index: usize) -> (r: (u32, u32))
    ensures
        r == resolution(index as int),
{
    if index == 0 {
        (1920, 1080)
    } else if index == 1 {
        (2560, 1440)
    } else if index == 2 {
        (3840, 2160)
    } else if index == 3 {
        (2048, 1536)
    } else {
        (2560, 1600)
    }
}

pub open spec fn position_listed(index: int) -> Position {
    if index == 0 {
        Position::Right
    } else if index == 1 {
        Position::Left
    } else if index == 2 {
        Position::Above
    } else {
        Position::Below
    }
}

/// A size as it is shown.
pub open spec fn size_name(width: u32, height: u32) -> Seq<char> {
    text::decimal(width as nat) + " × "@ + text::decimal(height as nat)
}

pub fn size_label(width: u32, height: u32) -> (r: String)
    ensures
        r@ == size_name(width, height),
{
    let mut label = String::new();
    text::push_decimal(&mut label, width as u64);
    label.append(" × ");
    text::push_decimal(&mut label, height as u64);
    assert(label@ =~= size_name(width, height));
    label
}

impl DesktopConfig {
    pub open spec fn portrait(self) -> bool {
        self.height > self.width
    }

    /// The display turned on its side.
    pub open spec fn turned(self) -> DesktopConfig {
        DesktopConfig { width: self.height, height: self.width, ..self }
    }

    /// Another resolution keeps the orientation.
    pub open spec fn resized(self, index: int) -> DesktopConfig {
        if self.portrait() {
            DesktopConfig {
                width: resolution(index).1,
                height: resolution(index).0,
                ..self
            }
        } else {
            DesktopConfig {
                width: resolution(index).0,
                height: resolution(index).1,
                ..self
            }
        }
    }

    pub fn choose_resolution(&mut self, index: usize)
        requires
            index < 5,
        ensures
            *final(self) == old(self).resized(index as int),
    {
        let (w, h): (u32, u32) = resolution_at(index);
        if self.height > self.width {
            self.width = h;
            self.height = w;
        } else {
            self.width = w;
            self.height = h;
        }
    }

    pub fn choose_scale(&mut self, index: usize)
        requires
            index < 2,
        ensures
            *final(self) == (DesktopConfig { scale: (index + 1) as u32, ..*old(self) }),
    {
        self.scale = index as u32 + 1;
    }

    pub fn choose_position(&mut self, index: usize)
        requires
            index < 4,
        ensures
            *final(self) == (DesktopConfig { position: position_listed(index as int), ..*old(self) }),
    {
        self.position = if index == 0 {
            Position::Right
        } else if index == 1 {
            Position::Left
        } else if index == 2 {
            Position::Above
        } else {
            Position::Below
        };
    }

    /// Turns the display where it does not have the orientation yet.
    pub fn choose_orientation(&mut self, index: usize)
        ensures
            *final(self) == if (index == 1) != old(self).portrait() {
                old(self).turned()
            } else {
                *old(self)
            },
            final(self).width != final(self).height ==> final(self).portrait() == (index == 1),
    {
        if (index == 1) != (self.height > self.width) {
            let width = self.width;
            self.width = self.height;
            self.height = width;
        }
    }
}

/// Every resolution on offer can be added, in both orientations and scales.
pub proof fn offered_displays_can_be_added(config: DesktopConfig, index: int)
    requires
        0 <= index < 5,
        config.scale == 1 || config.scale == 2,
    ensures
        config.resized(index).refused() is None,
        config.resized(index).turned().refused() is None,
        config.resized(index).portrait() == config.portrait(),
{
    assert(config.resized(index).width * config.resized(index).height <= 3840 * 2160)
        by (nonlinear_arith)
        requires
            (config.resized(index).width, config.resized(index).height) == (1920u32, 1080u32) || (
                config.resized(index).width,
                config.resized(index).height,
            ) == (1080u32, 1920u32) || (config.resized(index).width, config.resized(index).height)
                == (2560u32, 1440u32) || (config.resized(index).width, config.resized(index).height)
                == (1440u32, 2560u32) || (config.resized(index).width, config.resized(index).height)
                == (3840u32, 2160u32) || (config.resized(index).width, config.resized(index).height)
                == (2160u32, 3840u32) || (config.resized(index).width, config.resized(index).height)
                == (2048u32, 1536u32) || (config.resized(index).width, config.resized(index).height)
                == (1536u32, 2048u32) || (config.resized(index).width, config.resized(index).height)
                == (2560u32, 1600u32) || (config.resized(index).width, config.resized(index).height)
                == (1600u32, 2560u32),
    ;
    assert(config.resized(index).height * config.resized(index).width == config.resized(
        index,
    ).width * config.resized(index).height) by (nonlinear_arith);
}

/// The settings of an extra display as they are shown.
#[derive(Debug)]
pub struct ExtendView {
    pub resolution: Menu,
    pub scale: Menu,
    pub position: Menu,
    pub orientation: Menu,
}

/// The display has the resolution, whichever way it is turned.
pub open spec fn has_resolution(config: DesktopConfig, index: int) -> bool {
    let (w, h) = resolution(index);
    (config.width == w && config.height == h) || (config.width == h && config.height == w)
}

impl ExtendView {
    pub open spec fn of(self, config: DesktopConfig, busy: bool) -> bool {
        &&& self.resolution.shows(
            size_name(config.width, config.height),
            busy,
            Seq::new(
                5,
                |i: int|
                    (
                        size_name(resolution(i).0, resolution(i).1),
                        has_resolution(config, i),
                        busy,
                    ),
            ),
        )
        &&& self.scale.shows(
            if config.scale == 2 {
                "200% · larger text"@
            } else {
                "100%"@
            },
            busy,
            seq![("100%"@, config.scale == 1, busy), ("200% · larger text"@, config.scale == 2, busy)],
        )
        &&& self.position.shows(
            config.position.name(),
            busy,
            Seq::new(
                4,
                |i: int| (position_listed(i).name(), position_listed(i) == config.position, busy),
            ),
        )
        &&& self.orientation.shows(
            if config.portrait() {
                "Portrait"@
            } else {
                "Landscape"@
            },
            busy,
            seq![("Landscape"@, !config.portrait(), busy), ("Portrait"@, config.portrait(), busy)],
        )
    }
}

fn resolution_menu(config: &DesktopConfig, busy: bool) -> (r: Menu)
    ensures
        r.shows(
            size_name(config.width, config.height),
            busy,
            Seq::new(
                5,
                |i: int|
                    (
                        size_name(resolution(i).0, resolution(i).1),
                        has_resolution(*config, i),
                        busy,
                    ),
            ),
        ),
{
    let mut menu = Menu::new(size_label(config.width, config.height), busy);
    let mut i: usize = 0;
    while i < 5
        invariant
            i <= 5,
            menu.shows(
                size_name(config.width, config.height),
                busy,
                Seq::new(
                    i as nat,
                    |i: int|
                        (
                            size_name(resolution(i).0, resolution(i).1),
                            has_resolution(*config, i),
                            busy,
                        ),
                ),
            ),
        decreases 5 - i,
    {
        let (w, h): (u32, u32) = resolution_at(i);
        let large: u32 = if config.width >= config.height {
            config.width
        } else {
            config.height
        };
        let small: u32 = if config.width >= config.height {
            config.height
        } else {
            config.width
        };
        menu.offer(size_label(w, h), large == w && small == h, busy);
        i = i + 1;
    }
    menu
}

/// The settings of an extra display.
pub fn render_desktop_settings(config: &DesktopConfig, busy: bool) -> (r: ExtendView)
    ensures
        r.of(*config, busy),
{
    let label = if config.scale == 2 {
        "200% · larger text"
    } else {
        "100%"
    };
    let mut scale = Menu::new(label.to_owned(), busy);
    scale.offer("100%".to_owned(), config.scale == 1, busy);
    scale.offer("200% · larger text".to_owned(), config.scale == 2, busy);
    let mut position = Menu::new(config.position.label().to_owned(), busy);
    position.offer("Right".to_owned(), config.position == Position::Right, busy);
    position.offer("Left".to_owned(), config.position == Position::Left, busy);
    position.offer("Above".to_owned(), config.position == Position::Above, busy);
    position.offer("Below".to_owned(), config.position == Position::Below, busy);
    let portrait = config.height > config.width;
    let label = if portrait {
        "Portrait"
    } else {
        "Landscape"
    };
    let mut orientation = Menu::new(label.to_owned(), busy);
    orientation.offer("Landscape".to_owned(), !portrait, busy);
    orientation.offer("Portrait".to_owned(), portrait, busy);
    ExtendView { resolution: resolution_menu(config, busy), scale, position, orientation }
}

/// A display in the picture of the layout.
#[derive(Debug)]
pub struct Display {
    pub rect: RelativeRect,
    pub name: String,
    /// The display is the one to add.
    pub extra: bool,
}

/// A picture of the layout, in proportion to its sides, and what it means.
#[derive(Debug)]
pub struct LayoutView {
    pub displays: Vec<Display>,
    pub summary: String,
}

/// The rectangles that are shown: the monitors, then the display to add where
/// it has a place.
pub open spec fn pictured(
    config: DesktopConfig,
    monitors: Seq<Monitor>,
    place: Option<(i32, i32)>,
) -> Seq<Rect> {
    let existing = Seq::new(monitors.len(), |i: int| monitors[i].area());
    match place {
        Some((x, y)) => existing.push(
            Rect { x, y, w: config.logical().0 as i32, h: config.logical().1 as i32 },
        ),
        None => existing,
    }
}

/// A whole number as it is measured in a picture.
pub open spec fn measure(n: i32) -> Single {
    single::of_int(n as int)
}

/// The least of the starts, along one axis.
pub open spec fn first_of(starts: Seq<i32>) -> Single
    decreases starts.len(),
{
    if starts.len() == 0 {
        Single { bits: 0 }
    } else if starts.len() == 1 {
        measure(starts[0])
    } else {
        first_of(starts.drop_last()).smaller(measure(starts.last()))
    }
}

/// The largest of the ends, along one axis.
pub open spec fn last_of(spans: Seq<(i32, i32)>) -> Single
    decreases spans.len(),
{
    if spans.len() == 0 {
        Single { bits: single::ONE }
    } else {
        let end = measure(spans.last().0).plus(measure(spans.last().1));
        if spans.len() == 1 {
            end
        } else {
            last_of(spans.drop_last()).larger(end)
        }
    }
}

/// Where spans of one axis lie in the picture.
pub open spec fn part_of(spans: Seq<(i32, i32)>, i: int) -> (Single, Single) {
    let first = first_of(spans.map_values(|s: (i32, i32)| s.0));
    let side = last_of(spans).minus(first).larger(Single { bits: single::ONE });
    (
        measure(spans[i].0).minus(first).over(side),
        measure(spans[i].1).over(side),
    )
}

/// The spans of the rectangles, across and down.
pub open spec fn across(rects: Seq<Rect>) -> Seq<(i32, i32)> {
    rects.map_values(|r: Rect| (r.x, r.w))
}

pub open spec fn down(rects: Seq<Rect>) -> Seq<(i32, i32)> {
    rects.map_values(|r: Rect| (r.y, r.h))
}

/// Where a rectangle lies in the picture.
pub open spec fn proportion(rects: Seq<Rect>, i: int) -> RelativeRect {
    RelativeRect {
        x: part_of(across(rects), i).0,
        y: part_of(down(rects), i).0,
        w: part_of(across(rects), i).1,
        h: part_of(down(rects), i).1,
    }
}

impl LayoutView {
    pub open spec fn of(
        self,
        config: DesktopConfig,
        monitors: Seq<Monitor>,
        place: Option<(i32, i32)>,
    ) -> bool {
        let rects = pictured(config, monitors, place);
        &&& self.displays@.len() == rects.len()
        &&& forall|i: int|
            0 <= i < rects.len() ==> (#[trigger] self.displays@[i]).rect == proportion(rects, i)
        &&& forall|i: int|
            0 <= i < monitors.len() ==> (#[trigger] self.displays@[i]).name@ == monitors[i].name@
                && !self.displays@[i].extra
        &&& place is Some ==> self.displays@.last().name@ == "Extra screen"@
            && self.displays@.last().extra
        &&& self.summary@ == size_name(config.width, config.height) + " pixels · "@ + size_name(
            config.logical().0 as u32,
            config.logical().1 as u32,
        ) + " desktop space"@
    }
}

/// Where an axis of the picture starts, and its side.
fn axis(spans: &Vec<(i32, i32)>) -> (r: (Single, Single))
    ensures
        r.0 == first_of(spans@.map_values(|s: (i32, i32)| s.0)),
        r.1 == last_of(spans@).minus(r.0).larger(Single { bits: single::ONE }),
{
    let one = Single { bits: single::ONE };
    let ghost starts = spans@.map_values(|s: (i32, i32)| s.0);
    if spans.len() == 0 {
        let zero = Single { bits: 0 };
        return (zero, one.difference(zero).max(one));
    }
    let mut first = Single::of(spans[0].0 as i64);
    let mut last = Single::of(spans[0].0 as i64).sum(Single::of(spans[0].1 as i64));
    assert(spans@.take(1).last() == spans@[0]);
    assert(starts.take(1)[0] == spans@[0].0);
    let mut i: usize = 1;
    while i < spans.len()
        invariant
            1 <= i <= spans@.len(),
            starts == spans@.map_values(|s: (i32, i32)| s.0),
            first == first_of(starts.take(i as int)),
            last == last_of(spans@.take(i as int)),
        decreases spans@.len() - i,
    {
        assert(spans@.take(i + 1).drop_last() =~= spans@.take(i as int));
        assert(starts.take(i + 1).drop_last() =~= starts.take(i as int));
        assert(starts.take(i + 1).last() == spans@[i as int].0);
        let start = Single::of(spans[i].0 as i64);
        first = first.min(start);
        last = last.max(start.sum(Single::of(spans[i].1 as i64)));
        i = i + 1;
    }
    assert(spans@.take(i as int) =~= spans@);
    assert(starts.take(i as int) =~= starts);
    (first, last.difference(first).max(one))
}

/// The picture of the layout with the extra display.
pub fn render_desktop_preview(config: &DesktopConfig, monitors: &[Monitor]) -> (r: LayoutView)
    requires
        config.scale > 0,
    ensures
        exists|place: Result<(i32, i32), crate::desktop::Error>| #[trigger]
            config.places(monitors@, place) && r.of(
                *config,
                monitors@,
                match place {
                    Ok(at) => Some(at),
                    Err(_) => None,
                },
            ),
{
    let result = config.placement(monitors);
    assert(config.places(monitors@, result));
    let mut place: Option<(i32, i32)> = None;
    if let Ok(at) = result {
        place = Some(at);
    }
    let mut rects: Vec<Rect> = Vec::new();
    let mut i: usize = 0;
    while i < monitors.len()
        invariant
            i <= monitors@.len(),
            rects@.len() == i,
            forall|k: int| 0 <= k < i ==> #[trigger] rects@[k] == monitors@[k].area(),
        decreases monitors@.len() - i,
    {
        rects.push(monitors[i].canvas());
        i = i + 1;
    }
    if let Some((x, y)) = place {
        assert(config.refused() is None);
        let w: u32 = config.width / config.scale;
        let h: u32 = config.height / config.scale;
        assert(w <= 3840 && h <= 3840) by {
            let (a, b, s) = (config.width as int, config.height as int, config.scale as int);
            assert(0 <= a / s <= 3840 && 0 <= b / s <= 3840) by (nonlinear_arith)
                requires
                    640 <= a <= 3840,
                    480 <= b <= 3840,
                    s == 1 || s == 2,
            ;
        }
        rects.push(Rect { x, y, w: w as i32, h: h as i32 });
    }
    assert(rects@ =~= pictured(*config, monitors@, place));
    let mut columns: Vec<(i32, i32)> = Vec::new();
    let mut rows: Vec<(i32, i32)> = Vec::new();
    let mut n: usize = 0;
    while n < rects.len()
        invariant
            n <= rects@.len(),
            columns@ == across(rects@.take(n as int)),
            rows@ == down(rects@.take(n as int)),
        decreases rects@.len() - n,
    {
        columns.push((rects[n].x, rects[n].w));
        rows.push((rects[n].y, rects[n].h));
        n = n + 1;
        assert(columns@ =~= across(rects@.take(n as int)));
        assert(rows@ =~= down(rects@.take(n as int)));
    }
    assert(rects@.take(n as int) =~= rects@);
    let (left, width) = axis(&columns);
    let (top, height) = axis(&rows);
    let mut displays: Vec<Display> = Vec::new();
    let mut k: usize = 0;
    while k < rects.len()
        invariant
            k <= rects@.len(),
            rects@ == pictured(*config, monitors@, place),
            left == first_of(across(rects@).map_values(|s: (i32, i32)| s.0)),
            width == last_of(across(rects@)).minus(left).larger(Single { bits: single::ONE }),
            top == first_of(down(rects@).map_values(|s: (i32, i32)| s.0)),
            height == last_of(down(rects@)).minus(top).larger(Single { bits: single::ONE }),
            displays@.len() == k,
            forall|j: int|
                0 <= j < k ==> (#[trigger] displays@[j]).rect == proportion(rects@, j),
            forall|j: int|
                0 <= j < k && j < monitors@.len() ==> (#[trigger] displays@[j]).name@
                    == monitors@[j].name@ && !displays@[j].extra,
            k > monitors@.len() ==> displays@[monitors@.len() as int].name@ == "Extra screen"@
                && displays@[monitors@.len() as int].extra,
        decreases rects@.len() - k,
    {
        let extra = k >= monitors.len();
        let name = if extra {
            "Extra screen".to_owned()
        } else {
            monitors[k].name.clone()
        };
        let shown = rects[k];
        let rect = RelativeRect {
            x: Single::of(shown.x as i64).difference(left).quotient(width),
            y: Single::of(shown.y as i64).difference(top).quotient(height),
            w: Single::of(shown.w as i64).quotient(width),
            h: Single::of(shown.h as i64).quotient(height),
        };
        assert(rect == proportion(rects@, k as int));
        displays.push(Display { rect, name, extra });
        k = k + 1;
    }
    let mut summary = size_label(config.width, config.height);
    summary.append(" pixels · ");
    summary.append(size_label(config.width / config.scale, config.height / config.scale).as_str());
    summary.append(" desktop space");
    LayoutView { displays, summary }
}

/// Choosing a resolution selects it in the menu, and keeps the orientation.
pub proof fn a_chosen_resolution_is_shown(config: DesktopConfig, index: int)
    requires
        0 <= index < 5,
    ensures
        has_resolution(config.resized(index), index),
        config.resized(index).portrait() == config.portrait(),
        config.resized(index).scale == config.scale,
        config.resized(index).position == config.position,
        config.turned().turned() == config,
{
}

/// The spans run from `first` to `last`, and no further.
pub open spec fn bounded(spans: Seq<(i32, i32)>, first: int, last: int) -> bool {
    &&& forall|i: int|
        0 <= i < spans.len() ==> first <= (#[trigger] spans[i]).0 && spans[i].0 + spans[i].1
            <= last && spans[i].1 >= 0
    &&& exists|i: int| 0 <= i < spans.len() && (#[trigger] spans[i]).0 == first
    &&& exists|i: int| 0 <= i < spans.len() && (#[trigger] spans[i]).0 + spans[i].1 == last
}

/// The numbers are small enough to be measured exactly.
pub open spec fn measurable(spans: Seq<(i32, i32)>) -> bool {
    forall|i: int|
        0 <= i < spans.len() ==> -0x80_0000 <= (#[trigger] spans[i]).0 <= 0x40_0000 && 0
            <= spans[i].1 <= 0x40_0000
}

proof fn lemma_first(starts: Seq<i32>)
    requires
        starts.len() > 0,
        forall|i: int| 0 <= i < starts.len() ==> -0x80_0000 <= #[trigger] starts[i] <= 0x40_0000,
    ensures
        exists|i: int|
            0 <= i < starts.len() && first_of(starts) == measure(#[trigger] starts[i]) && forall|
                j: int,
            |
                0 <= j < starts.len() ==> starts[i] <= #[trigger] starts[j],
    decreases starts.len(),
{
    if starts.len() == 1 {
        assert(first_of(starts) == measure(starts[0]));
    } else {
        let rest = starts.drop_last();
        assert forall|i: int| 0 <= i < rest.len() implies -0x80_0000 <= #[trigger] rest[i]
            <= 0x40_0000 by {
            assert(rest[i] == starts[i]);
        }
        lemma_first(rest);
        let i = choose|i: int|
            0 <= i < rest.len() && first_of(rest) == measure(#[trigger] rest[i]) && forall|j: int|
                0 <= j < rest.len() ==> rest[i] <= #[trigger] rest[j];
        let last = starts.len() - 1;
        single::small_whole_numbers_add_up(starts[last] as int, rest[i] as int);
        single::small_whole_numbers_are_exact(rest[i] as int);
        single::small_whole_numbers_are_exact(starts[last] as int);
        let k = if starts[last] < rest[i] { last } else { i };
        assert(first_of(starts) == measure(starts[k]));
        assert forall|j: int| 0 <= j < starts.len() implies starts[k] <= #[trigger] starts[j] by {
            if j < last {
                assert(rest[j] == starts[j]);
            }
        }
    }
}

proof fn lemma_last(spans: Seq<(i32, i32)>)
    requires
        spans.len() > 0,
        measurable(spans),
    ensures
        exists|i: int|
            0 <= i < spans.len() && last_of(spans) == single::of_int(
                (#[trigger] spans[i]).0 + spans[i].1,
            ) && forall|j: int|
                0 <= j < spans.len() ==> (#[trigger] spans[j]).0 + spans[j].1 <= spans[i].0
                    + spans[i].1,
    decreases spans.len(),
{
    let last = spans.len() - 1;
    assert(-0x80_0000 <= spans[last].0 <= 0x40_0000);
    let end = spans[last].0 + spans[last].1;
    single::small_whole_numbers_add_up(spans[last].0 as int, spans[last].1 as int);
    if spans.len() == 1 {
        assert(last_of(spans) == single::of_int(spans[0].0 + spans[0].1));
    } else {
        let rest = spans.drop_last();
        assert forall|i: int| 0 <= i < rest.len() implies -0x80_0000 <= (#[trigger] rest[i]).0
            <= 0x40_0000 && 0 <= rest[i].1 <= 0x40_0000 by {
            assert(rest[i] == spans[i]);
        }
        lemma_last(rest);
        let i = choose|i: int|
            0 <= i < rest.len() && last_of(rest) == single::of_int(
                (#[trigger] rest[i]).0 + rest[i].1,
            ) && forall|j: int|
                0 <= j < rest.len() ==> (#[trigger] rest[j]).0 + rest[j].1 <= rest[i].0
                    + rest[i].1;
        assert(rest[i] == spans[i]);
        let before = spans[i].0 + spans[i].1;
        single::small_whole_numbers_add_up(before, end);
        single::small_whole_numbers_are_exact(before);
        single::small_whole_numbers_are_exact(end);
        let k = if before < end { last } else { i };
        assert(last_of(spans) == single::of_int(spans[k].0 + spans[k].1));
        assert forall|j: int| 0 <= j < spans.len() implies (#[trigger] spans[j]).0 + spans[j].1
            <= spans[k].0 + spans[k].1 by {
            if j < last {
                assert(rest[j] == spans[j]);
            }
        }
    }
}

/// The picture is in proportion: no number is closer than a display's to the
/// part of the whole layout that lies before it, or that it takes.
pub proof fn a_layout_is_pictured_in_proportion(
    spans: Seq<(i32, i32)>,
    first: int,
    last: int,
    i: int,
)
    requires
        0 <= i < spans.len(),
        measurable(spans),
        bounded(spans, first, last),
        first < last,
    ensures
        single::closest(part_of(spans, i).0, spans[i].0 - first, last - first),
        single::closest(part_of(spans, i).1, spans[i].1 as int, last - first),
{
    let starts = spans.map_values(|s: (i32, i32)| s.0);
    assert forall|j: int| 0 <= j < starts.len() implies -0x80_0000 <= #[trigger] starts[j]
        <= 0x40_0000 by {
        assert(-0x80_0000 <= spans[j].0 <= 0x40_0000);
    }
    lemma_first(starts);
    lemma_last(spans);
    let a = choose|a: int|
        0 <= a < starts.len() && first_of(starts) == measure(#[trigger] starts[a]) && forall|j: int|
            0 <= j < starts.len() ==> starts[a] <= #[trigger] starts[j];
    let f = choose|f: int| 0 <= f < spans.len() && (#[trigger] spans[f]).0 == first;
    let b = choose|b: int|
        0 <= b < spans.len() && last_of(spans) == single::of_int(
            (#[trigger] spans[b]).0 + spans[b].1,
        ) && forall|j: int|
            0 <= j < spans.len() ==> (#[trigger] spans[j]).0 + spans[j].1 <= spans[b].0
                + spans[b].1;
    let l = choose|l: int| 0 <= l < spans.len() && (#[trigger] spans[l]).0 + spans[l].1 == last;
    assert(starts[a] == spans[a].0 && starts[f] == spans[f].0);
    assert(first <= spans[a].0 && starts[a] <= starts[f]);
    assert(first_of(starts) == single::of_int(first));
    assert(spans[b].0 + spans[b].1 <= last && spans[l].0 + spans[l].1 <= spans[b].0 + spans[b].1);
    assert(last_of(spans) == single::of_int(last));
    assert(-0x80_0000 <= spans[l].0 <= 0x40_0000 && 0 <= spans[l].1 <= 0x40_0000);
    let side = last - first;
    single::small_whole_numbers_add_up(last, first);
    single::small_whole_numbers_add_up(side, 1);
    single::small_whole_numbers_are_exact(side);
    single::lemma_one();
    assert(last_of(spans).minus(first_of(starts)) == single::of_int(side));
    assert(single::of_int(side).larger(Single { bits: single::ONE }) == single::of_int(side));
    assert(first <= spans[i].0 && spans[i].0 + spans[i].1 <= last && spans[i].1 >= 0);
    single::small_whole_numbers_add_up(spans[i].0 as int, first);
    single::quotients_are_closest(spans[i].0 - first, side);
    single::quotients_are_closest(spans[i].1 as int, side);
}

/// The picture takes each display's place across from its left edge and its
/// width, and down from its top edge and its height.
pub proof fn pictures_keep_the_axes_apart(rects: Seq<Rect>, other: Seq<Rect>, i: int)
    requires
        rects.len() == other.len(),
        0 <= i < rects.len(),
        forall|k: int|
            0 <= k < rects.len() ==> (#[trigger] rects[k]).x == other[k].y && rects[k].y
                == other[k].x && rects[k].w == other[k].h && rects[k].h == other[k].w,
    ensures
        proportion(rects, i).x == proportion(other, i).y,
        proportion(rects, i).y == proportion(other, i).x,
        proportion(rects, i).w == proportion(other, i).h,
        proportion(rects, i).h == proportion(other, i).w,
        across(rects)[i] == (rects[i].x, rects[i].w),
{
    assert(across(rects) =~= down(other));
    assert(down(rects) =~= across(other));
}

/// A size is shown as its width and then its height.
pub proof fn sizes_are_read_back(width: u32, height: u32)
    ensures
        ({
            let shown = size_name(width, height);
            let second = crate::strings::behind(crate::strings::behind(shown, ' '), ' ');
            &&& crate::strings::integer_value(crate::strings::before(shown, ' ')) == Some(
                width as int,
            )
            &&& crate::strings::integer_value(second) == Some(height as int)
        }),
{
    reveal_strlit(" × ");
    let (w, h) = (text::decimal(width as nat), text::decimal(height as nat));
    crate::strings::decimals_are_read_back(width as nat);
    crate::strings::decimals_are_read_back(height as nat);
    crate::strings::signed_decimals_are_read_back(width as int);
    crate::strings::signed_decimals_are_read_back(height as int);
    let rest = seq!['×'] + seq![' '] + h;
    assert(size_name(width, height) =~= w + seq![' '] + rest);
    crate::strings::lemma_parted(w, ' ', rest);
    crate::strings::lemma_parted(seq!['×'], ' ', h);
}

} // verus!
