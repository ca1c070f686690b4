//! A display that the session adds to the desktop and takes away again. No
//! configuration of the compositor outlives it.

use vstd::prelude::*;

use crate::hypr::Monitor;
use crate::hypr::Rect;
use crate::single;
use crate::single::Single;
use crate::strings;
use crate::text;

verus! {

#[derive(Debug, Clone, Copy, PartialEq, Eq, Structural)]
pub enum Error {
    Position,
    Size,
    Scale,
    Uneven,
    Arguments,
    Width,
    Height,
    ScaleNumber,
    NoDisplay,
    OutOfRangeX,
    OutOfRangeY,
    DisplayName,
    UnknownOwner,
    OwnedName,
    Session,
    NameInUse,
    Removed,
    NotApplied,
    StillThere,
}

impl Error {
    pub open spec fn text(self) -> Seq<char> {
        match self {
            Error::Position => "display position must be right, left, above, or below"@,
            Error::Size =>
                "extended display must be at least 640×480 and no larger than 4K (landscape or portrait)"@,
            Error::Scale => "desktop scale must be 1 or 2"@,
            Error::Uneven => "display dimensions must divide evenly by desktop scale"@,
            Error::Arguments =>
                "extend needs WIDTH HEIGHT SCALE POSITION, for example: extend 1920 1080 1 right"@,
            Error::Width => "invalid display width"@,
            Error::Height => "invalid display height"@,
            Error::ScaleNumber => "invalid desktop scale"@,
            Error::NoDisplay => "extended desktop needs an active display to extend"@,
            Error::OutOfRangeX => "desktop x is out of range"@,
            Error::OutOfRangeY => "desktop y is out of range"@,
            Error::DisplayName => "unrecognized display name"@,
            Error::UnknownOwner => "unrecognized owned display name"@,
            Error::OwnedName => "invalid owned display name"@,
            Error::Session => "invalid display session"@,
            Error::NameInUse => "extended display name is already in use"@,
            Error::Removed => "extended display was removed"@,
            Error::NotApplied => "Hyprland did not apply the requested extended display layout"@,
            Error::StillThere => "Hyprland still reports the extended display after removal"@,
        }
    }

    pub fn message(self) -> (r: String)
        ensures
            r@ == self.text(),
    {
        let message = match self {
            Error::Position => "display position must be right, left, above, or below",
            Error::Size =>
                "extended display must be at least 640×480 and no larger than 4K (landscape or portrait)",
            Error::Scale => "desktop scale must be 1 or 2",
            Error::Uneven => "display dimensions must divide evenly by desktop scale",
            Error::Arguments =>
                "extend needs WIDTH HEIGHT SCALE POSITION, for example: extend 1920 1080 1 right",
            Error::Width => "invalid display width",
            Error::Height => "invalid display height",
            Error::ScaleNumber => "invalid desktop scale",
            Error::NoDisplay => "extended desktop needs an active display to extend",
            Error::OutOfRangeX => "desktop x is out of range",
            Error::OutOfRangeY => "desktop y is out of range",
            Error::DisplayName => "unrecognized display name",
            Error::UnknownOwner => "unrecognized owned display name",
            Error::OwnedName => "invalid owned display name",
            Error::Session => "invalid display session",
            Error::NameInUse => "extended display name is already in use",
            Error::Removed => "extended display was removed",
            Error::NotApplied => "Hyprland did not apply the requested extended display layout",
            Error::StillThere => "Hyprland still reports the extended display after removal",
        };
        message.to_owned()
    }
}

/// On which side of the desktop the display is added.
#[derive(Debug, Clone, Copy, PartialEq, Eq, Structural)]
pub enum Position {
    Right,
    Left,
    Above,
    Below,
}

impl Position {
    pub open spec fn name(self) -> Seq<char> {
        match self {
            Position::Right => "Right"@,
            Position::Left => "Left"@,
            Position::Above => "Above"@,
            Position::Below => "Below"@,
        }
    }

    /// What a word stands for, in any case.
    pub open spec fn named(word: Seq<char>) -> Option<Position> {
        if strings::same_ignoring_case("Right"@, word) {
            Some(Position::Right)
        } else if strings::same_ignoring_case("Left"@, word) {
            Some(Position::Left)
        } else if strings::same_ignoring_case("Above"@, word) {
            Some(Position::Above)
        } else if strings::same_ignoring_case("Below"@, word) {
            Some(Position::Below)
        } else {
            None
        }
    }

    pub fn label(self) -> (r: &'static str)
        ensures
            r@ == self.name(),
    {
        match self {
            Position::Right => "Right",
            Position::Left => "Left",
            Position::Above => "Above",
            Position::Below => "Below",
        }
    }

    pub fn parse(value: &str) -> (r: Result<Self, Error>)
        ensures
            r == match Position::named(value@) {
                Some(position) => Ok::<Position, Error>(position),
                None => Err::<Position, Error>(Error::Position),
            },
    {
        if strings::equals_ignoring_case("Right", value) {
            Ok(Position::Right)
        } else if strings::equals_ignoring_case("Left", value) {
            Ok(Position::Left)
        } else if strings::equals_ignoring_case("Above", value) {
            Ok(Position::Above)
        } else if strings::equals_ignoring_case("Below", value) {
            Ok(Position::Below)
        } else {
            Err(Error::Position)
        }
    }
}

/// Every position is read back from its label.
pub proof fn labels_are_read_back(position: Position)
    ensures
        Position::named(position.name()) == Some(position),
{
    reveal_strlit("Right");
    reveal_strlit("Left");
    reveal_strlit("Above");
    reveal_strlit("Below");
    let word = position.name();
    assert(position != Position::Right ==> strings::lower("Right"@[0]) != strings::lower(word[0]));
    assert(position == Position::Below ==> strings::lower("Above"@[0]) != strings::lower(word[0]));
}

/// The display to add.
#[derive(Debug, Clone, Copy, PartialEq, Eq, Structural)]
pub struct DesktopConfig {
    pub width: u32,
    pub height: u32,
    pub scale: u32,
    pub position: Position,
}

impl Default for DesktopConfig {
    fn default() -> (r: Self)
        ensures
            r == (DesktopConfig { width: 1920, height: 1080, scale: 1, position: Position::Right }),
    {
        DesktopConfig { width: 1920, height: 1080, scale: 1, position: Position::Right }
    }
}

/// Where an edge of the desktop lies on a side: the larger, the farther out.
pub open spec fn reach(position: Position, r: Rect) -> int {
    match position {
        Position::Right => r.x + r.w,
        Position::Left => -r.x,
        Position::Below => r.y + r.h,
        Position::Above => -r.y,
    }
}

/// The monitor at `i` is the outermost; of several that reach equally far, the
/// last.
pub open spec fn outermost(position: Position, monitors: Seq<Monitor>, i: int) -> bool {
    &&& 0 <= i < monitors.len()
    &&& forall|j: int|
        0 <= j < monitors.len() ==> reach(position, (#[trigger] monitors[j]).area()) <= reach(
            position,
            monitors[i].area(),
        )
    &&& forall|j: int|
        i < j < monitors.len() ==> reach(position, (#[trigger] monitors[j]).area()) < reach(
            position,
            monitors[i].area(),
        )
}

fn reach_of(position: Position, r: &Rect) -> (n: i64)
    ensures
        n == reach(position, *r),
{
    match position {
        Position::Right => r.x as i64 + r.w as i64,
        Position::Left => 0 - r.x as i64,
        Position::Below => r.y as i64 + r.h as i64,
        Position::Above => 0 - r.y as i64,
    }
}

impl DesktopConfig {
    /// Why the display cannot be added.
    pub open spec fn refused(self) -> Option<Error> {
        if !(640 <= self.width <= 3840 && 480 <= self.height <= 3840 && self.width * self.height
            <= 3840 * 2160) {
            Some(Error::Size)
        } else if self.scale != 1 && self.scale != 2 {
            Some(Error::Scale)
        } else if self.width as int % self.scale as int != 0 || self.height as int
            % self.scale as int != 0 {
            Some(Error::Uneven)
        } else {
            None
        }
    }

    /// The logical size.
    pub open spec fn logical(self) -> (int, int) {
        (self.width as int / self.scale as int, self.height as int / self.scale as int)
    }

    pub fn validate(&self) -> (r: Result<(), Error>)
        ensures
            r == match self.refused() {
                Some(error) => Err::<(), Error>(error),
                None => Ok::<(), Error>(()),
            },
    {
        let pixels: u64 = {
            proof {
                assert(self.width * self.height <= 0xffff_ffff * 0xffff_ffff) by (nonlinear_arith)
                    requires
                        self.width <= 0xffff_ffff,
                        self.height <= 0xffff_ffff,
                ;
            }
            self.width as u64 * self.height as u64
        };
        if !(640 <= self.width && self.width <= 3840 && 480 <= self.height && self.height <= 3840
            && pixels <= 3840 * 2160) {
            return Err(Error::Size);
        }
        if self.scale != 1 && self.scale != 2 {
            return Err(Error::Scale);
        }
        if self.width % self.scale != 0 || self.height % self.scale != 0 {
            return Err(Error::Uneven);
        }
        Ok(())
    }

    /// What the arguments ask for.
    pub open spec fn asked(args: Seq<String>) -> Result<DesktopConfig, Error> {
        if args.len() != 4 {
            Err(Error::Arguments)
        } else {
            match strings::number_value(args[0]@, 10, u32::MAX as int) {
                None => Err(Error::Width),
                Some(width) => match strings::number_value(args[1]@, 10, u32::MAX as int) {
                    None => Err(Error::Height),
                    Some(height) => match strings::number_value(args[2]@, 10, u32::MAX as int) {
                        None => Err(Error::ScaleNumber),
                        Some(scale) => match Position::named(args[3]@) {
                            None => Err(Error::Position),
                            Some(position) => {
                                let config = DesktopConfig {
                                    width: width as u32,
                                    height: height as u32,
                                    scale: scale as u32,
                                    position,
                                };
                                match config.refused() {
                                    Some(error) => Err(error),
                                    None => Ok(config),
                                }
                            },
                        },
                    },
                },
            }
        }
    }

    pub fn from_args(args: &[String]) -> (r: Result<Self, Error>)
        ensures
            r == DesktopConfig::asked(args@),
    {
        if args.len() != 4 {
            return Err(Error::Arguments);
        }
        let width: u32 = match strings::parse_number(args[0].as_str(), 10, 0xffff_ffff) {
            Some(width) => {
                proof {
                    strings::lemma_number_range(args@[0]@, 10, u32::MAX as int);
                }
                width as u32
            },
            None => {
                return Err(Error::Width);
            },
        };
        let height: u32 = match strings::parse_number(args[1].as_str(), 10, 0xffff_ffff) {
            Some(height) => height as u32,
            None => {
                return Err(Error::Height);
            },
        };
        let scale: u32 = match strings::parse_number(args[2].as_str(), 10, 0xffff_ffff) {
            Some(scale) => scale as u32,
            None => {
                return Err(Error::ScaleNumber);
            },
        };
        let position = match Position::parse(args[3].as_str()) {
            Ok(position) => position,
            Err(error) => {
                return Err(error);
            },
        };
        let config = DesktopConfig { width, height, scale, position };
        match config.validate() {
            Ok(()) => Ok(config),
            Err(error) => Err(error),
        }
    }

    /// Where the display lies when it is attached to a monitor.
    pub open spec fn beside(self, edge: Rect) -> (int, int) {
        match self.position {
            Position::Right => (edge.x + edge.w, edge.y as int),
            Position::Left => (edge.x - self.logical().0, edge.y as int),
            Position::Below => (edge.x as int, edge.y + edge.h),
            Position::Above => (edge.x as int, edge.y - self.logical().1),
        }
    }

    /// Where the display goes, attached to the monitor at `i`.
    pub open spec fn attached(self, monitors: Seq<Monitor>, i: int) -> Result<(i32, i32), Error> {
        let at = self.beside(monitors[i].area());
        if !(i32::MIN <= at.0 <= i32::MAX) {
            Err(Error::OutOfRangeX)
        } else if !(i32::MIN <= at.1 <= i32::MAX) {
            Err(Error::OutOfRangeY)
        } else {
            Ok((at.0 as i32, at.1 as i32))
        }
    }

    /// The result places the display.
    pub open spec fn places(self, monitors: Seq<Monitor>, r: Result<(i32, i32), Error>) -> bool {
        match self.refused() {
            Some(error) => r == Err::<(i32, i32), Error>(error),
            None => if monitors.len() == 0 {
                r == Err::<(i32, i32), Error>(Error::NoDisplay)
            } else {
                exists|i: int| #[trigger]
                    outermost(self.position, monitors, i) && r == self.attached(monitors, i)
            },
        }
    }

    /// Attaches the display to the outermost monitor on its side, so that no
    /// monitor can overlap it. Its edge stays reachable even with gaps in the
    /// layout.
    pub fn placement(&self, monitors: &[Monitor]) -> (r: Result<(i32, i32), Error>)
        ensures
            self.places(monitors@, r),
    {
        match self.validate() {
            Ok(()) => {},
            Err(error) => {
                return Err(error);
            },
        }
        if monitors.len() == 0 {
            return Err(Error::NoDisplay);
        }
        let mut best: usize = 0;
        let mut i: usize = 1;
        while i < monitors.len()
            invariant
                best < i <= monitors@.len(),
                forall|j: int|
                    0 <= j < i ==> reach(self.position, (#[trigger] monitors@[j]).area()) <= reach(
                        self.position,
                        monitors@[best as int].area(),
                    ),
                forall|j: int|
                    best < j < i ==> reach(self.position, (#[trigger] monitors@[j]).area())
                        < reach(self.position, monitors@[best as int].area()),
            decreases monitors@.len() - i,
        {
            let there = monitors[i].canvas();
            let here = monitors[best].canvas();
            if reach_of(self.position, &there) >= reach_of(self.position, &here) {
                best = i;
            }
            i = i + 1;
        }
        assert(outermost(self.position, monitors@, best as int));
        let edge = monitors[best].canvas();
        let width: i64 = (self.width / self.scale) as i64;
        let height: i64 = (self.height / self.scale) as i64;
        let (x, y): (i64, i64) = match self.position {
            Position::Right => (edge.x as i64 + edge.w as i64, edge.y as i64),
            Position::Left => (edge.x as i64 - width, edge.y as i64),
            Position::Below => (edge.x as i64, edge.y as i64 + edge.h as i64),
            Position::Above => (edge.x as i64, edge.y as i64 - height),
        };
        assert((x as int, y as int) == self.beside(edge));
        if x < -0x8000_0000 || x > 0x7fff_ffff {
            return Err(Error::OutOfRangeX);
        }
        if y < -0x8000_0000 || y > 0x7fff_ffff {
            return Err(Error::OutOfRangeY);
        }
        Ok((x as i32, y as i32))
    }
}

/// Where a display goes leaves no choice.
pub proof fn a_placement_is_determined(
    config: DesktopConfig,
    monitors: Seq<Monitor>,
    a: Result<(i32, i32), Error>,
    b: Result<(i32, i32), Error>,
)
    requires
        config.places(monitors, a),
        config.places(monitors, b),
    ensures
        a == b,
{
    if config.refused() is None && monitors.len() > 0 {
        let i = choose|i: int| #[trigger]
            outermost(config.position, monitors, i) && a == config.attached(monitors, i);
        let j = choose|j: int| #[trigger]
            outermost(config.position, monitors, j) && b == config.attached(monitors, j);
        assert(reach(config.position, monitors[i].area()) <= reach(
            config.position,
            monitors[j].area(),
        ));
        assert(reach(config.position, monitors[j].area()) <= reach(
            config.position,
            monitors[i].area(),
        ));
        assert(i == j);
    }
}

/// Two rectangles share a point.
pub open spec fn overlap(ax: int, ay: int, aw: int, ah: int, b: Rect) -> bool {
    ax < b.x + b.w && b.x < ax + aw && ay < b.y + b.h && b.y < ay + ah
}

/// A placed display overlaps no monitor.
pub proof fn a_placed_display_overlaps_no_monitor(
    config: DesktopConfig,
    monitors: Seq<Monitor>,
    x: i32,
    y: i32,
    j: int,
)
    requires
        config.places(monitors, Ok((x, y))),
        0 <= j < monitors.len(),
    ensures
        !overlap(
            x as int,
            y as int,
            config.logical().0,
            config.logical().1,
            monitors[j].area(),
        ),
{
    let i = choose|i: int| #[trigger]
        outermost(config.position, monitors, i) && Ok::<(i32, i32), Error>((x, y))
            == config.attached(monitors, i);
    assert(reach(config.position, monitors[j].area()) <= reach(
        config.position,
        monitors[i].area(),
    ));
}

/// The name can stand in a command as it is.
pub open spec fn safe_char(c: char) -> bool {
    'a' <= c <= 'z' || 'A' <= c <= 'Z' || '0' <= c <= '9' || c == '-' || c == '_' || c == '.'
}

pub open spec fn safe_name(name: Seq<char>) -> bool {
    0 < name.len() <= 64 && forall|i: int| 0 <= i < name.len() ==> safe_char(#[trigger] name[i])
}

fn is_safe_char(c: char) -> (r: bool)
    ensures
        r == safe_char(c),
{
    ('a' <= c && c <= 'z') || ('A' <= c && c <= 'Z') || ('0' <= c && c <= '9') || c == '-' || c
        == '_' || c == '.'
}

pub fn output_name_is_safe(name: &str) -> (r: bool)
    ensures
        r == safe_name(name@),
{
    let chars = text::chars(name);
    if chars.len() == 0 || chars.len() > 64 {
        return false;
    }
    let mut i: usize = 0;
    while i < chars.len()
        invariant
            chars@ == name@,
            i <= chars@.len(),
            forall|k: int| 0 <= k < i ==> safe_char(#[trigger] name@[k]),
        decreases chars@.len() - i,
    {
        let c: char = chars[i];
        if !is_safe_char(c) {
            assert(!safe_char(name@[i as int]));
            return false;
        }
        i = i + 1;
    }
    true
}

/// The bits of half a thousandth.
pub const HALF_THOUSANDTH: u32 = 0x3a03_126f;

/// The bits of a hundredth.
pub const HUNDREDTH: u32 = 0x3c23_d70a;

/// A number as the compositor takes it: whole where it is within half a
/// thousandth, otherwise with up to four decimals.
pub open spec fn number_text(value: Single) -> Seq<char> {
    let q = value.decimals(10_000);
    let sign = if value.negative() { "-"@ } else { ""@ };
    if value.no_number() {
        "NaN"@
    } else if value.infinite() {
        sign + "inf"@
    } else if value.minus(value.rounded()).unsigned().below(Single { bits: HALF_THOUSANDTH }) {
        text::signed_decimal(
            single::saturated(if value.negative() { -value.whole() } else { value.whole() }),
        )
    } else {
        strings::without_end(
            strings::without_end(
                sign + text::decimal((q / 10_000) as nat) + seq![
                    '.',
                    text::digit_char(q / 1000 % 10),
                    text::digit_char(q / 100 % 10),
                    text::digit_char(q / 10 % 10),
                    text::digit_char(q % 10),
                ],
                '0',
            ),
            '.',
        )
    }
}

fn whole_number(value: Single) -> (r: String)
    requires
        value.finite(),
    ensures
        r@ == text::signed_decimal(
            single::saturated(if value.negative() { -value.whole() } else { value.whole() }),
        ),
{
    let n: i64 = value.round() as i64;
    let whole: i64 = if value.is_negative() {
        if n > 0x8000_0000 {
            -0x8000_0000
        } else {
            -n
        }
    } else if n > 0x7fff_ffff {
        0x7fff_ffff
    } else {
        n
    };
    proof {
        single::lemma_whole_size(value);
    }
    let mut number = String::new();
    text::push_signed(&mut number, whole);
    assert(number@ =~= text::signed_decimal(whole as int));
    number
}

pub fn hypr_number(value: Single) -> (r: String)
    ensures
        r@ == number_text(value),
{
    if value.is_no_number() {
        return "NaN".to_owned();
    }
    let mut number = String::new();
    if value.is_negative() {
        number.append("-");
    }
    let ghost sign = number@;
    assert(sign =~= if value.negative() { "-"@ } else { ""@ }) by {
        reveal_strlit("");
    }
    if value.is_infinite() {
        number.append("inf");
        return number;
    }
    let off = value.difference(value.round_whole()).abs();
    if off.less(Single { bits: HALF_THOUSANDTH }) {
        return whole_number(value);
    }
    proof {
        if 0x4b00_0000 <= value.code() {
            single::large_numbers_are_whole(value);
        }
    }
    let q: u64 = value.decimal_digits(10_000);
    text::push_decimal(&mut number, q / 10_000);
    number.push('.');
    number.push(text::digit(q / 1000 % 10));
    number.push(text::digit(q / 100 % 10));
    number.push(text::digit(q / 10 % 10));
    number.push(text::digit(q % 10));
    assert(number@ =~= sign + text::decimal((q as int / 10_000) as nat) + seq![
        '.',
        text::digit_char(q as int / 1000 % 10),
        text::digit_char(q as int / 100 % 10),
        text::digit_char(q as int / 10 % 10),
        text::digit_char(q as int % 10),
    ]);
    strings::drop_end(strings::drop_end(number, '0'), '.')
}

/// Freezes an output at its place.
pub open spec fn pin_text(monitor: Monitor) -> Seq<char> {
    "eval hl.monitor({ output = \""@ + monitor.name@ + "\", mode = \""@ + text::decimal(
        monitor.width as nat,
    ) + "x"@ + text::decimal(monitor.height as nat) + "@"@ + number_text(monitor.refresh_rate)
        + "\", position = \""@ + text::signed_decimal(monitor.x as int) + "x"@
        + text::signed_decimal(monitor.y as int) + "\", scale = "@ + number_text(monitor.scale)
        + ", transform = "@ + text::decimal(monitor.transform as nat) + " })"@
}

/// A command's result as one of sequences.
pub open spec fn seen(r: Result<String, Error>) -> Result<Seq<char>, Error> {
    match r {
        Ok(s) => Ok(s@),
        Err(error) => Err(error),
    }
}

/// Freezes an output at its current layout coordinates. A catch-all rule would
/// otherwise move it when a new display appears: the compositor places
/// explicit monitors first and the others to their right.
pub fn pin_command(monitor: &Monitor) -> (r: Result<String, Error>)
    ensures
        seen(r) == if safe_name(monitor.name@) {
            Ok::<Seq<char>, Error>(pin_text(*monitor))
        } else {
            Err::<Seq<char>, Error>(Error::DisplayName)
        },
{
    if !output_name_is_safe(monitor.name.as_str()) {
        return Err(Error::DisplayName);
    }
    let mut command = "eval hl.monitor({ output = \"".to_owned();
    command.append(monitor.name.as_str());
    command.append("\", mode = \"");
    text::push_decimal(&mut command, monitor.width as u64);
    command.append("x");
    text::push_decimal(&mut command, monitor.height as u64);
    command.append("@");
    command.append(hypr_number(monitor.refresh_rate).as_str());
    command.append("\", position = \"");
    text::push_signed(&mut command, monitor.x as i64);
    command.append("x");
    text::push_signed(&mut command, monitor.y as i64);
    command.append("\", scale = ");
    command.append(hypr_number(monitor.scale).as_str());
    command.append(", transform = ");
    text::push_decimal(&mut command, monitor.transform as u64);
    command.append(" })");
    Ok(command)
}

/// Sets the added display up.
pub open spec fn extra_text(name: Seq<char>, config: DesktopConfig, x: i32, y: i32) -> Seq<char> {
    "eval hl.monitor({ output = \""@ + name + "\", mode = \""@ + text::decimal(config.width as nat)
        + "x"@ + text::decimal(config.height as nat) + "@60\", position = \""@
        + text::signed_decimal(x as int) + "x"@ + text::signed_decimal(y as int) + "\", scale = "@
        + text::decimal(config.scale as nat) + " })"@
}

pub fn extra_command(name: &str, config: &DesktopConfig, x: i32, y: i32) -> (r: Result<
    String,
    Error,
>)
    ensures
        seen(r) == if safe_name(name@) {
            Ok::<Seq<char>, Error>(extra_text(name@, *config, x, y))
        } else {
            Err::<Seq<char>, Error>(Error::DisplayName)
        },
{
    if !output_name_is_safe(name) {
        return Err(Error::DisplayName);
    }
    let mut command = "eval hl.monitor({ output = \"".to_owned();
    command.append(name);
    command.append("\", mode = \"");
    text::push_decimal(&mut command, config.width as u64);
    command.append("x");
    text::push_decimal(&mut command, config.height as u64);
    command.append("@60\", position = \"");
    text::push_signed(&mut command, x as i64);
    command.append("x");
    text::push_signed(&mut command, y as i64);
    command.append("\", scale = ");
    text::push_decimal(&mut command, config.scale as u64);
    command.append(" })");
    Ok(command)
}

/// The commands that freeze outputs, in order.
#[derive(Debug)]
pub struct Pins {
    pub commands: Vec<String>,
    /// The output that each command freezes.
    pub names: Vec<String>,
    /// The output behind the last command has a name that no command can hold.
    pub refused: bool,
}

impl Pins {
    /// The commands freeze the outputs, up to the first that is refused.
    pub open spec fn of(self, monitors: Seq<Monitor>) -> bool {
        let n = self.commands@.len() as int;
        &&& n <= monitors.len()
        &&& self.names@.len() == n
        &&& forall|i: int|
            0 <= i < n ==> safe_name((#[trigger] monitors[i]).name@) && self.commands@[i]@
                == pin_text(monitors[i]) && self.names@[i]@ == monitors[i].name@
        &&& if self.refused {
            n < monitors.len() && !safe_name(monitors[n].name@)
        } else {
            n == monitors.len()
        }
    }
}

pub fn pin_outputs(monitors: &[Monitor]) -> (r: Pins)
    ensures
        r.of(monitors@),
{
    let mut commands: Vec<String> = Vec::new();
    let mut names: Vec<String> = Vec::new();
    let mut i: usize = 0;
    while i < monitors.len()
        invariant
            i <= monitors@.len(),
            commands@.len() == i,
            names@.len() == i,
            forall|k: int|
                0 <= k < i ==> safe_name((#[trigger] monitors@[k]).name@) && commands@[k]@
                    == pin_text(monitors@[k]) && names@[k]@ == monitors@[k].name@,
        decreases monitors@.len() - i,
    {
        match pin_command(&monitors[i]) {
            Ok(command) => {
                commands.push(command);
                names.push(monitors[i].name.clone());
            },
            Err(_) => {
                return Pins { commands, names, refused: true };
            },
        }
        i = i + 1;
    }
    Pins { commands, names, refused: false }
}

/// A display that a session added, and the session.
#[derive(Debug, Clone)]
pub struct OwnedDisplay {
    pub name: String,
    pub instance: String,
}

/// Why a record is not one that a session wrote.
pub open spec fn record_refused(name: Seq<char>, instance: Seq<char>) -> Option<Error> {
    let suffix = name.skip("OMABEAM-"@.len() as int);
    if !strings::starts(name, "OMABEAM-"@) {
        Some(Error::UnknownOwner)
    } else if suffix.len() != 32 || !strings::all_hex(suffix) {
        Some(Error::OwnedName)
    } else if instance.len() == 0 || vstd::utf8::encode_utf8(instance).len() > 256 {
        Some(Error::Session)
    } else {
        None
    }
}

impl OwnedDisplay {
    pub open spec fn refused(self) -> Option<Error> {
        record_refused(self.name@, self.instance@)
    }

    pub fn validate(&self) -> (r: Result<(), Error>)
        ensures
            r == match self.refused() {
                Some(error) => Err::<(), Error>(error),
                None => Ok::<(), Error>(()),
            },
    {
        let suffix = match strings::strip_prefix(self.name.as_str(), "OMABEAM-") {
            Some(suffix) => suffix,
            None => {
                return Err(Error::UnknownOwner);
            },
        };
        let digits = text::chars(suffix.as_str());
        if digits.len() != 32 || !strings::only_hex(suffix.as_str()) {
            return Err(Error::OwnedName);
        }
        if self.instance.as_str().is_empty() || self.instance.as_str().as_bytes().len() > 256 {
            return Err(Error::Session);
        }
        Ok(())
    }
}

/// A monitor has the name.
pub open spec fn has_name(monitors: Seq<Monitor>, name: Seq<char>) -> bool {
    exists|i: int| 0 <= i < monitors.len() && (#[trigger] monitors[i]).name@ == name
}

fn is_listed(monitors: &[Monitor], name: &str) -> (r: bool)
    ensures
        r == has_name(monitors@, name@),
{
    let mut i: usize = 0;
    while i < monitors.len()
        invariant
            i <= monitors@.len(),
            forall|j: int| 0 <= j < i ==> (#[trigger] monitors@[j]).name@ != name@,
        decreases monitors@.len() - i,
    {
        if text::same(monitors[i].name.as_str(), name) {
            assert(monitors@[i as int].name@ == name@);
            return true;
        }
        i = i + 1;
    }
    false
}

/// The added display, which is taken away again unless that was tried.
#[derive(Debug)]
pub struct VirtualDisplay {
    pub owned: OwnedDisplay,
    pub cleanup: bool,
}

/// How the display is set up: freeze the other outputs, then send the command
/// and expect the display at its place.
#[derive(Debug)]
pub struct Setup {
    pub pins: Pins,
    pub place: Result<Place, Error>,
}

#[derive(Debug)]
pub struct Place {
    pub command: String,
    pub x: i32,
    pub y: i32,
}

/// The monitors without those of a name.
pub open spec fn others(monitors: Seq<Monitor>, name: Seq<char>) -> Seq<Monitor> {
    monitors.filter(|m: Monitor| m.name@ != name)
}

/// Takes the monitors of a name out.
fn without(monitors: Vec<Monitor>, name: &str) -> (r: Vec<Monitor>)
    ensures
        r@ == others(monitors@, name@),
{
    let ghost all = monitors@;
    let ghost keep = |m: Monitor| m.name@ != name@;
    let mut rest = monitors;
    let ghost mut k: int = 0;
    let mut i: usize = 0;
    proof {
        reveal(Seq::filter);
        assert(all.take(0) =~= Seq::empty());
        assert(all.skip(0) =~= all);
        assert(rest@ =~= all.take(0).filter(keep) + all.skip(0));
    }
    while i < rest.len()
        invariant
            0 <= k <= all.len(),
            keep == (|m: Monitor| m.name@ != name@),
            i == all.take(k).filter(keep).len(),
            rest@ == all.take(k).filter(keep) + all.skip(k),
        decreases all.len() - k,
    {
        let ghost before = rest@;
        proof {
            reveal(Seq::filter);
            assert(all.take(k + 1).drop_last() =~= all.take(k));
            assert(all.take(k + 1).last() == all[k]);
            assert(rest@[i as int] == all[k]);
        }
        if text::same(rest[i].name.as_str(), name) {
            rest.remove(i);
            assert(rest@ =~= all.take(k).filter(keep) + all.skip(k + 1));
        } else {
            i = i + 1;
            assert(rest@ =~= all.take(k).filter(keep).push(all[k]) + all.skip(k + 1));
        }
        proof {
            k = k + 1;
        }
    }
    assert(all.skip(k) =~= Seq::empty());
    assert(all.take(k) =~= all);
    assert(rest@ =~= all.filter(keep));
    rest
}

impl VirtualDisplay {
    /// The result adds a display of the name to the session, or says what
    /// speaks against it.
    pub open spec fn creates(
        config: DesktopConfig,
        active: Seq<Monitor>,
        all: Seq<Monitor>,
        name: Seq<char>,
        instance: Seq<char>,
        r: Result<VirtualDisplay, Error>,
    ) -> bool {
        exists|place: Result<(i32, i32), Error>| #[trigger]
            config.places(active, place) && match place {
                Err(error) => r is Err && r->Err_0 == error,
                Ok(_) => if has_name(all, name) {
                    r is Err && r->Err_0 == Error::NameInUse
                } else {
                    match record_refused(name, instance) {
                        Some(error) => r is Err && r->Err_0 == error,
                        None => {
                            &&& r is Ok
                            &&& r->Ok_0.owned.name@ == name
                            &&& r->Ok_0.owned.instance@ == instance
                            &&& r->Ok_0.cleanup
                        },
                    }
                },
            }
    }

    /// The display to add. Its record is kept before anything is changed; then
    /// the outputs in use are frozen, the display is created with
    /// `create_command`, and it is set up with `resize`.
    pub fn create(
        config: &DesktopConfig,
        active: &[Monitor],
        all: &[Monitor],
        token: &str,
        instance: String,
    ) -> (r: Result<Self, Error>)
        ensures
            VirtualDisplay::creates(
                *config,
                active@,
                all@,
                "OMABEAM-"@ + token@,
                instance@,
                r,
            ),
    {
        let place = config.placement(active);
        let mut name = "OMABEAM-".to_owned();
        name.append(token);
        let owned = OwnedDisplay { name, instance };
        assert(config.places(active@, place));
        match place {
            Ok(_) => {},
            Err(error) => {
                return Err(error);
            },
        }
        if is_listed(all, owned.name.as_str()) {
            return Err(Error::NameInUse);
        }
        match owned.validate() {
            Ok(()) => Ok(VirtualDisplay { owned, cleanup: true }),
            Err(error) => Err(error),
        }
    }

    pub fn name(&self) -> (r: &str)
        ensures
            r@ == self.owned.name@,
    {
        self.owned.name.as_str()
    }

    /// The command that creates the display.
    pub fn create_command(&self) -> (r: String)
        ensures
            r@ == "output create headless "@ + self.owned.name@,
            last_word(r@) == last_word(self.owned.name@),
    {
        let mut command = "output create headless ".to_owned();
        command.append(self.owned.name.as_str());
        proof {
            reveal_strlit("output create headless ");
            lemma_last_word("output create headless "@, self.owned.name@);
        }
        command
    }

    /// Sets up this session's display alone. It is left out of the layout that
    /// it is placed in, so that it stays attached after a change of size.
    pub fn resize(&self, config: &DesktopConfig, all: &[Monitor], active: Vec<Monitor>) -> (r: Result<
        Setup,
        Error,
    >)
        ensures
            match config.refused() {
                Some(error) => r is Err && r->Err_0 == error,
                None => match self.owned.refused() {
                    Some(error) => r is Err && r->Err_0 == error,
                    None => if !has_name(all@, self.owned.name@) {
                        r is Err && r->Err_0 == Error::Removed
                    } else {
                        r is Ok && self.sets_up(*config, others(active@, self.owned.name@), r->Ok_0)
                    },
                },
            },
    {
        match config.validate() {
            Ok(()) => {},
            Err(error) => {
                return Err(error);
            },
        }
        match self.owned.validate() {
            Ok(()) => {},
            Err(error) => {
                return Err(error);
            },
        }
        if !is_listed(all, self.owned.name.as_str()) {
            return Err(Error::Removed);
        }
        let rest = without(active, self.owned.name.as_str());
        let pins = pin_outputs(rest.as_slice());
        let at = config.placement(rest.as_slice());
        assert(config.places(rest@, at));
        let place = match at {
            Ok((x, y)) => match extra_command(self.owned.name.as_str(), config, x, y) {
                Ok(command) => Ok(Place { command, x, y }),
                Err(error) => Err(error),
            },
            Err(error) => Err(error),
        };
        Ok(Setup { pins, place })
    }

    /// The outputs are frozen, and the display is placed among them.
    pub open spec fn sets_up(self, config: DesktopConfig, rest: Seq<Monitor>, setup: Setup) -> bool {
        &&& setup.pins.of(rest)
        &&& exists|at: Result<(i32, i32), Error>| #[trigger]
            config.places(rest, at) && match at {
                Err(error) => setup.place is Err && setup.place->Err_0 == error,
                Ok(at) => if safe_name(self.owned.name@) {
                    &&& setup.place is Ok
                    &&& setup.place->Ok_0.x == at.0
                    &&& setup.place->Ok_0.y == at.1
                    &&& setup.place->Ok_0.command@ == extra_text(
                        self.owned.name@,
                        config,
                        at.0,
                        at.1,
                    )
                } else {
                    setup.place is Err && setup.place->Err_0 == Error::DisplayName
                },
            }
    }

    /// The compositor shows the display as it was asked for.
    pub open spec fn applied(
        self,
        config: DesktopConfig,
        x: i32,
        y: i32,
        monitors: Seq<Monitor>,
    ) -> bool {
        exists|i: int|
            0 <= i < monitors.len() && shows(#[trigger] monitors[i], self.owned.name@, config, x, y)
    }

    /// Whether the layout is applied, `waited` after it was asked for. While
    /// this is false, ask again a little later.
    pub fn settled(
        &self,
        config: &DesktopConfig,
        x: i32,
        y: i32,
        monitors: &[Monitor],
        waited: u64,
    ) -> (r: Result<bool, Error>)
        ensures
            r == if self.applied(*config, x, y, monitors@) {
                Ok::<bool, Error>(true)
            } else if waited < SETTLE_TIME {
                Ok::<bool, Error>(false)
            } else {
                Err::<bool, Error>(Error::NotApplied)
            },
    {
        let mut i: usize = 0;
        while i < monitors.len()
            invariant
                i <= monitors@.len(),
                forall|j: int|
                    0 <= j < i ==> !shows(
                        #[trigger] monitors@[j],
                        self.owned.name@,
                        *config,
                        x,
                        y,
                    ),
            decreases monitors@.len() - i,
        {
            if is_shown(&monitors[i], self.owned.name.as_str(), config, x, y) {
                assert(shows(monitors@[i as int], self.owned.name@, *config, x, y));
                return Ok(true);
            }
            i = i + 1;
        }
        if waited < SETTLE_TIME {
            Ok(false)
        } else {
            Err(Error::NotApplied)
        }
    }

    /// The command that takes the display away, where it is there. Whatever
    /// comes of it, it is not tried again on the way out.
    pub fn remove(&mut self, all: &[Monitor]) -> (r: Result<Option<String>, Error>)
        ensures
            final(self).owned == old(self).owned,
            !final(self).cleanup,
            match old(self).owned.refused() {
                Some(error) => r is Err && r->Err_0 == error,
                None => r is Ok && if has_name(all@, old(self).owned.name@) {
                    r->Ok_0 is Some && r->Ok_0->0@ == "output remove "@ + old(self).owned.name@
                } else {
                    r->Ok_0 is None
                },
            },
            r matches Ok(Some(command)) ==> last_word(command@) == last_word(
                old(self).owned.name@,
            ) && has_name(all@, old(self).owned.name@),
    {
        self.cleanup = false;
        match self.owned.validate() {
            Ok(()) => {},
            Err(error) => {
                return Err(error);
            },
        }
        if is_listed(all, self.owned.name.as_str()) {
            let mut command = "output remove ".to_owned();
            command.append(self.owned.name.as_str());
            proof {
                reveal_strlit("output remove ");
                lemma_last_word("output remove "@, self.owned.name@);
            }
            Ok(Some(command))
        } else {
            Ok(None)
        }
    }

    /// The display is gone after its removal.
    pub fn removed(&self, all: &[Monitor]) -> (r: Result<(), Error>)
        ensures
            r == if has_name(all@, self.owned.name@) {
                Err::<(), Error>(Error::StillThere)
            } else {
                Ok::<(), Error>(())
            },
    {
        if is_listed(all, self.owned.name.as_str()) {
            Err(Error::StillThere)
        } else {
            Ok(())
        }
    }
}

/// How long the compositor may take to apply a layout.
pub const SETTLE_TIME: u64 = 3_000_000;

/// The monitor is the display as it was asked for; its scale may be off by
/// less than a hundredth.
pub open spec fn shows(
    monitor: Monitor,
    name: Seq<char>,
    config: DesktopConfig,
    x: i32,
    y: i32,
) -> bool {
    &&& monitor.name@ == name
    &&& monitor.width == config.width
    &&& monitor.height == config.height
    &&& monitor.scale.minus(single::of_int(config.scale as int)).unsigned().below(
        Single { bits: HUNDREDTH },
    )
    &&& monitor.x == x
    &&& monitor.y == y
}

fn is_shown(monitor: &Monitor, name: &str, config: &DesktopConfig, x: i32, y: i32) -> (r: bool)
    ensures
        r == shows(*monitor, name@, *config, x, y),
{
    let off = monitor.scale.difference(Single::of(config.scale as i64)).abs();
    text::same(monitor.name.as_str(), name) && monitor.width == config.width && monitor.height
        == config.height && off.less(Single { bits: HUNDREDTH }) && monitor.x == x && monitor.y == y
}

/// What is left to do for a record that an earlier session left behind: the
/// display to remove, or nothing where its compositor is gone and the display
/// with it.
pub fn recover(owned: OwnedDisplay, listening: bool) -> (r: Result<Option<VirtualDisplay>, Error>)
    ensures
        match owned.refused() {
            Some(error) => r is Err && r->Err_0 == error,
            None => r is Ok && if listening {
                r->Ok_0 is Some && r->Ok_0->0.owned == owned && r->Ok_0->0.cleanup
            } else {
                r->Ok_0 is None
            },
        },
{
    match owned.validate() {
        Ok(()) => {},
        Err(error) => {
            return Err(error);
        },
    }
    if listening {
        Ok(Some(VirtualDisplay { owned, cleanup: true }))
    } else {
        Ok(None)
    }
}

/// A name that a session owns is one that this program gives, and can stand in
/// every command.
pub proof fn owned_names_are_safe(name: Seq<char>, instance: Seq<char>)
    requires
        record_refused(name, instance) is None,
    ensures
        safe_name(name),
        strings::starts(name, "OMABEAM-"@),
        name.len() == 40,
{
    reveal_strlit("OMABEAM-");
    let prefix = "OMABEAM-"@;
    assert(prefix.len() == 8);
    assert forall|i: int| 0 <= i < name.len() implies safe_char(#[trigger] name[i]) by {
        if i < 8 {
            assert(name.subrange(0, 8)[i] == name[i]);
            assert(name[i] == prefix[i]);
        } else {
            assert(name.skip(8)[i - 8] == name[i]);
            assert(strings::is_hex(name.skip(8)[i - 8]));
        }
    }
}

/// What a command to set a display up says: what stands in its quotes, and the
/// rest behind them.
pub struct Told {
    pub output: Seq<char>,
    pub mode: Seq<char>,
    pub position: Seq<char>,
    pub rest: Seq<char>,
    /// What stands before each of the quotes.
    pub keys: (Seq<char>, Seq<char>, Seq<char>),
}

pub open spec fn told(command: Seq<char>) -> Told {
    let a = strings::behind(command, '"');
    let b = strings::behind(a, '"');
    let c = strings::behind(b, '"');
    let d = strings::behind(c, '"');
    let e = strings::behind(d, '"');
    Told {
        output: strings::before(a, '"'),
        mode: strings::before(c, '"'),
        position: strings::before(e, '"'),
        rest: strings::behind(e, '"'),
        keys: (
            strings::before(command, '"'),
            strings::before(b, '"'),
            strings::before(d, '"'),
        ),
    }
}

impl Told {
    /// The width and the height that the mode asks for.
    pub open spec fn size(self) -> Option<(int, int)> {
        strings::integers_around(strings::before(self.mode, '@'), 'x')
    }

    /// The refresh rate that the mode asks for.
    pub open spec fn rate(self) -> Seq<char> {
        strings::behind(self.mode, '@')
    }

    /// The place that the display gets, across and down.
    pub open spec fn place(self) -> Option<(int, int)> {
        strings::integers_around(self.position, 'x')
    }

    /// The scale that is asked for.
    pub open spec fn scale(self) -> Seq<char> {
        strings::before(strings::behind(strings::behind(self.rest, '='), ' '), ' ')
    }

    /// The fields are named as the compositor knows them.
    pub open spec fn named(self) -> bool {
        &&& self.keys.0 == "eval hl.monitor({ output = "@
        &&& self.keys.1 == ", mode = "@
        &&& self.keys.2 == ", position = "@
        &&& strings::before(self.rest, '=') == ", scale "@
    }
}

proof fn lemma_told(
    name: Seq<char>,
    mode: Seq<char>,
    position: Seq<char>,
    rest: Seq<char>,
    command: Seq<char>,
)
    requires
        strings::lacks(name, '"'),
        strings::lacks(mode, '"'),
        strings::lacks(position, '"'),
        command == "eval hl.monitor({ output = \""@ + name + "\", mode = \""@ + mode
            + "\", position = \""@ + position + "\", scale = "@ + rest,
    ensures
        told(command).output == name,
        told(command).mode == mode,
        told(command).position == position,
        told(command).rest == ", scale = "@ + rest,
        told(command).named(),
{
    reveal_strlit("eval hl.monitor({ output = \"");
    reveal_strlit("eval hl.monitor({ output = ");
    reveal_strlit("\", mode = \"");
    reveal_strlit(", mode = ");
    reveal_strlit("\", position = \"");
    reveal_strlit(", position = ");
    reveal_strlit("\", scale = ");
    reveal_strlit(", scale = ");
    reveal_strlit(", scale ");
    let q = seq!['"'];
    let k0 = "eval hl.monitor({ output = "@;
    let k1 = ", mode = "@;
    let k2 = ", position = "@;
    let tail = ", scale = "@ + rest;
    let f = position + q + tail;
    let e = k2 + q + f;
    let d = mode + q + e;
    let c = k1 + q + d;
    let b = name + q + c;
    assert(command =~= k0 + q + b);
    strings::lemma_parted(k0, '"', b);
    strings::lemma_parted(name, '"', c);
    strings::lemma_parted(k1, '"', d);
    strings::lemma_parted(mode, '"', e);
    strings::lemma_parted(k2, '"', f);
    strings::lemma_parted(position, '"', tail);
    assert(tail =~= ", scale "@ + seq!['='] + (seq![' '] + rest));
    strings::lemma_parted(", scale "@, '=', seq![' '] + rest);
}

/// The command asks for the display that was computed: its name, its mode, its
/// place and its scale are read back, each from the field of that name.
pub proof fn extra_commands_ask_for_what_was_computed(
    name: Seq<char>,
    config: DesktopConfig,
    x: i32,
    y: i32,
)
    requires
        safe_name(name),
    ensures
        ({
            let told = told(extra_text(name, config, x, y));
            &&& told.named()
            &&& told.output == name
            &&& told.size() == Some((config.width as int, config.height as int))
            &&& told.rate() == "60"@
            &&& told.place() == Some((x as int, y as int))
            &&& strings::integer_value(told.scale()) == Some(config.scale as int)
        }),
{
    reveal_strlit("60");
    reveal_strlit("x");
    reveal_strlit("@60\", position = \"");
    reveal_strlit("\", position = \"");
    reveal_strlit("\", scale = ");
    reveal_strlit(", scale = ");
    reveal_strlit(" })");
    let (w, h) = (text::decimal(config.width as nat), text::decimal(config.height as nat));
    let (a, b) = (text::signed_decimal(x as int), text::signed_decimal(y as int));
    let s = text::decimal(config.scale as nat);
    strings::decimals_are_read_back(config.width as nat);
    strings::decimals_are_read_back(config.height as nat);
    strings::decimals_are_read_back(config.scale as nat);
    strings::signed_decimals_are_read_back(x as int);
    strings::signed_decimals_are_read_back(y as int);
    strings::signed_decimals_are_read_back(config.scale as int);
    let size = w + seq!['x'] + h;
    let mode = size + seq!['@'] + "60"@;
    let position = a + seq!['x'] + b;
    let rest = s + " })"@;
    let command = extra_text(name, config, x, y);
    assert(command =~= "eval hl.monitor({ output = \""@ + name + "\", mode = \""@ + mode
        + "\", position = \""@ + position + "\", scale = "@ + rest);
    lemma_told(name, mode, position, rest, command);
    strings::lemma_parted(size, '@', "60"@);
    strings::lemma_integers_around(config.width as int, 'x', config.height as int);
    strings::lemma_integers_around(x as int, 'x', y as int);
    reveal_strlit("})");
    assert(rest =~= s + seq![' '] + "})"@);
    lemma_told_scale(s, "})"@, rest);
}

proof fn lemma_told_scale(scale: Seq<char>, end: Seq<char>, rest: Seq<char>)
    requires
        strings::lacks(scale, ' '),
        rest == scale + seq![' '] + end,
    ensures
        strings::before(
            strings::behind(strings::behind(", scale = "@ + rest, '='), ' '),
            ' ',
        ) == scale,
{
    reveal_strlit(", scale = ");
    reveal_strlit(", scale ");
    let tail = ", scale = "@ + rest;
    let none = Seq::<char>::empty();
    assert(tail =~= ", scale "@ + seq!['='] + (seq![' '] + rest));
    strings::lemma_parted(", scale "@, '=', seq![' '] + rest);
    assert(seq![' '] + rest =~= none + seq![' '] + rest);
    strings::lemma_parted(none, ' ', rest);
    strings::lemma_parted(scale, ' ', end);
}

/// A monitor that is set up as the command says is the display that was asked
/// for.
pub proof fn a_display_set_up_as_told_is_shown(
    monitor: Monitor,
    name: Seq<char>,
    config: DesktopConfig,
    x: i32,
    y: i32,
)
    requires
        safe_name(name),
        ({
            let told = told(extra_text(name, config, x, y));
            &&& monitor.name@ == told.output
            &&& told.size() == Some((monitor.width as int, monitor.height as int))
            &&& told.place() == Some((monitor.x as int, monitor.y as int))
            &&& strings::integer_value(told.scale()) matches Some(scale) && monitor.scale
                == single::of_int(scale)
        }),
    ensures
        shows(monitor, name, config, x, y),
{
    extra_commands_ask_for_what_was_computed(name, config, x, y);
    single::lemma_of_int(config.scale as int);
    single::lemma_amount(single::of_int(config.scale as int).code());
}

/// The characters of numbers.
spec fn of_a_number(c: char) -> bool {
    '0' <= c <= '9' || c == '-' || c == '.' || c == 'N' || c == 'a' || c == 'i' || c == 'n' || c
        == 'f'
}

proof fn lemma_without_end(s: Seq<char>, c: char)
    ensures
        strings::without_end(s, c).len() <= s.len(),
        forall|i: int|
            0 <= i < strings::without_end(s, c).len() ==> #[trigger] strings::without_end(s, c)[i]
                == s[i],
    decreases s.len(),
{
    if s.len() > 0 && s.last() == c {
        lemma_without_end(s.drop_last(), c);
    }
}

proof fn lemma_number_chars(value: Single)
    ensures
        forall|i: int|
            0 <= i < number_text(value).len() ==> of_a_number(#[trigger] number_text(value)[i]),
{
    reveal_strlit("NaN");
    reveal_strlit("inf");
    reveal_strlit("-");
    reveal_strlit("");
    let whole = single::saturated(if value.negative() { -value.whole() } else { value.whole() });
    strings::signed_decimals_are_read_back(whole);
    let q = value.decimals(10_000);
    let sign = if value.negative() { "-"@ } else { ""@ };
    let n = (q / 10_000) as nat;
    strings::decimals_are_read_back(n);
    let s = sign + text::decimal(n) + seq![
        '.',
        text::digit_char(q / 1000 % 10),
        text::digit_char(q / 100 % 10),
        text::digit_char(q / 10 % 10),
        text::digit_char(q % 10),
    ];
    assert forall|i: int| 0 <= i < s.len() implies of_a_number(#[trigger] s[i]) by {
        let k = sign.len() as int;
        let l = text::decimal(n).len() as int;
        if i < k {
            assert(s[i] == sign[i]);
        } else if i < k + l {
            assert(s[i] == text::decimal(n)[i - k]);
        } else {
            assert(i == k + l || i == k + l + 1 || i == k + l + 2 || i == k + l + 3 || i == k + l
                + 4);
        }
    }
    lemma_without_end(s, '0');
    lemma_without_end(strings::without_end(s, '0'), '.');
}

/// Freezing an output tells the compositor what it shows now: its name, its
/// mode and its place are read back, its refresh rate and its scale stand as
/// numbers in their own fields, and the transform comes last.
pub proof fn pins_keep_an_output_where_it_is(monitor: Monitor)
    requires
        safe_name(monitor.name@),
    ensures
        ({
            let told = told(pin_text(monitor));
            &&& told.named()
            &&& told.output == monitor.name@
            &&& told.size() == Some((monitor.width as int, monitor.height as int))
            &&& told.rate() == number_text(monitor.refresh_rate)
            &&& told.place() == Some((monitor.x as int, monitor.y as int))
            &&& told.scale() == number_text(monitor.scale) + seq![',']
            &&& told.rest == ", scale = "@ + number_text(monitor.scale) + ", transform = "@
                + text::decimal(monitor.transform as nat) + " })"@
        }),
{
    reveal_strlit("x");
    reveal_strlit("@");
    reveal_strlit(", scale = ");
    reveal_strlit(", transform = ");
    reveal_strlit("transform = ");
    let (w, h) = (text::decimal(monitor.width as nat), text::decimal(monitor.height as nat));
    let (a, b) = (text::signed_decimal(monitor.x as int), text::signed_decimal(monitor.y as int));
    let r = number_text(monitor.refresh_rate);
    let s = number_text(monitor.scale);
    strings::decimals_are_read_back(monitor.width as nat);
    strings::decimals_are_read_back(monitor.height as nat);
    strings::signed_decimals_are_read_back(monitor.x as int);
    strings::signed_decimals_are_read_back(monitor.y as int);
    lemma_number_chars(monitor.refresh_rate);
    lemma_number_chars(monitor.scale);
    let size = w + seq!['x'] + h;
    let mode = size + seq!['@'] + r;
    let position = a + seq!['x'] + b;
    let end = text::decimal(monitor.transform as nat) + " })"@;
    let rest = s + ", transform = "@ + end;
    let command = pin_text(monitor);
    assert(command =~= "eval hl.monitor({ output = \""@ + monitor.name@ + "\", mode = \""@ + mode
        + "\", position = \""@ + position + "\", scale = "@ + rest);
    lemma_told(monitor.name@, mode, position, rest, command);
    strings::lemma_parted(size, '@', r);
    strings::lemma_integers_around(monitor.width as int, 'x', monitor.height as int);
    strings::lemma_integers_around(monitor.x as int, 'x', monitor.y as int);
    assert(rest =~= (s + seq![',']) + seq![' '] + ("transform = "@ + end));
    lemma_told_scale(s + seq![','], "transform = "@ + end, rest);
    assert(", scale = "@ + rest =~= ", scale = "@ + s + ", transform = "@ + text::decimal(
        monitor.transform as nat,
    ) + " })"@);
}

/// Whole numbers are written as such.
pub proof fn whole_numbers_are_written_plainly(n: int)
    requires
        single::size(n) <= 0x100_0000,
    ensures
        number_text(single::of_int(n)) == text::signed_decimal(n),
        strings::integer_value(number_text(single::of_int(n))) == Some(n),
{
    let value = single::of_int(n);
    let u = single::unit();
    let k = single::size(n);
    single::small_whole_numbers_are_exact(n);
    single::lemma_of_int(n);
    single::lemma_amount(value.code());
    vstd::arithmetic::power2::lemma_pow2_pos(149);
    assert(single::amount(value.code()) == k * u) by {
        assert((-k) * u == -(k * u)) by (nonlinear_arith);
    }
    assert(2 * (k * u) + u == k * (2 * u) + u) by (nonlinear_arith);
    vstd::arithmetic::div_mod::lemma_fundamental_div_mod_converse(2 * (k * u) + u, 2 * u, k, u);
    assert(value.whole() == k);
    single::lemma_near_amount(value.code());
    assert(value.rounded() == value);
    single::lemma_amount(0);
    assert(value.minus(value.rounded()).code() == 0);
    strings::signed_decimals_are_read_back(n);
}

/// What stands behind the last space of a text.
pub open spec fn last_word(s: Seq<char>) -> Seq<char>
    decreases s.len(),
{
    if s.len() == 0 || s.last() == ' ' {
        Seq::empty()
    } else {
        last_word(s.drop_last()).push(s.last())
    }
}

proof fn lemma_last_word(a: Seq<char>, b: Seq<char>)
    requires
        a.len() > 0,
        a.last() == ' ',
    ensures
        last_word(a + b) == last_word(b),
    decreases b.len(),
{
    if b.len() == 0 {
        assert(a + b =~= a);
    } else {
        assert((a + b).last() == b.last());
        assert((a + b).drop_last() =~= a + b.drop_last());
        lemma_last_word(a, b.drop_last());
    }
}

/// A placed display is attached where it was asked for: all monitors lie on the
/// other side of the edge that it shares with one of them, whose corner it
/// takes up.
pub proof fn a_placed_display_is_attached_on_its_side(
    config: DesktopConfig,
    monitors: Seq<Monitor>,
    x: i32,
    y: i32,
)
    requires
        config.places(monitors, Ok((x, y))),
    ensures
        forall|j: int|
            0 <= j < monitors.len() ==> {
                let area = (#[trigger] monitors[j]).area();
                match config.position {
                    Position::Right => area.x + area.w <= x,
                    Position::Left => x * config.scale + config.width <= area.x * config.scale,
                    Position::Below => area.y + area.h <= y,
                    Position::Above => y * config.scale + config.height <= area.y * config.scale,
                }
            },
        exists|j: int|
            0 <= j < monitors.len() && {
                let area = (#[trigger] monitors[j]).area();
                match config.position {
                    Position::Right => area.x + area.w == x && area.y == y,
                    Position::Left => x * config.scale + config.width == area.x * config.scale
                        && area.y == y,
                    Position::Below => area.y + area.h == y && area.x == x,
                    Position::Above => y * config.scale + config.height == area.y * config.scale
                        && area.x == x,
                }
            },
{
    let i = choose|i: int| #[trigger]
        outermost(config.position, monitors, i) && Ok::<(i32, i32), Error>((x, y))
            == config.attached(monitors, i);
    let (w, h, s) = (config.width as int, config.height as int, config.scale as int);
    assert(s == 1 || s == 2);
    assert(w % s == 0 && h % s == 0);
    assert(w / s * s == w && h / s * s == h) by (nonlinear_arith)
        requires
            w % s == 0,
            h % s == 0,
            s == 1 || s == 2,
    ;
    let edge = monitors[i].area();
    assert forall|j: int| 0 <= j < monitors.len() implies {
        let area = (#[trigger] monitors[j]).area();
        match config.position {
            Position::Right => area.x + area.w <= x,
            Position::Left => x * config.scale + config.width <= area.x * config.scale,
            Position::Below => area.y + area.h <= y,
            Position::Above => y * config.scale + config.height <= area.y * config.scale,
        }
    } by {
        assert(reach(config.position, monitors[j].area()) <= reach(config.position, edge));
        let area = monitors[j].area();
        let (a, b) = (area.x as int, area.y as int);
        let (p, q) = (edge.x as int, edge.y as int);
        assert((p - w / s) * s == p * s - w / s * s && (q - h / s) * s == q * s - h / s * s)
            by (nonlinear_arith);
        assert((p <= a ==> p * s <= a * s) && (q <= b ==> q * s <= b * s)) by (nonlinear_arith)
            requires
                s == 1 || s == 2,
        ;
    }
    let (p, q) = (edge.x as int, edge.y as int);
    assert((p - w / s) * s == p * s - w / s * s && (q - h / s) * s == q * s - h / s * s)
        by (nonlinear_arith);
    assert(monitors[i].area() == edge);
}

/// What a setup sends places the display among the others: the command says
/// where the display is expected, it is expected where it overlaps none of
/// them, and each of them is told to stay where it is.
pub proof fn setups_keep_the_others_in_place(
    display: VirtualDisplay,
    config: DesktopConfig,
    rest: Seq<Monitor>,
    setup: Setup,
    j: int,
)
    requires
        display.sets_up(config, rest, setup),
        0 <= j < rest.len(),
    ensures
        setup.place matches Ok(place) ==> {
            let told = told(place.command@);
            &&& told.output == display.owned.name@
            &&& told.place() == Some((place.x as int, place.y as int))
            &&& told.size() == Some((config.width as int, config.height as int))
            &&& !overlap(
                place.x as int,
                place.y as int,
                config.logical().0,
                config.logical().1,
                rest[j].area(),
            )
        },
        j < setup.pins.commands@.len() ==> {
            let told = told(setup.pins.commands@[j]@);
            &&& told.output == rest[j].name@
            &&& told.place() == Some((rest[j].x as int, rest[j].y as int))
            &&& told.size() == Some((rest[j].width as int, rest[j].height as int))
        },
{
    let at = choose|at: Result<(i32, i32), Error>| #[trigger]
        config.places(rest, at) && match at {
            Err(error) => setup.place is Err && setup.place->Err_0 == error,
            Ok(at) => if safe_name(display.owned.name@) {
                &&& setup.place is Ok
                &&& setup.place->Ok_0.x == at.0
                &&& setup.place->Ok_0.y == at.1
                &&& setup.place->Ok_0.command@ == extra_text(
                    display.owned.name@,
                    config,
                    at.0,
                    at.1,
                )
            } else {
                setup.place is Err && setup.place->Err_0 == Error::DisplayName
            },
        };
    if let Ok((x, y)) = at {
        if safe_name(display.owned.name@) {
            extra_commands_ask_for_what_was_computed(display.owned.name@, config, x, y);
            a_placed_display_overlaps_no_monitor(config, rest, x, y, j);
        }
    }
    if j < setup.pins.commands@.len() {
        assert(safe_name(rest[j].name@));
        pins_keep_an_output_where_it_is(rest[j]);
    }
}

/// A display that can be added is read back from its arguments as written out.
pub proof fn arguments_are_read_back(config: DesktopConfig, args: Seq<String>)
    requires
        config.refused() is None,
        args.len() == 4,
        args[0]@ == text::decimal(config.width as nat),
        args[1]@ == text::decimal(config.height as nat),
        args[2]@ == text::decimal(config.scale as nat),
        args[3]@ == config.position.name(),
    ensures
        DesktopConfig::asked(args) == Ok::<DesktopConfig, Error>(config),
{
    strings::decimals_are_read_back(config.width as nat);
    strings::decimals_are_read_back(config.height as nat);
    strings::decimals_are_read_back(config.scale as nat);
    assert('0' <= args[0]@[0] <= '9' && '0' <= args[1]@[0] <= '9' && '0' <= args[2]@[0] <= '9');
    labels_are_read_back(config.position);
}

/// Leaving a display out of a layout leaves out nothing else.
pub proof fn only_the_named_display_is_left_out(
    monitors: Seq<Monitor>,
    name: Seq<char>,
    monitor: Monitor,
)
    ensures
        others(monitors, name).contains(monitor) <==> monitors.contains(monitor) && monitor.name@
            != name,
    decreases monitors.len(),
{
    reveal(Seq::filter);
    if monitors.len() > 0 {
        let rest = monitors.drop_last();
        only_the_named_display_is_left_out(rest, name, monitor);
        let fewer = others(rest, name);
        let all = others(monitors, name);
        let last = monitors.len() - 1;
        if all.contains(monitor) {
            let k = choose|k: int| 0 <= k < all.len() && all[k] == monitor;
            if k < fewer.len() {
                assert(fewer[k] == monitor);
                assert(fewer.contains(monitor));
                let i = choose|i: int| 0 <= i < rest.len() && rest[i] == monitor;
                assert(monitors[i] == monitor);
            } else {
                assert(monitors[last] == monitor);
            }
        }
        if monitors.contains(monitor) && monitor.name@ != name {
            let i = choose|i: int| 0 <= i < monitors.len() && monitors[i] == monitor;
            if i < last {
                assert(rest[i] == monitor);
                assert(fewer.contains(monitor));
                let k = choose|k: int| 0 <= k < fewer.len() && fewer[k] == monitor;
                assert(all[k] == monitor);
            } else {
                assert(all[all.len() - 1] == monitor);
            }
        }
    }
}

/// A layout counts as applied exactly when the compositor lists the display at
/// its place, with its mode, at nearly its scale.
pub proof fn an_applied_layout_has_the_display_in_place(
    display: VirtualDisplay,
    config: DesktopConfig,
    x: i32,
    y: i32,
    monitors: Seq<Monitor>,
)
    requires
        display.applied(config, x, y, monitors),
        config.refused() is None,
    ensures
        exists|i: int|
            0 <= i < monitors.len() && ({
                let m = #[trigger] monitors[i];
                &&& m.name@ == display.owned.name@
                &&& m.x == x && m.y == y
                &&& m.width == config.width && m.height == config.height
                &&& m.scale != single::of_int(3 - config.scale)
            }),
{
    let i = choose|i: int|
        0 <= i < monitors.len() && shows(
            #[trigger] monitors[i],
            display.owned.name@,
            config,
            x,
            y,
        );
    let m = monitors[i];
    let other = 3 - config.scale;
    single::small_whole_numbers_add_up(other, config.scale as int);
    if m.scale == single::of_int(other) {
        single::lemma_of_int(other - config.scale);
        vstd::arithmetic::power2::lemma2_to64();
        single::lemma_one();
        let off = single::of_int(other - config.scale);
        assert(single::size(other - config.scale) == 1);
        vstd::arithmetic::power2::lemma_pow2_pos(149);
        single::lemma_near_order(1 * single::unit(), 1 * single::unit(), 1);
        assert(off.unsigned() == single::of_int(1));
    }
}

} // verus!
