//! What a live share shows and how it is streamed.

use vstd::prelude::*;

use crate::desktop::DesktopConfig;
use crate::frame::PixelMode;
use crate::strings;
use crate::text;

verus! {

/// The address that a share listens on.
#[derive(Debug, Clone, Copy, PartialEq, Eq, Structural)]
pub enum Address {
    V4(u32),
    V6(u128),
}

impl Address {
    /// Only this computer reaches the address.
    pub open spec fn local(self) -> bool {
        match self {
            Address::V4(n) => n / 0x100_0000 == 127,
            Address::V6(n) => n == 1,
        }
    }

    pub fn is_loopback(self) -> (r: bool)
        ensures
            r == self.local(),
    {
        match self {
            Address::V4(n) => n / 0x100_0000 == 127,
            Address::V6(n) => n == 1,
        }
    }
}

/// Which encoder makes H.264.
#[derive(Debug, Clone, Copy, PartialEq, Eq, Structural)]
pub enum EncoderMode {
    Auto,
    Hardware,
    Software,
}

impl EncoderMode {
    pub open spec fn name(self) -> Seq<char> {
        match self {
            EncoderMode::Auto => "Auto"@,
            EncoderMode::Hardware => "Hardware"@,
            EncoderMode::Software => "Software"@,
        }
    }

    pub fn label(self) -> (r: &'static str)
        ensures
            r@ == self.name(),
    {
        match self {
            EncoderMode::Auto => "Auto",
            EncoderMode::Hardware => "Hardware",
            EncoderMode::Software => "Software",
        }
    }

    /// The mode that stands at a place of the menu.
    pub open spec fn listed(index: int) -> EncoderMode {
        if index == 0 {
            EncoderMode::Auto
        } else if index == 1 {
            EncoderMode::Hardware
        } else {
            EncoderMode::Software
        }
    }

    pub fn at(index: usize) -> (r: Self)
        requires
            index < 3,
        ensures
            r == EncoderMode::listed(index as int),
    {
        if index == 0 {
            EncoderMode::Auto
        } else if index == 1 {
            EncoderMode::Hardware
        } else {
            EncoderMode::Software
        }
    }
}

/// How a share is streamed.
#[derive(Debug, Clone, Copy, PartialEq, Eq, Structural)]
pub struct LiveConfig {
    pub fps: u32,
    pub quality: u8,
    pub max_width: Option<u32>,
    pub pixel_mode: PixelMode,
    pub webrtc: bool,
    pub webrtc_port: u16,
    pub h264_bitrate: u32,
    pub encoder: EncoderMode,
    pub cursor: bool,
    pub bind: Address,
    pub port: u16,
}

/// What is shared.
#[derive(Debug, Clone, PartialEq, Eq)]
pub enum LiveSource {
    Extend(DesktopConfig),
    Window {
        address: String,
        stable_id: String,
        label: String,
    },
    Output {
        name: String,
    },
    Region {
        output: String,
        x: i32,
        y: i32,
        w: i32,
        h: i32,
    },
}

#[derive(Debug, Clone, Copy, PartialEq, Eq, Structural)]
pub enum Error {
    MissingValue,
    FrameRate,
    Quality,
    Width,
    Port,
    Bitrate,
    Encoder,
    Bind,
}

impl Error {
    pub open spec fn text(self) -> Seq<char> {
        match self {
            Error::MissingValue => "a live option needs a value"@,
            Error::FrameRate => "frame rate must be between 1 and 120"@,
            Error::Quality => "JPEG quality must be between 1 and 95"@,
            Error::Width => "maximum width must be a positive number"@,
            Error::Port => "port must be between 0 and 65535"@,
            Error::Bitrate => "H.264 bitrate must be a positive number"@,
            Error::Encoder => "encoder must be auto, hardware, or software"@,
            Error::Bind => "invalid bind address"@,
        }
    }

    pub fn message(self) -> (r: String)
        ensures
            r@ == self.text(),
    {
        let message = match self {
            Error::MissingValue => "a live option needs a value",
            Error::FrameRate => "frame rate must be between 1 and 120",
            Error::Quality => "JPEG quality must be between 1 and 95",
            Error::Width => "maximum width must be a positive number",
            Error::Port => "port must be between 0 and 65535",
            Error::Bitrate => "H.264 bitrate must be a positive number",
            Error::Encoder => "encoder must be auto, hardware, or software",
            Error::Bind => "invalid bind address",
        };
        message.to_owned()
    }
}

/// The bitrate that suits a frame rate: four megabits at fifteen frames, in
/// proportion, up to sixteen.
pub open spec fn bitrate_for(fps: u32) -> int {
    let rate = 4_000_000 * fps / 15;
    if rate > 16_000_000 {
        16_000_000
    } else {
        rate
    }
}

impl Default for LiveConfig {
    fn default() -> (r: Self)
        ensures
            r == LiveConfig::standard(),
    {
        LiveConfig {
            fps: 15,
            quality: 55,
            max_width: None,
            pixel_mode: PixelMode::Logical,
            webrtc: true,
            webrtc_port: 9848,
            h264_bitrate: 4_000_000,
            encoder: EncoderMode::Auto,
            cursor: false,
            bind: Address::V4(0),
            port: 9847,
        }
    }
}

impl LiveConfig {
    pub open spec fn standard() -> LiveConfig {
        LiveConfig {
            fps: 15,
            quality: 55,
            max_width: None,
            pixel_mode: PixelMode::Logical,
            webrtc: true,
            webrtc_port: 9848,
            h264_bitrate: 4_000_000,
            encoder: EncoderMode::Auto,
            cursor: false,
            bind: Address::V4(0),
            port: 9847,
        }
    }

    /// The configuration at another frame rate. A bitrate that was chosen for
    /// itself is kept.
    pub open spec fn with_fps(self, fps: u32) -> LiveConfig {
        LiveConfig {
            fps,
            h264_bitrate: if self.h264_bitrate == bitrate_for(self.fps) {
                bitrate_for(fps) as u32
            } else {
                self.h264_bitrate
            },
            ..self
        }
    }

    /// Why the configuration cannot be used.
    pub open spec fn refused(self) -> Option<Error> {
        if !(1 <= self.fps <= 120) {
            Some(Error::FrameRate)
        } else if !(1 <= self.quality <= 95) {
            Some(Error::Quality)
        } else {
            None
        }
    }

    pub fn default_h264_bitrate(fps: u32) -> (r: u32)
        ensures
            r == bitrate_for(fps),
    {
        let rate: u64 = 4_000_000 * fps as u64 / 15;
        if rate > 16_000_000 {
            16_000_000
        } else {
            rate as u32
        }
    }

    pub fn set_fps(&mut self, fps: u32)
        ensures
            *final(self) == old(self).with_fps(fps),
    {
        if self.h264_bitrate == LiveConfig::default_h264_bitrate(self.fps) {
            self.h264_bitrate = LiveConfig::default_h264_bitrate(fps);
        }
        self.fps = fps;
    }

    pub fn validate(&self) -> (r: Result<(), Error>)
        ensures
            r == match self.refused() {
                Some(error) => Err::<(), Error>(error),
                None => Ok::<(), Error>(()),
            },
    {
        if !(1 <= self.fps && self.fps <= 120) {
            return Err(Error::FrameRate);
        }
        if !(1 <= self.quality && self.quality <= 95) {
            return Err(Error::Quality);
        }
        Ok(())
    }
}

/// A default bitrate follows the frame rate, and comes back with it; a chosen
/// one stays.
pub proof fn bitrates_follow_the_frame_rate_unless_chosen(config: LiveConfig, fps: u32)
    ensures
        config.h264_bitrate == bitrate_for(config.fps) ==> config.with_fps(fps).h264_bitrate
            == bitrate_for(fps) && config.with_fps(fps).with_fps(config.fps) == config,
        config.h264_bitrate != bitrate_for(config.fps) ==> config.with_fps(fps).h264_bitrate
            == config.h264_bitrate,
{
}

/// An option of the command line.
#[derive(Debug, Clone, Copy, PartialEq, Eq, Structural)]
pub enum Opt {
    NativePixels,
    Webrtc,
    Jpeg,
    Cursor,
    Fps,
    Quality,
    Width,
    WebrtcPort,
    Bitrate,
    Encoder,
    Bind,
    Port,
}

/// The option of a name.
pub open spec fn option_of(arg: Seq<char>) -> Option<Opt> {
    if arg == "--native-pixels"@ {
        Some(Opt::NativePixels)
    } else if arg == "--webrtc"@ {
        Some(Opt::Webrtc)
    } else if arg == "--jpeg"@ {
        Some(Opt::Jpeg)
    } else if arg == "--cursor"@ {
        Some(Opt::Cursor)
    } else if arg == "--fps"@ {
        Some(Opt::Fps)
    } else if arg == "--quality"@ {
        Some(Opt::Quality)
    } else if arg == "--width"@ {
        Some(Opt::Width)
    } else if arg == "--webrtc-port"@ {
        Some(Opt::WebrtcPort)
    } else if arg == "--h264-bitrate"@ {
        Some(Opt::Bitrate)
    } else if arg == "--encoder"@ {
        Some(Opt::Encoder)
    } else if arg == "--bind"@ {
        Some(Opt::Bind)
    } else if arg == "--port"@ {
        Some(Opt::Port)
    } else {
        None
    }
}

fn find_option(arg: &str) -> (r: Option<Opt>)
    ensures
        r == option_of(arg@),
{
    if text::same(arg, "--native-pixels") {
        Some(Opt::NativePixels)
    } else if text::same(arg, "--webrtc") {
        Some(Opt::Webrtc)
    } else if text::same(arg, "--jpeg") {
        Some(Opt::Jpeg)
    } else if text::same(arg, "--cursor") {
        Some(Opt::Cursor)
    } else if text::same(arg, "--fps") {
        Some(Opt::Fps)
    } else if text::same(arg, "--quality") {
        Some(Opt::Quality)
    } else if text::same(arg, "--width") {
        Some(Opt::Width)
    } else if text::same(arg, "--webrtc-port") {
        Some(Opt::WebrtcPort)
    } else if text::same(arg, "--h264-bitrate") {
        Some(Opt::Bitrate)
    } else if text::same(arg, "--encoder") {
        Some(Opt::Encoder)
    } else if text::same(arg, "--bind") {
        Some(Opt::Bind)
    } else if text::same(arg, "--port") {
        Some(Opt::Port)
    } else {
        None
    }
}

/// The option stands by itself.
pub open spec fn is_flag(opt: Opt) -> bool {
    opt is NativePixels || opt is Webrtc || opt is Jpeg || opt is Cursor
}

/// What the options ask for so far.
#[derive(Debug, Clone, Copy, PartialEq, Eq, Structural)]
pub struct Asked {
    pub config: LiveConfig,
    pub bitrate: Option<u32>,
    pub fps_selected: bool,
}

/// A positive number up to `max`.
pub open spec fn positive(value: Seq<char>, max: int) -> Option<int> {
    match strings::number_value(value, 10, max) {
        Some(n) => if n >= 1 {
            Some(n)
        } else {
            None
        },
        None => None,
    }
}

fn read_positive(value: &str, max: u64) -> (r: Option<u64>)
    ensures
        match r {
            Some(n) => positive(value@, max as int) == Some(n as int) && n <= max,
            None => positive(value@, max as int) is None,
        },
{
    proof {
        strings::lemma_number_range(value@, 10, max as int);
    }
    match strings::parse_number(value, 10, max) {
        Some(n) => if n >= 1 {
            Some(n)
        } else {
            None
        },
        None => None,
    }
}

impl Asked {
    pub open spec fn nothing() -> Asked {
        Asked { config: LiveConfig::standard(), bitrate: None, fps_selected: false }
    }

    /// With a flag.
    pub open spec fn flagged(self, opt: Opt) -> Asked {
        let config = match opt {
            Opt::NativePixels => LiveConfig { pixel_mode: PixelMode::Native, ..self.config },
            Opt::Webrtc => LiveConfig { webrtc: true, ..self.config },
            Opt::Jpeg => LiveConfig { webrtc: false, ..self.config },
            Opt::Cursor => LiveConfig { cursor: true, ..self.config },
            _ => self.config,
        };
        Asked { config, ..self }
    }

    /// With an option and its value.
    pub open spec fn valued(
        self,
        opt: Opt,
        value: Seq<char>,
        address: Option<Address>,
    ) -> Result<Asked, Error> {
        match opt {
            Opt::Fps => match positive(value, 120) {
                Some(n) => Ok(
                    Asked {
                        config: LiveConfig { fps: n as u32, ..self.config },
                        fps_selected: true,
                        ..self
                    },
                ),
                None => Err(Error::FrameRate),
            },
            Opt::Quality => match positive(value, 95) {
                Some(n) => Ok(
                    Asked { config: LiveConfig { quality: n as u8, ..self.config }, ..self },
                ),
                None => Err(Error::Quality),
            },
            Opt::Width => match positive(value, u32::MAX as int) {
                Some(n) => Ok(
                    Asked {
                        config: LiveConfig { max_width: Some(n as u32), ..self.config },
                        ..self
                    },
                ),
                None => Err(Error::Width),
            },
            Opt::WebrtcPort => match strings::number_value(value, 10, u16::MAX as int) {
                Some(n) => Ok(
                    Asked { config: LiveConfig { webrtc_port: n as u16, ..self.config }, ..self },
                ),
                None => Err(Error::Port),
            },
            Opt::Bitrate => match positive(value, u32::MAX as int) {
                Some(n) => Ok(Asked { bitrate: Some(n as u32), ..self }),
                None => Err(Error::Bitrate),
            },
            Opt::Encoder => if value == "auto"@ {
                Ok(
                    Asked {
                        config: LiveConfig { encoder: EncoderMode::Auto, ..self.config },
                        ..self
                    },
                )
            } else if value == "hardware"@ {
                Ok(
                    Asked {
                        config: LiveConfig { encoder: EncoderMode::Hardware, ..self.config },
                        ..self
                    },
                )
            } else if value == "software"@ {
                Ok(
                    Asked {
                        config: LiveConfig { encoder: EncoderMode::Software, ..self.config },
                        ..self
                    },
                )
            } else {
                Err(Error::Encoder)
            },
            Opt::Bind => match address {
                Some(bind) => Ok(Asked { config: LiveConfig { bind, ..self.config }, ..self }),
                None => Err(Error::Bind),
            },
            Opt::Port => match strings::number_value(value, 10, u16::MAX as int) {
                Some(n) => Ok(Asked { config: LiveConfig { port: n as u16, ..self.config }, ..self },
                ),
                None => Err(Error::Port),
            },
            _ => Ok(self),
        }
    }

    /// The configuration that was asked for: a bitrate that was not named
    /// follows the frame rate.
    pub open spec fn settled(self) -> LiveConfig {
        LiveConfig {
            h264_bitrate: match self.bitrate {
                Some(bitrate) => bitrate,
                None => bitrate_for(self.config.fps) as u32,
            },
            ..self.config
        }
    }

    fn flag(&mut self, opt: Opt)
        ensures
            *final(self) == old(self).flagged(opt),
    {
        match opt {
            Opt::NativePixels => {
                self.config.pixel_mode = PixelMode::Native;
            },
            Opt::Webrtc => {
                self.config.webrtc = true;
            },
            Opt::Jpeg => {
                self.config.webrtc = false;
            },
            Opt::Cursor => {
                self.config.cursor = true;
            },
            _ => {},
        }
    }

    fn value(&self, opt: Opt, value: &str, address: Option<Address>) -> (r: Result<Asked, Error>)
        ensures
            r == self.valued(opt, value@, address),
    {
        let mut next = *self;
        match opt {
            Opt::Fps => match read_positive(value, 120) {
                Some(n) => {
                    next.config.fps = n as u32;
                    next.fps_selected = true;
                },
                None => {
                    return Err(Error::FrameRate);
                },
            },
            Opt::Quality => match read_positive(value, 95) {
                Some(n) => {
                    next.config.quality = n as u8;
                },
                None => {
                    return Err(Error::Quality);
                },
            },
            Opt::Width => match read_positive(value, 0xffff_ffff) {
                Some(n) => {
                    next.config.max_width = Some(n as u32);
                },
                None => {
                    return Err(Error::Width);
                },
            },
            Opt::WebrtcPort => match strings::parse_number(value, 10, 0xffff) {
                Some(n) => {
                    next.config.webrtc_port = n as u16;
                },
                None => {
                    return Err(Error::Port);
                },
            },
            Opt::Bitrate => match read_positive(value, 0xffff_ffff) {
                Some(n) => {
                    next.bitrate = Some(n as u32);
                },
                None => {
                    return Err(Error::Bitrate);
                },
            },
            Opt::Encoder => {
                if text::same(value, "auto") {
                    next.config.encoder = EncoderMode::Auto;
                } else if text::same(value, "hardware") {
                    next.config.encoder = EncoderMode::Hardware;
                } else if text::same(value, "software") {
                    next.config.encoder = EncoderMode::Software;
                } else {
                    return Err(Error::Encoder);
                }
            },
            Opt::Bind => match address {
                Some(bind) => {
                    next.config.bind = bind;
                },
                None => {
                    return Err(Error::Bind);
                },
            },
            Opt::Port => match strings::parse_number(value, 10, 0xffff) {
                Some(n) => {
                    next.config.port = n as u16;
                },
                None => {
                    return Err(Error::Port);
                },
            },
            _ => {},
        }
        Ok(next)
    }
}

/// What the arguments from `i` on ask for, and the positions of those that are
/// no options. Everything behind `--` is none.
pub open spec fn reading(
    args: Seq<String>,
    addresses: Seq<Option<Address>>,
    i: int,
    asked: Asked,
    rest: Seq<int>,
) -> Result<(Asked, Seq<int>), Error>
    decreases args.len() - i,
{
    if i >= args.len() {
        Ok((asked, rest))
    } else if args[i]@ == "--"@ {
        Ok((asked, rest + Seq::new((args.len() - i - 1) as nat, |k: int| i + 1 + k)))
    } else {
        match option_of(args[i]@) {
            None => reading(args, addresses, i + 1, asked, rest.push(i)),
            Some(opt) => if is_flag(opt) {
                reading(args, addresses, i + 1, asked.flagged(opt), rest)
            } else if i + 1 >= args.len() {
                Err(Error::MissingValue)
            } else {
                match asked.valued(opt, args[i + 1]@, addresses[i + 1]) {
                    Ok(next) => reading(args, addresses, i + 2, next, rest),
                    Err(error) => Err(error),
                }
            },
        }
    }
}

/// What the command line asks for.
#[derive(Debug)]
pub struct Parsed {
    pub config: LiveConfig,
    pub rest: Vec<String>,
    pub fps_selected: bool,
}

/// The strings are the arguments at these positions.
pub open spec fn picked(rest: Seq<String>, args: Seq<String>, at: Seq<int>) -> bool {
    rest.len() == at.len() && forall|i: int|
        0 <= i < rest.len() ==> (#[trigger] rest[i])@ == args[at[i]]@
}

impl LiveConfig {
    /// Takes the live options out of the arguments. `addresses` holds, for each
    /// argument, the address that it spells, if it does.
    pub fn parse_args(args: &[String], addresses: &[Option<Address>]) -> (r: Result<Parsed, Error>)
        requires
            args@.len() == addresses@.len(),
        ensures
            match reading(args@, addresses@, 0, Asked::nothing(), Seq::empty()) {
                Ok((asked, at)) => {
                    &&& r is Ok
                    &&& r->Ok_0.config == asked.settled()
                    &&& r->Ok_0.fps_selected == asked.fps_selected
                    &&& picked(r->Ok_0.rest@, args@, at)
                },
                Err(error) => r is Err && r->Err_0 == error,
            },
    {
        let mut asked = Asked {
            config: LiveConfig::default(),
            bitrate: None,
            fps_selected: false,
        };
        let mut rest: Vec<String> = Vec::new();
        let ghost mut at: Seq<int> = Seq::empty();
        let mut i: usize = 0;
        let mut literal = false;
        while i < args.len()
            invariant
                args@.len() == addresses@.len(),
                i <= args@.len(),
                picked(rest@, args@, at),
                reading(args@, addresses@, 0, Asked::nothing(), Seq::empty()) == if literal {
                    Ok::<(Asked, Seq<int>), Error>(
                        (asked, at + Seq::new((args@.len() - i) as nat, |k: int| i + k)),
                    )
                } else {
                    reading(args@, addresses@, i as int, asked, at)
                },
            decreases args@.len() - i,
        {
            if literal {
                rest.push(args[i].clone());
                proof {
                    let left = Seq::new((args@.len() - i) as nat, |k: int| i + k);
                    let fewer = Seq::new((args@.len() - i - 1) as nat, |k: int| i + 1 + k);
                    assert(at + left =~= at.push(i as int) + fewer);
                    at = at.push(i as int);
                }
                i = i + 1;
                continue ;
            }
            if text::same(args[i].as_str(), "--") {
                literal = true;
                i = i + 1;
                assert(at + Seq::new((args@.len() - (i - 1) - 1) as nat, |k: int| (i - 1) + 1 + k)
                    =~= at + Seq::new((args@.len() - i) as nat, |k: int| i + k));
                continue ;
            }
            match find_option(args[i].as_str()) {
                None => {
                    rest.push(args[i].clone());
                    proof {
                        at = at.push(i as int);
                    }
                    i = i + 1;
                },
                Some(opt) => {
                    let flag = match opt {
                        Opt::NativePixels | Opt::Webrtc | Opt::Jpeg | Opt::Cursor => true,
                        _ => false,
                    };
                    if flag {
                        asked.flag(opt);
                        i = i + 1;
                    } else {
                        if args.len() - i < 2 {
                            return Err(Error::MissingValue);
                        }
                        match asked.value(opt, args[i + 1].as_str(), addresses[i + 1]) {
                            Ok(next) => {
                                asked = next;
                            },
                            Err(error) => {
                                return Err(error);
                            },
                        }
                        i = i + 2;
                    }
                },
            }
        }
        proof {
            if literal {
                assert(at + Seq::new((args@.len() - i) as nat, |k: int| i + k) =~= at);
            }
        }
        let mut config = asked.config;
        config.h264_bitrate = match asked.bitrate {
            Some(bitrate) => bitrate,
            None => LiveConfig::default_h264_bitrate(asked.config.fps),
        };
        Ok(Parsed { config, rest, fps_selected: asked.fps_selected })
    }
}

/// A number that is given to an option is the one that is used, and nothing
/// else changes.
pub proof fn option_values_are_used(asked: Asked, n: nat, address: Option<Address>)
    requires
        1 <= n,
    ensures
        n <= 120 ==> (asked.valued(Opt::Fps, text::decimal(n), address) matches Ok(next)
            && next.config == (LiveConfig { fps: n as u32, ..asked.config })
            && next.fps_selected && next.bitrate == asked.bitrate),
        n <= 95 ==> (asked.valued(Opt::Quality, text::decimal(n), address) matches Ok(next)
            && next == (Asked {
            config: LiveConfig { quality: n as u8, ..asked.config },
            ..asked
        })),
        n <= u32::MAX ==> (asked.valued(Opt::Width, text::decimal(n), address) matches Ok(next)
            && next == (Asked {
            config: LiveConfig { max_width: Some(n as u32), ..asked.config },
            ..asked
        })),
        n <= u16::MAX ==> (asked.valued(Opt::Port, text::decimal(n), address) matches Ok(next)
            && next == (Asked { config: LiveConfig { port: n as u16, ..asked.config }, ..asked })),
        n <= u16::MAX ==> (asked.valued(Opt::WebrtcPort, text::decimal(n), address) matches Ok(next)
            && next == (Asked {
            config: LiveConfig { webrtc_port: n as u16, ..asked.config },
            ..asked
        })),
        n <= u32::MAX ==> (asked.valued(Opt::Bitrate, text::decimal(n), address) matches Ok(next)
            && next.settled() == (LiveConfig { h264_bitrate: n as u32, ..asked.config })),
        n > 120 ==> asked.valued(Opt::Fps, text::decimal(n), address) == Err::<Asked, Error>(
            Error::FrameRate,
        ),
        n > 95 ==> asked.valued(Opt::Quality, text::decimal(n), address) == Err::<Asked, Error>(
            Error::Quality,
        ),
        n > u16::MAX ==> asked.valued(Opt::Port, text::decimal(n), address) == Err::<Asked, Error>(
            Error::Port,
        ),
{
    strings::decimals_are_read_back(n);
    assert('0' <= text::decimal(n)[0] <= '9');
}

/// The bitrate grows with the frame rate, in proportion to four megabits at
/// fifteen frames, and stops at sixteen.
pub proof fn bitrates_grow_with_the_frame_rate(a: u32, b: u32)
    requires
        a <= b,
    ensures
        0 <= bitrate_for(a) <= bitrate_for(b) <= 16_000_000,
        b <= 60 ==> 15 * bitrate_for(b) <= 4_000_000 * b < 15 * bitrate_for(b) + 15,
        60 <= b ==> bitrate_for(b) == 16_000_000,
{
}

} // verus!
