//! The settings of a stream, of a cast and of an extra display: what their
//! menus show, and what choosing an entry changes.

use vstd::prelude::*;

use crate::frame::PixelMode;
use crate::live::EncoderMode;
use crate::live::LiveConfig;
use crate::strings;
use crate::text;
use crate::widgets;
use crate::widgets::Menu;

verus! {

/// Settings that go well together.
#[derive(Debug, Clone, Copy, PartialEq, Eq, Structural)]
pub enum StreamPreset {
    Balanced,
    Text,
    Motion,
}

impl StreamPreset {
    pub open spec fn name(self) -> Seq<char> {
        match self {
            StreamPreset::Balanced => "Balanced"@,
            StreamPreset::Text => "Crisp text"@,
            StreamPreset::Motion => "Smooth motion"@,
        }
    }

    pub open spec fn listed(index: int) -> StreamPreset {
        if index == 0 {
            StreamPreset::Balanced
        } else if index == 1 {
            StreamPreset::Text
        } else {
            StreamPreset::Motion
        }
    }

    /// The frame rate, JPEG quality, width limit and pixel grid.
    pub open spec fn settings(self) -> (u32, u8, Option<u32>, PixelMode) {
        match self {
            StreamPreset::Balanced => (15, 55, None, PixelMode::Logical),
            StreamPreset::Text => (15, 90, None, PixelMode::Native),
            StreamPreset::Motion => (60, 55, Some(1280), PixelMode::Logical),
        }
    }

    /// The configuration with the preset's settings, and all others kept.
    pub open spec fn applied(self, config: LiveConfig) -> LiveConfig {
        LiveConfig {
            quality: self.settings().1,
            max_width: self.settings().2,
            pixel_mode: self.settings().3,
            ..config.with_fps(self.settings().0)
        }
    }

    /// The configuration has the preset's settings.
    pub open spec fn fits(self, config: LiveConfig) -> bool {
        self.settings() == (config.fps, config.quality, config.max_width, config.pixel_mode)
    }

    /// The preset whose settings the configuration has.
    pub open spec fn of(config: LiveConfig) -> Option<StreamPreset> {
        if StreamPreset::Balanced.fits(config) {
            Some(StreamPreset::Balanced)
        } else if StreamPreset::Text.fits(config) {
            Some(StreamPreset::Text)
        } else if StreamPreset::Motion.fits(config) {
            Some(StreamPreset::Motion)
        } else {
            None
        }
    }

    pub fn label(self) -> (r: &'static str)
        ensures
            r@ == self.name(),
    {
        match self {
            StreamPreset::Balanced => "Balanced",
            StreamPreset::Text => "Crisp text",
            StreamPreset::Motion => "Smooth motion",
        }
    }

    pub fn at(index: usize) -> (r: Self)
        requires
            index < 3,
        ensures
            r == StreamPreset::listed(index as int),
    {
        if index == 0 {
            StreamPreset::Balanced
        } else if index == 1 {
            StreamPreset::Text
        } else {
            StreamPreset::Motion
        }
    }

    pub fn values(self) -> (r: (u32, u8, Option<u32>, PixelMode))
        ensures
            r == self.settings(),
    {
        match self {
            StreamPreset::Balanced => (15, 55, None, PixelMode::Logical),
            StreamPreset::Text => (15, 90, None, PixelMode::Native),
            StreamPreset::Motion => (60, 55, Some(1280), PixelMode::Logical),
        }
    }

    pub fn apply(self, config: &mut LiveConfig)
        ensures
            *final(config) == self.applied(*old(config)),
    {
        let (fps, quality, max_width, pixel_mode): (u32, u8, Option<u32>, PixelMode) =
            self.values();
        config.set_fps(fps);
        config.quality = quality;
        config.max_width = max_width;
        config.pixel_mode = pixel_mode;
    }

    pub fn matching(config: &LiveConfig) -> (r: Option<Self>)
        ensures
            r == StreamPreset::of(*config),
    {
        let mut index: usize = 0;
        while index < 3
            invariant
                index <= 3,
                forall|k: int|
                    0 <= k < index ==> !(#[trigger] StreamPreset::listed(k)).fits(*config),
            decreases 3 - index,
        {
            let preset = StreamPreset::at(index);
            let (fps, quality, max_width, pixel_mode): (u32, u8, Option<u32>, PixelMode) =
                preset.values();
            if fps == config.fps && quality == config.quality && max_width == config.max_width
                && pixel_mode == config.pixel_mode {
                assert(preset.fits(*config));
                assert(index >= 1 ==> !StreamPreset::listed(0).fits(*config));
                assert(index >= 2 ==> !StreamPreset::listed(1).fits(*config));
                return Some(preset);
            }
            index = index + 1;
        }
        assert(!StreamPreset::listed(0).fits(*config));
        assert(!StreamPreset::listed(1).fits(*config));
        assert(!StreamPreset::listed(2).fits(*config));
        None
    }
}

/// An applied preset is the one that is shown as selected. Where the share
/// listens, its cursor, its transport and its encoder stay as they were.
pub proof fn an_applied_preset_is_recognised(preset: StreamPreset, config: LiveConfig)
    ensures
        StreamPreset::of(preset.applied(config)) == Some(preset),
        preset.applied(config).cursor == config.cursor,
        preset.applied(config).bind == config.bind,
        preset.applied(config).port == config.port,
        preset.applied(config).webrtc == config.webrtc,
        preset.applied(config).webrtc_port == config.webrtc_port,
        preset.applied(config).encoder == config.encoder,
        preset.applied(config).refused() is None,
{
}

/// A chosen bitrate survives every preset; a default one follows the preset.
pub proof fn presets_keep_a_chosen_bitrate(preset: StreamPreset, config: LiveConfig)
    ensures
        config.h264_bitrate != crate::live::bitrate_for(config.fps) ==> preset.applied(
            config,
        ).h264_bitrate == config.h264_bitrate,
        config.h264_bitrate == crate::live::bitrate_for(config.fps) ==> preset.applied(
            config,
        ).h264_bitrate == crate::live::bitrate_for(preset.settings().0),
{
}

/// How a share is streamed, and whether its frame rate was chosen.
#[derive(Debug, Clone, Copy, PartialEq, Eq, Structural)]
pub struct Stream {
    pub config: LiveConfig,
    pub fps_selected: bool,
}

pub open spec fn fps_name(fps: u32) -> Seq<char> {
    text::decimal(fps as nat) + " fps"@
}

pub fn fps_label(fps: u32) -> (r: String)
    ensures
        r@ == fps_name(fps),
{
    let mut label = String::new();
    text::push_decimal(&mut label, fps as u64);
    label.append(" fps");
    assert(label@ =~= fps_name(fps));
    label
}

pub open spec fn width_name(width: Option<u32>) -> Seq<char> {
    match width {
        Some(width) => text::decimal(width as nat) + " px"@,
        None => "No limit"@,
    }
}

pub fn width_label(width: Option<u32>) -> (r: String)
    ensures
        r@ == width_name(width),
{
    match width {
        Some(width) => {
            let mut label = String::new();
            text::push_decimal(&mut label, width as u64);
            label.append(" px");
            assert(label@ =~= text::decimal(width as nat) + " px"@);
            label
        },
        None => "No limit".to_owned(),
    }
}

pub open spec fn pixel_name(mode: PixelMode) -> Seq<char> {
    match mode {
        PixelMode::Logical => "Logical pixels"@,
        PixelMode::Native => "Native pixels"@,
    }
}

pub fn pixel_label(mode: PixelMode) -> (r: &'static str)
    ensures
        r@ == pixel_name(mode),
{
    match mode {
        PixelMode::Logical => "Logical pixels",
        PixelMode::Native => "Native pixels",
    }
}

/// A bitrate in megabits, with as many decimals as it needs.
pub open spec fn bitrate_name(bitrate: u32) -> Seq<char> {
    let n = bitrate as int;
    let whole = text::decimal((n / 1_000_000) as nat);
    (if n % 1_000_000 == 0 {
        whole
    } else {
        strings::without_end(
            whole + seq![
                '.',
                text::digit_char(n / 100_000 % 10),
                text::digit_char(n / 10_000 % 10),
                text::digit_char(n / 1_000 % 10),
                text::digit_char(n / 100 % 10),
                text::digit_char(n / 10 % 10),
                text::digit_char(n % 10),
            ],
            '0',
        )
    }) + " Mbit/s"@
}

fn bitrate_label(bitrate: u32) -> (r: String)
    ensures
        r@ == bitrate_name(bitrate),
{
    let n: u64 = bitrate as u64;
    let mut label = String::new();
    text::push_decimal(&mut label, n / 1_000_000);
    assert(label@ =~= text::decimal((n as int / 1_000_000) as nat));
    if n % 1_000_000 != 0 {
        label.push('.');
        label.push(text::digit(n / 100_000 % 10));
        label.push(text::digit(n / 10_000 % 10));
        label.push(text::digit(n / 1_000 % 10));
        label.push(text::digit(n / 100 % 10));
        label.push(text::digit(n / 10 % 10));
        label.push(text::digit(n % 10));
        assert(label@ =~= text::decimal((n as int / 1_000_000) as nat) + seq![
            '.',
            text::digit_char(n as int / 100_000 % 10),
            text::digit_char(n as int / 10_000 % 10),
            text::digit_char(n as int / 1_000 % 10),
            text::digit_char(n as int / 100 % 10),
            text::digit_char(n as int / 10 % 10),
            text::digit_char(n as int % 10),
        ]);
        label = strings::drop_end(label, '0');
    }
    label.append(" Mbit/s");
    label
}

/// The frame rates on offer.
pub open spec fn fps_choice(index: int) -> u32 {
    if index == 0 {
        15
    } else if index == 1 {
        30
    } else {
        60
    }
}

/// The JPEG qualities on offer.
pub open spec fn quality_choice(index: int) -> u8 {
    if index == 0 {
        55
    } else if index == 1 {
        72
    } else {
        90
    }
}

/// The width limits on offer.
pub open spec fn width_choice(index: int) -> Option<u32> {
    if index == 0 {
        None
    } else if index == 1 {
        Some(1280)
    } else {
        Some(1920)
    }
}

/// The bitrates on offer.
pub open spec fn bitrate_choice(index: int) -> u32 {
    if index == 0 {
        2_000_000
    } else if index == 1 {
        4_000_000
    } else if index == 2 {
        8_000_000
    } else {
        16_000_000
    }
}

impl Stream {
    /// The stream with another configuration.
    pub open spec fn with(self, config: LiveConfig) -> Stream {
        Stream { config, ..self }
    }

    /// The stream at a chosen frame rate.
    pub open spec fn at_fps(self, fps: u32) -> Stream {
        Stream { config: self.config.with_fps(fps), fps_selected: true }
    }

    pub fn choose_preset(&mut self, index: usize)
        requires
            index < 3,
        ensures
            final(self).config == StreamPreset::listed(index as int).applied(old(self).config),
            final(self).fps_selected,
    {
        StreamPreset::at(index).apply(&mut self.config);
        self.fps_selected = true;
    }

    pub fn choose_transport(&mut self, index: usize)
        ensures
            *final(self) == old(self).with(LiveConfig { webrtc: index == 0, ..old(self).config }),
    {
        self.config.webrtc = index == 0;
    }

    /// The cursor is not changed while the picker works.
    pub fn choose_cursor(&mut self, shown: bool, busy: bool)
        ensures
            *final(self) == if busy {
                *old(self)
            } else {
                old(self).with(LiveConfig { cursor: shown, ..old(self).config })
            },
    {
        if !busy {
            self.config.cursor = shown;
        }
    }

    pub fn choose_fps(&mut self, index: usize)
        requires
            index < 3,
        ensures
            *final(self) == old(self).at_fps(fps_choice(index as int)),
    {
        let fps: u32 = if index == 0 {
            15
        } else if index == 1 {
            30
        } else {
            60
        };
        self.config.set_fps(fps);
        self.fps_selected = true;
    }

    pub fn choose_quality(&mut self, index: usize)
        requires
            index < 3,
        ensures
            *final(self) == old(self).with(
                LiveConfig { quality: quality_choice(index as int), ..old(self).config },
            ),
    {
        self.config.quality = if index == 0 {
            55
        } else if index == 1 {
            72
        } else {
            90
        };
    }

    pub fn choose_width(&mut self, index: usize)
        requires
            index < 3,
        ensures
            *final(self) == old(self).with(
                LiveConfig { max_width: width_choice(index as int), ..old(self).config },
            ),
    {
        self.config.max_width = if index == 0 {
            None
        } else if index == 1 {
            Some(1280)
        } else {
            Some(1920)
        };
    }

    pub fn choose_pixels(&mut self, index: usize)
        requires
            index < 2,
        ensures
            *final(self) == old(self).with(
                LiveConfig {
                    pixel_mode: if index == 0 {
                        PixelMode::Logical
                    } else {
                        PixelMode::Native
                    },
                    ..old(self).config
                },
            ),
    {
        self.config.pixel_mode = if index == 0 {
            PixelMode::Logical
        } else {
            PixelMode::Native
        };
    }

    pub fn choose_bitrate(&mut self, index: usize)
        requires
            index < 4,
        ensures
            *final(self) == old(self).with(
                LiveConfig { h264_bitrate: bitrate_choice(index as int), ..old(self).config },
            ),
    {
        self.config.h264_bitrate = if index == 0 {
            2_000_000
        } else if index == 1 {
            4_000_000
        } else if index == 2 {
            8_000_000
        } else {
            16_000_000
        };
    }

    pub fn choose_encoder(&mut self, index: usize)
        requires
            index < 3,
        ensures
            *final(self) == old(self).with(
                LiveConfig { encoder: EncoderMode::listed(index as int), ..old(self).config },
            ),
    {
        self.config.encoder = EncoderMode::at(index);
    }
}

/// The settings of a stream as they are shown.
#[derive(Debug)]
pub struct StreamView {
    pub preset: Menu,
    pub transport: Menu,
    pub cursor: bool,
    pub advanced: Option<AdvancedView>,
}

/// The settings that are shown on request.
#[derive(Debug)]
pub struct AdvancedView {
    pub fps: Menu,
    pub jpeg: Menu,
    pub width: Menu,
    pub pixels: Menu,
    /// The target bitrate and the encoder, where H.264 is streamed.
    pub h264: Option<H264View>,
    pub notes: Vec<String>,
}

#[derive(Debug)]
pub struct H264View {
    pub bitrate: Menu,
    pub encoder: Menu,
}

pub open spec fn transport_name(webrtc: bool) -> Seq<char> {
    if webrtc {
        "H.264 / WebRTC"@
    } else {
        "JPEG"@
    }
}

/// The preset's name, or that there is none.
pub open spec fn preset_name(preset: Option<StreamPreset>) -> Seq<char> {
    match preset {
        Some(preset) => preset.name(),
        None => "Custom"@,
    }
}

impl StreamView {
    pub open spec fn of(self, config: LiveConfig, busy: bool, advanced: bool) -> bool {
        let preset = StreamPreset::of(config);
        &&& self.preset.shows(
            preset_name(preset),
            busy,
            seq![
                ("Balanced"@, preset == Some(StreamPreset::Balanced), busy),
                ("Crisp text"@, preset == Some(StreamPreset::Text), busy),
                ("Smooth motion"@, preset == Some(StreamPreset::Motion), busy),
            ],
        )
        &&& self.transport.shows(
            transport_name(config.webrtc),
            busy,
            seq![("H.264 / WebRTC"@, config.webrtc, busy), ("JPEG"@, !config.webrtc, busy)],
        )
        &&& self.cursor == config.cursor
        &&& self.advanced is Some == advanced
        &&& advanced ==> self.advanced->0.of(config, busy)
    }
}

/// What is said below the advanced settings.
pub open spec fn advanced_notes(config: LiveConfig) -> Seq<Seq<char>> {
    let detail =
        "Native pixels preserve fine text on scaled displays and use more bandwidth. Maximum width still applies."@;
    let reach = if config.bind.local() {
        "Only available on this computer unless you forward the connection."@
    } else {
        "Anyone who can reach this computer and has the link can view. HTTP is unencrypted."@
    };
    if config.webrtc {
        seq![
            "Auto uses a working hardware encoder when available and falls back to software. Hardware requires GPU encoding; if unavailable, viewers can use JPEG. Preview and snapshots use JPEG."@,
            detail,
            reach,
        ]
    } else {
        seq![detail, reach]
    }
}

impl AdvancedView {
    pub open spec fn of(self, config: LiveConfig, busy: bool) -> bool {
        &&& self.fps.shows(
            fps_name(config.fps),
            busy,
            Seq::new(
                3,
                |i: int| (fps_name(fps_choice(i)), fps_choice(i) == config.fps, busy),
            ),
        )
        &&& self.jpeg.shows(
            text::decimal(config.quality as nat),
            busy,
            Seq::new(
                3,
                |i: int|
                    (
                        text::decimal(quality_choice(i) as nat),
                        quality_choice(i) == config.quality,
                        busy,
                    ),
            ),
        )
        &&& self.width.shows(
            width_name(config.max_width),
            busy,
            Seq::new(
                3,
                |i: int| (width_name(width_choice(i)), width_choice(i) == config.max_width, busy),
            ),
        )
        &&& self.pixels.shows(
            pixel_name(config.pixel_mode),
            busy,
            seq![
                ("Logical pixels"@, config.pixel_mode == PixelMode::Logical, busy),
                ("Native pixels"@, config.pixel_mode == PixelMode::Native, busy),
            ],
        )
        &&& self.h264 is Some == config.webrtc
        &&& config.webrtc ==> self.h264->0.bitrate.shows(
            bitrate_name(config.h264_bitrate),
            busy,
            Seq::new(
                4,
                |i: int|
                    (
                        bitrate_name(bitrate_choice(i)),
                        bitrate_choice(i) == config.h264_bitrate,
                        busy,
                    ),
            ),
        )
        &&& config.webrtc ==> self.h264->0.encoder.shows(
            config.encoder.name(),
            busy,
            Seq::new(
                3,
                |i: int|
                    (
                        EncoderMode::listed(i).name(),
                        EncoderMode::listed(i) == config.encoder,
                        busy,
                    ),
            ),
        )
        &&& crate::dispatch::are_texts(self.notes@, advanced_notes(config))
    }
}

fn preset_menu(config: &LiveConfig, busy: bool) -> (r: Menu)
    ensures
        ({
            let preset = StreamPreset::of(*config);
            r.shows(
                preset_name(preset),
                busy,
                seq![
                    ("Balanced"@, preset == Some(StreamPreset::Balanced), busy),
                    ("Crisp text"@, preset == Some(StreamPreset::Text), busy),
                    ("Smooth motion"@, preset == Some(StreamPreset::Motion), busy),
                ],
            )
        }),
{
    let preset = StreamPreset::matching(config);
    let label = match preset {
        Some(preset) => preset.label(),
        None => "Custom",
    };
    let mut menu = Menu::new(label.to_owned(), busy);
    menu.offer("Balanced".to_owned(), preset == Some(StreamPreset::Balanced), busy);
    menu.offer("Crisp text".to_owned(), preset == Some(StreamPreset::Text), busy);
    menu.offer("Smooth motion".to_owned(), preset == Some(StreamPreset::Motion), busy);
    menu
}

/// The settings of a stream.
pub fn render_stream_settings(config: &LiveConfig, busy: bool, show_advanced: bool) -> (r:
    StreamView)
    ensures
        r.of(*config, busy, show_advanced),
{
    let preset = preset_menu(config, busy);
    let label = if config.webrtc {
        "H.264 / WebRTC"
    } else {
        "JPEG"
    };
    let mut transport = Menu::new(label.to_owned(), busy);
    transport.offer("H.264 / WebRTC".to_owned(), config.webrtc, busy);
    transport.offer("JPEG".to_owned(), !config.webrtc, busy);
    let advanced = if show_advanced {
        Some(render_advanced(config, busy))
    } else {
        None
    };
    StreamView { preset, transport, cursor: config.cursor, advanced }
}

fn fps_menu(config: &LiveConfig, busy: bool) -> (r: Menu)
    ensures
        r.shows(
            fps_name(config.fps),
            busy,
            Seq::new(
                3,
                |i: int| (fps_name(fps_choice(i)), fps_choice(i) == config.fps, busy),
            ),
        ),
{
    let mut menu = Menu::new(fps_label(config.fps), busy);
    menu.offer(fps_label(15), config.fps == 15, busy);
    menu.offer(fps_label(30), config.fps == 30, busy);
    menu.offer(fps_label(60), config.fps == 60, busy);
    menu
}

fn number(n: u8) -> (r: String)
    ensures
        r@ == text::decimal(n as nat),
{
    let mut label = String::new();
    text::push_decimal(&mut label, n as u64);
    assert(label@ =~= text::decimal(n as nat));
    label
}

fn jpeg_menu(config: &LiveConfig, busy: bool) -> (r: Menu)
    ensures
        r.shows(
            text::decimal(config.quality as nat),
            busy,
            Seq::new(
                3,
                |i: int|
                    (
                        text::decimal(quality_choice(i) as nat),
                        quality_choice(i) == config.quality,
                        busy,
                    ),
            ),
        ),
{
    let mut menu = Menu::new(number(config.quality), busy);
    menu.offer(number(55), config.quality == 55, busy);
    menu.offer(number(72), config.quality == 72, busy);
    menu.offer(number(90), config.quality == 90, busy);
    menu
}

fn width_menu(config: &LiveConfig, busy: bool) -> (r: Menu)
    ensures
        r.shows(
            width_name(config.max_width),
            busy,
            Seq::new(
                3,
                |i: int| (width_name(width_choice(i)), width_choice(i) == config.max_width, busy),
            ),
        ),
{
    let mut menu = Menu::new(width_label(config.max_width), busy);
    menu.offer(width_label(None), config.max_width.is_none(), busy);
    menu.offer(width_label(Some(1280)), config.max_width == Some(1280u32), busy);
    menu.offer(width_label(Some(1920)), config.max_width == Some(1920u32), busy);
    menu
}

fn pixel_menu(config: &LiveConfig, busy: bool) -> (r: Menu)
    ensures
        r.shows(
            pixel_name(config.pixel_mode),
            busy,
            seq![
                ("Logical pixels"@, config.pixel_mode == PixelMode::Logical, busy),
                ("Native pixels"@, config.pixel_mode == PixelMode::Native, busy),
            ],
        ),
{
    let mut menu = Menu::new(pixel_label(config.pixel_mode).to_owned(), busy);
    menu.offer("Logical pixels".to_owned(), config.pixel_mode == PixelMode::Logical, busy);
    menu.offer("Native pixels".to_owned(), config.pixel_mode == PixelMode::Native, busy);
    menu
}

fn bitrate_menu(config: &LiveConfig, busy: bool) -> (r: Menu)
    ensures
        r.shows(
            bitrate_name(config.h264_bitrate),
            busy,
            Seq::new(
                4,
                |i: int|
                    (
                        bitrate_name(bitrate_choice(i)),
                        bitrate_choice(i) == config.h264_bitrate,
                        busy,
                    ),
            ),
        ),
{
    let mut menu = Menu::new(bitrate_label(config.h264_bitrate), busy);
    menu.offer(bitrate_label(2_000_000), config.h264_bitrate == 2_000_000, busy);
    menu.offer(bitrate_label(4_000_000), config.h264_bitrate == 4_000_000, busy);
    menu.offer(bitrate_label(8_000_000), config.h264_bitrate == 8_000_000, busy);
    menu.offer(bitrate_label(16_000_000), config.h264_bitrate == 16_000_000, busy);
    menu
}

pub fn encoder_menu(config: &LiveConfig, busy: bool) -> (r: Menu)
    ensures
        r.shows(
            config.encoder.name(),
            busy,
            Seq::new(
                3,
                |i: int|
                    (
                        EncoderMode::listed(i).name(),
                        EncoderMode::listed(i) == config.encoder,
                        busy,
                    ),
            ),
        ),
{
    let mut menu = Menu::new(config.encoder.label().to_owned(), busy);
    menu.offer("Auto".to_owned(), config.encoder == EncoderMode::Auto, busy);
    menu.offer("Hardware".to_owned(), config.encoder == EncoderMode::Hardware, busy);
    menu.offer("Software".to_owned(), config.encoder == EncoderMode::Software, busy);
    menu
}

/// The settings of a stream that are shown on request.
pub fn render_advanced(config: &LiveConfig, busy: bool) -> (r: AdvancedView)
    ensures
        r.of(*config, busy),
{
    let mut notes: Vec<String> = Vec::new();
    if config.webrtc {
        notes.push(
            "Auto uses a working hardware encoder when available and falls back to software. Hardware requires GPU encoding; if unavailable, viewers can use JPEG. Preview and snapshots use JPEG.".to_owned(),
        );
    }
    notes.push(
        "Native pixels preserve fine text on scaled displays and use more bandwidth. Maximum width still applies.".to_owned(),
    );
    let reach = if config.bind.is_loopback() {
        "Only available on this computer unless you forward the connection."
    } else {
        "Anyone who can reach this computer and has the link can view. HTTP is unencrypted."
    };
    notes.push(reach.to_owned());
    let h264 = if config.webrtc {
        Some(
            H264View { bitrate: bitrate_menu(config, busy), encoder: encoder_menu(config, busy) },
        )
    } else {
        None
    };
    AdvancedView {
        fps: fps_menu(config, busy),
        jpeg: jpeg_menu(config, busy),
        width: width_menu(config, busy),
        pixels: pixel_menu(config, busy),
        h264,
        notes,
    }
}

/// In the menus of a stream the entry that is checked is the one that the button
/// names, and choosing an entry checks it.
pub proof fn checked_settings_are_the_ones_in_force(
    view: AdvancedView,
    config: LiveConfig,
    busy: bool,
    i: int,
)
    requires
        view.of(config, busy),
        0 <= i < 3,
    ensures
        view.fps.items@[i].checked ==> view.fps.items@[i].label@ == view.fps.label@,
        view.jpeg.items@[i].checked ==> view.jpeg.items@[i].label@ == view.jpeg.label@,
        view.width.items@[i].checked ==> view.width.items@[i].label@ == view.width.label@,
        i < 2 && view.pixels.items@[i].checked ==> view.pixels.items@[i].label@
            == view.pixels.label@,
        config.webrtc && view.h264->0.bitrate.items@[i].checked
            ==> view.h264->0.bitrate.items@[i].label@ == view.h264->0.bitrate.label@,
        config.webrtc && view.h264->0.encoder.items@[i].checked
            ==> view.h264->0.encoder.items@[i].label@ == view.h264->0.encoder.label@,
        config.fps == fps_choice(i) ==> view.fps.items@[i].checked,
        config.quality == quality_choice(i) ==> view.jpeg.items@[i].checked,
        config.max_width == width_choice(i) ==> view.width.items@[i].checked,
        config.webrtc && config.encoder == EncoderMode::listed(i)
            ==> view.h264->0.encoder.items@[i].checked,
{
    assert(widgets::entry(view.fps.items@[i]).1 == (fps_choice(i) == config.fps));
    assert(widgets::entry(view.jpeg.items@[i]).1 == (quality_choice(i) == config.quality));
    assert(widgets::entry(view.width.items@[i]).1 == (width_choice(i) == config.max_width));
    if i < 2 {
        assert(widgets::entry(view.pixels.items@[i]).1 == (config.pixel_mode == if i == 0 {
            PixelMode::Logical
        } else {
            PixelMode::Native
        }));
    }
    if config.webrtc {
        let h264 = view.h264->0;
        assert(widgets::entry(h264.bitrate.items@[i]).1 == (bitrate_choice(i)
            == config.h264_bitrate));
        assert(widgets::entry(h264.encoder.items@[i]).1 == (EncoderMode::listed(i)
            == config.encoder));
    }
}

} // verus!
