//! Where a share goes: to a browser by its link, or to a cast receiver.

use vstd::prelude::*;

use crate::cast::Receiver;
use crate::desktop::DesktopConfig;
use crate::live::EncoderMode;
use crate::live::LiveConfig;
use crate::settings;
use crate::settings::Stream;
use crate::text;
use crate::widgets;
use crate::widgets::Menu;

verus! {

/// The settings that a browser link had when casting was chosen.
#[derive(Debug, Clone, Copy, PartialEq, Eq, Structural)]
pub struct Browser {
    pub stream: Stream,
    pub desktop: DesktopConfig,
}

/// The choice of a destination.
#[derive(Debug)]
pub struct Cast {
    pub mode: bool,
    pub receivers: Vec<Receiver>,
    pub receiver_id: Option<String>,
    pub scanning: bool,
    pub error: Option<String>,
    pub browser: Option<Browser>,
}

/// The receiver of a name stands in the list.
pub open spec fn listed(receivers: Seq<Receiver>, id: Seq<char>) -> bool {
    exists|i: int| 0 <= i < receivers.len() && (#[trigger] receivers[i]).id@ == id
}

/// The place of the first receiver of a name.
pub open spec fn first_at(receivers: Seq<Receiver>, id: Seq<char>, i: int) -> bool {
    &&& 0 <= i < receivers.len()
    &&& receivers[i].id@ == id
    &&& forall|j: int| 0 <= j < i ==> (#[trigger] receivers[j]).id@ != id
}

fn find(receivers: &Vec<Receiver>, id: &str) -> (r: Option<usize>)
    ensures
        match r {
            Some(i) => first_at(receivers@, id@, i as int),
            None => !listed(receivers@, id@),
        },
{
    let mut i: usize = 0;
    while i < receivers.len()
        invariant
            i <= receivers@.len(),
            forall|j: int| 0 <= j < i ==> (#[trigger] receivers@[j]).id@ != id@,
        decreases receivers@.len() - i,
    {
        if text::same(receivers[i].id.as_str(), id) {
            return Some(i);
        }
        i = i + 1;
    }
    None
}

/// The settings of a cast: thirty frames, and no wider than the receiver's
/// first profile.
pub open spec fn cast_stream(stream: Stream) -> Stream {
    stream.with(LiveConfig { max_width: Some(1280), ..stream.config.with_fps(30) })
}

/// The settings after a change of destination, and those that are kept for the
/// browser link.
pub open spec fn redirected(kept: Option<Browser>, now: Browser, cast: bool) -> (
    Option<Browser>,
    Browser,
) {
    if cast {
        (
            Some(now),
            Browser {
                stream: cast_stream(now.stream),
                desktop: DesktopConfig { width: 1280, height: 720, ..now.desktop },
            },
        )
    } else {
        (
            None,
            match kept {
                Some(browser) => browser,
                None => now,
            },
        )
    }
}

impl Cast {
    /// The share goes to browsers, and no receivers were looked for.
    pub open spec fn unused(self) -> bool {
        &&& !self.mode
        &&& self.receivers@.len() == 0
        &&& self.receiver_id is None
        &&& !self.scanning
        &&& self.error is None
        &&& self.browser is None
    }

    pub fn new() -> (r: Self)
        ensures
            r.unused(),
    {
        Cast {
            mode: false,
            receivers: Vec::new(),
            receiver_id: None,
            scanning: false,
            error: None,
            browser: None,
        }
    }

    /// Starts to look for receivers, unless that is going on. The result says
    /// whether to look.
    pub fn refresh(&mut self, busy: bool) -> (r: bool)
        ensures
            r == (!old(self).scanning && !busy),
            final(self).mode == old(self).mode,
            final(self).receivers == old(self).receivers,
            final(self).receiver_id == old(self).receiver_id,
            final(self).browser == old(self).browser,
            final(self).scanning == (old(self).scanning || r),
            final(self).error == if r {
                None
            } else {
                old(self).error
            },
    {
        if self.scanning || busy {
            return false;
        }
        self.scanning = true;
        self.error = None;
        true
    }

    /// Takes what was found. A receiver that is gone is no longer chosen.
    pub fn found(&mut self, result: Result<Vec<Receiver>, String>)
        ensures
            !final(self).scanning,
            final(self).mode == old(self).mode,
            final(self).browser == old(self).browser,
            match result {
                Ok(receivers) => {
                    &&& final(self).receivers == receivers
                    &&& text::text_of(final(self).error) == if receivers@.len() == 0 {
                        Some(
                            "No video receivers found. Check the same LAN, multicast UDP 5353, and Wi-Fi client isolation, then refresh."@,
                        )
                    } else {
                        text::text_of(old(self).error)
                    }
                    &&& final(self).receiver_id == if old(self).receiver_id is Some && listed(
                        receivers@,
                        old(self).receiver_id->0@,
                    ) {
                        old(self).receiver_id
                    } else {
                        None
                    }
                },
                Err(error) => {
                    &&& final(self).receivers == old(self).receivers
                    &&& final(self).receiver_id == old(self).receiver_id
                    &&& text::text_of(final(self).error) == Some(
                        "Could not find Cast receivers: "@ + error@,
                    )
                },
            },
    {
        self.scanning = false;
        match result {
            Ok(receivers) => {
                if receivers.len() == 0 {
                    self.error = Some(
                        "No video receivers found. Check the same LAN, multicast UDP 5353, and Wi-Fi client isolation, then refresh.".to_owned(),
                    );
                }
                self.receivers = receivers;
                let gone = match &self.receiver_id {
                    Some(id) => {
                        let place = find(&self.receivers, id.as_str());
                        place.is_none()
                    },
                    None => false,
                };
                if gone {
                    self.receiver_id = None;
                }
            },
            Err(error) => {
                let mut message = "Could not find Cast receivers: ".to_owned();
                message.append(error.as_str());
                self.error = Some(message);
            },
        }
    }

    /// Chooses where the share goes. Casting has settings of its own; those of
    /// the browser link come back with it. The result says whether to look for
    /// receivers.
    pub fn choose_destination(
        &mut self,
        index: usize,
        busy: bool,
        stream: &mut Stream,
        desktop: &mut DesktopConfig,
    ) -> (r: bool)
        ensures
            final(self).receivers == old(self).receivers,
            final(self).receiver_id == old(self).receiver_id,
            if busy || (index == 1) == old(self).mode {
                &&& !r
                &&& *final(self) == *old(self)
                &&& *final(stream) == *old(stream)
                &&& *final(desktop) == *old(desktop)
            } else {
                &&& final(self).mode == (index == 1)
                &&& (
                    final(self).browser,
                    Browser { stream: *final(stream), desktop: *final(desktop) },
                ) == redirected(
                    old(self).browser,
                    Browser { stream: *old(stream), desktop: *old(desktop) },
                    index == 1,
                )
                &&& r == (index == 1 && !old(self).scanning)
                &&& final(self).scanning == (index == 1 || old(self).scanning)
                &&& final(self).error == if r {
                    None
                } else {
                    old(self).error
                }
            },
    {
        let cast = index == 1;
        if cast == self.mode || busy {
            return false;
        }
        self.mode = cast;
        if cast {
            self.browser = Some(Browser { stream: *stream, desktop: *desktop });
            stream.config.set_fps(30);
            stream.config.max_width = Some(1280);
            desktop.width = 1280;
            desktop.height = 720;
            self.refresh(busy)
        } else {
            if let Some(browser) = self.browser {
                *stream = browser.stream;
                *desktop = browser.desktop;
            }
            self.browser = None;
            false
        }
    }

    /// Chooses a receiver by its place in the list.
    pub fn choose_receiver(&mut self, index: usize, busy: bool)
        ensures
            final(self).mode == old(self).mode,
            final(self).receivers == old(self).receivers,
            final(self).scanning == old(self).scanning,
            final(self).error == old(self).error,
            final(self).browser == old(self).browser,
            if !busy && index < old(self).receivers@.len() {
                text::text_of(final(self).receiver_id) == Some(
                    old(self).receivers@[index as int].id@,
                )
            } else {
                final(self).receiver_id == old(self).receiver_id
            },
    {
        if !busy && index < self.receivers.len() {
            self.receiver_id = Some(self.receivers[index].id.clone());
        }
    }
}

/// Leaving a cast gives the browser link's settings back as they were, however
/// the cast was set up meanwhile.
pub proof fn leaving_a_cast_restores_the_browser_settings(
    kept: Option<Browser>,
    before: Browser,
    meanwhile: Browser,
)
    ensures
        redirected(redirected(kept, before, true).0, meanwhile, false) == (None::<Browser>, before),
{
}

impl Stream {
    /// The wider profile has more lines too.
    pub fn choose_profile(&mut self, index: usize, desktop: &mut DesktopConfig)
        ensures
            *final(self) == old(self).with(
                LiveConfig {
                    max_width: Some(
                        if index == 1 {
                            1920u32
                        } else {
                            1280u32
                        },
                    ),
                    ..old(self).config
                },
            ),
            *final(desktop) == if index == 1 {
                DesktopConfig { width: 1920, height: 1080, ..*old(desktop) }
            } else {
                DesktopConfig { width: 1280, height: 720, ..*old(desktop) }
            },
    {
        let (w, h): (u32, u32) = if index == 1 {
            (1920, 1080)
        } else {
            (1280, 720)
        };
        self.config.max_width = Some(w);
        desktop.width = w;
        desktop.height = h;
    }

    pub fn choose_cast_fps(&mut self, index: usize)
        ensures
            *final(self) == old(self).at_fps(
                if index == 1 {
                    30u32
                } else {
                    15u32
                },
            ),
    {
        self.config.set_fps(
            if index == 1 {
                30
            } else {
                15
            },
        );
        self.fps_selected = true;
    }
}

/// The last six characters of a receiver's identity.
pub open spec fn suffix(id: Seq<char>) -> Seq<char> {
    if id.len() <= 6 {
        id
    } else {
        id.skip(id.len() - 6)
    }
}

/// A receiver as it is listed.
pub open spec fn receiver_name(r: Receiver) -> Seq<char> {
    r.name@ + " · "@ + r.model@ + " · "@ + suffix(r.id@) + (if r.busy {
        " · in use"@
    } else {
        ""@
    })
}

fn receiver_label(r: &Receiver) -> (label: String)
    ensures
        label@ == receiver_name(*r),
{
    let chars = text::chars(r.id.as_str());
    let start: usize = if chars.len() <= 6 {
        0
    } else {
        chars.len() - 6
    };
    let tail = crate::strings::part(&chars, start, chars.len());
    assert(tail@ =~= suffix(r.id@));
    let mut label = r.name.clone();
    label.append(" · ");
    label.append(r.model.as_str());
    label.append(" · ");
    label.append(tail.as_str());
    if r.busy {
        label.append(" · in use");
    } else {
        label.append("");
    }
    label
}

/// The destination as it is shown.
#[derive(Debug)]
pub struct DestinationView {
    pub destination: Menu,
    pub cast: Option<CastView>,
}

/// The choice of a receiver as it is shown.
#[derive(Debug)]
pub struct CastView {
    pub receiver: Menu,
    pub refresh: String,
    pub refresh_disabled: bool,
    pub note: String,
}

/// The text is the chosen receiver's name, or says that none is chosen.
pub open spec fn is_receiver_label(cast: Cast, label: Seq<char>) -> bool {
    if cast.receiver_id is Some && listed(cast.receivers@, cast.receiver_id->0@) {
        exists|i: int| #[trigger]
            first_at(cast.receivers@, cast.receiver_id->0@, i) && label
                == cast.receivers@[i].name@
    } else if cast.scanning {
        label == "Looking for receivers…"@
    } else {
        label == "Choose a receiver"@
    }
}

/// The entries of the list of receivers.
pub open spec fn receiver_entries(cast: Cast, busy: bool) -> Seq<(Seq<char>, bool, bool)> {
    Seq::new(
        cast.receivers@.len(),
        |i: int|
            (
                receiver_name(cast.receivers@[i]),
                cast.receiver_id is Some && cast.receiver_id->0@ == cast.receivers@[i].id@,
                busy,
            ),
    )
}

impl CastView {
    pub open spec fn of(self, cast: Cast, busy: bool) -> bool {
        &&& is_receiver_label(cast, self.receiver.label@)
        &&& self.receiver.shows(
            self.receiver.label@,
            busy || cast.receivers@.len() == 0,
            receiver_entries(cast, busy),
        )
        &&& self.refresh@ == if cast.scanning {
            "Searching…"@
        } else {
            "Refresh"@
        }
        &&& self.refresh_disabled == (busy || cast.scanning)
        &&& self.note@ == match cast.error {
            Some(error) => error@,
            None =>
                "Choose a receiver on the same local network. Starting Cast may replace what is playing there."@,
        }
    }
}

impl DestinationView {
    pub open spec fn of(self, cast: Cast, busy: bool, available: bool) -> bool {
        &&& self.destination.shows(
            if cast.mode {
                "Google Cast"@
            } else {
                "Browser link"@
            },
            busy,
            seq![
                ("Browser link"@, !cast.mode, busy),
                (
                    if available {
                        "Google Cast"@
                    } else {
                        "Google Cast unavailable in this build"@
                    },
                    cast.mode,
                    busy || !available,
                ),
            ],
        )
        &&& self.cast is Some == cast.mode
        &&& cast.mode ==> self.cast->0.of(cast, busy)
    }
}

impl Cast {
    fn receiver_menu(&self, busy: bool) -> (r: Menu)
        ensures
            is_receiver_label(*self, r.label@),
            r.shows(
                r.label@,
                busy || self.receivers@.len() == 0,
                receiver_entries(*self, busy),
            ),
    {
        let place = match &self.receiver_id {
            Some(id) => find(&self.receivers, id.as_str()),
            None => None,
        };
        let label = match place {
            Some(i) => {
                assert(first_at(self.receivers@, self.receiver_id->0@, i as int));
                self.receivers[i].name.clone()
            },
            None => if self.scanning {
                "Looking for receivers…".to_owned()
            } else {
                "Choose a receiver".to_owned()
            },
        };
        let mut menu = Menu::new(label, busy || self.receivers.len() == 0);
        let ghost entries = receiver_entries(*self, busy);
        let mut i: usize = 0;
        while i < self.receivers.len()
            invariant
                i <= self.receivers@.len(),
                entries == receiver_entries(*self, busy),
                menu.label == label,
                menu.disabled == (busy || self.receivers@.len() == 0),
                menu.items@.len() == i,
                forall|k: int|
                    0 <= k < i ==> widgets::entry(#[trigger] menu.items@[k]) == entries[k],
            decreases self.receivers@.len() - i,
        {
            let receiver = &self.receivers[i];
            let chosen = match &self.receiver_id {
                Some(id) => text::same(id.as_str(), receiver.id.as_str()),
                None => false,
            };
            menu.offer(receiver_label(receiver), chosen, busy);
            i = i + 1;
        }
        menu
    }

    /// Where the share goes. `available` tells whether casting can be done at
    /// all.
    pub fn render_destination(&self, busy: bool, available: bool) -> (r: DestinationView)
        ensures
            r.of(*self, busy, available),
    {
        let label = if self.mode {
            "Google Cast"
        } else {
            "Browser link"
        };
        let mut destination = Menu::new(label.to_owned(), busy);
        destination.offer("Browser link".to_owned(), !self.mode, busy);
        let other = if available {
            "Google Cast"
        } else {
            "Google Cast unavailable in this build"
        };
        destination.offer(other.to_owned(), self.mode, busy || !available);
        if !self.mode {
            return DestinationView { destination, cast: None };
        }
        let refresh = if self.scanning {
            "Searching…"
        } else {
            "Refresh"
        };
        let note = match &self.error {
            Some(error) => error.clone(),
            None =>
                "Choose a receiver on the same local network. Starting Cast may replace what is playing there.".to_owned(),
        };
        DestinationView {
            destination,
            cast: Some(
                CastView {
                    receiver: self.receiver_menu(busy),
                    refresh: refresh.to_owned(),
                    refresh_disabled: busy || self.scanning,
                    note,
                },
            ),
        }
    }
}

/// The settings of a cast as they are shown.
#[derive(Debug)]
pub struct CastSettingsView {
    pub profile: Menu,
    pub fps: Menu,
    pub encoder: Menu,
    pub cursor: bool,
}

/// The wider profile is chosen.
pub open spec fn full_hd(config: LiveConfig) -> bool {
    config.max_width is Some && config.max_width->0 >= 1920
}

impl CastSettingsView {
    pub open spec fn of(self, config: LiveConfig, busy: bool) -> bool {
        &&& self.profile.shows(
            if full_hd(config) {
                "1080p"@
            } else {
                "720p"@
            },
            busy,
            seq![("720p"@, !full_hd(config), busy), ("1080p"@, full_hd(config), busy)],
        )
        &&& self.fps.shows(
            settings::fps_name(config.fps),
            busy,
            seq![
                (settings::fps_name(15), config.fps == 15, busy),
                (settings::fps_name(30), config.fps == 30, busy),
            ],
        )
        &&& self.encoder.shows(
            config.encoder.name(),
            busy,
            Seq::new(
                3,
                |i: int|
                    (
                        EncoderMode::listed(i).name(),
                        EncoderMode::listed(i) == config.encoder,
                        busy,
                    ),
            ),
        )
        &&& self.cursor == config.cursor
    }
}

/// The settings of a cast.
pub fn render_cast_settings(config: &LiveConfig, busy: bool) -> (r: CastSettingsView)
    ensures
        r.of(*config, busy),
{
    let wide = match config.max_width {
        Some(width) => width >= 1920,
        None => false,
    };
    let label = if wide {
        "1080p"
    } else {
        "720p"
    };
    let mut profile = Menu::new(label.to_owned(), busy);
    profile.offer("720p".to_owned(), !wide, busy);
    profile.offer("1080p".to_owned(), wide, busy);
    let mut fps = Menu::new(settings::fps_label(config.fps), busy);
    fps.offer(settings::fps_label(15), config.fps == 15, busy);
    fps.offer(settings::fps_label(30), config.fps == 30, busy);
    CastSettingsView {
        profile,
        fps,
        encoder: settings::encoder_menu(config, busy),
        cursor: config.cursor,
    }
}

/// A cast's own settings can be cast: its size, its frame rate and the bitrate
/// that goes with it are all within a receiver's limits.
pub proof fn cast_settings_can_be_cast(stream: Stream, desktop: DesktopConfig)
    requires
        stream.config.h264_bitrate == crate::live::bitrate_for(stream.config.fps),
    ensures
        ({
            let now = redirected(None, Browser { stream, desktop }, true).1;
            (crate::cast::VideoConfig {
                width: now.desktop.width,
                height: now.desktop.height,
                fps: now.stream.config.fps,
                bitrate: now.stream.config.h264_bitrate,
            }).refused() is None && now.stream.config.max_width == Some(now.desktop.width)
        }),
{
}

/// The receiver whose name the button shows is the one that is checked.
pub proof fn the_shown_receiver_is_checked(
    cast: Cast,
    menu: Menu,
    busy: bool,
    label: Seq<char>,
)
    requires
        is_receiver_label(cast, menu.label@),
        menu.shows(label, busy, receiver_entries(cast, busy)),
        cast.receiver_id is Some,
        listed(cast.receivers@, cast.receiver_id->0@),
    ensures
        exists|i: int|
            0 <= i < cast.receivers@.len() && (#[trigger] menu.items@[i]).checked
                && cast.receivers@[i].id@ == cast.receiver_id->0@ && menu.label@
                == cast.receivers@[i].name@,
{
    let i = choose|i: int| #[trigger]
        first_at(cast.receivers@, cast.receiver_id->0@, i) && menu.label@
            == cast.receivers@[i].name@;
    assert(widgets::entry(menu.items@[i]) == receiver_entries(cast, busy)[i]);
    assert(menu.items@[i].checked);
}

} // verus!
