//! Sending a share's link to a device nearby.

use vstd::prelude::*;

use crate::search;
use crate::strings;
use crate::text;

verus! {

/// The class of the window. It is not the picker's: a window of that class is
/// taken for the picker.
pub fn app_id() -> (r: &'static str)
    ensures
        r@ == "omabeam-send"@,
{
    "omabeam-send"
}

/// The window is not taken for the picker.
pub proof fn the_window_is_not_the_picker()
    ensures
        "omabeam-send"@ != "omabeam"@,
{
    reveal_strlit("omabeam-send");
    reveal_strlit("omabeam");
    assert("omabeam-send"@.len() != "omabeam"@.len());
}

/// How far sending has come.
#[derive(Debug, Clone, PartialEq, Eq)]
pub enum SendPhase {
    Starting,
    Ready,
    Sending {
        alias: String,
    },
    /// The receiver wants a PIN; the next send to it carries the typed one.
    NeedsPin {
        fingerprint: String,
        alias: String,
        incorrect: bool,
    },
    Sent {
        alias: String,
    },
    Failed {
        message: String,
    },
}

impl SendPhase {
    /// The device wants a PIN.
    pub open spec fn pin_wanted(self, device: Seq<char>) -> bool {
        self is NeedsPin && self->fingerprint@ == device
    }

    pub fn asks_pin_for(&self, device: &str) -> (r: bool)
        ensures
            r == self.pin_wanted(device@),
    {
        match self {
            SendPhase::NeedsPin { fingerprint, alias, incorrect } => text::same(
                fingerprint.as_str(),
                device,
            ),
            _ => false,
        }
    }

    /// Nothing can be sent now.
    pub open spec fn busy(self) -> bool {
        self is Starting || self is Sending
    }
}

/// How a send ended.
#[derive(Debug)]
pub enum SendResult {
    Sent,
    /// The receiver wants a PIN, or another one.
    PinRejected {
        alias: String,
        pin_sent: bool,
    },
    Failed(String),
    /// The send was given up.
    Stopped,
}

/// What is said of a rejected PIN.
pub open spec fn rejection(alias: Seq<char>, pin_sent: bool) -> Seq<char> {
    if pin_sent {
        "Incorrect PIN for "@ + alias + ". Try again."@
    } else {
        alias + " requires a PIN. Enter it to send the link."@
    }
}

/// The phase and the hint that a finished send leaves.
pub open spec fn leaves(
    fingerprint: Seq<char>,
    alias: Seq<char>,
    result: SendResult,
    phase: SendPhase,
    hint: Seq<char>,
) -> bool {
    match result {
        SendResult::Sent => {
            &&& phase is Sent && phase->Sent_alias@ == alias
            &&& hint == "Sent to "@ + alias + ". They can open the link in a browser."@
        },
        SendResult::PinRejected { alias: named, pin_sent } => {
            &&& phase is NeedsPin
            &&& phase->fingerprint@ == fingerprint
            &&& phase->NeedsPin_alias@ == alias
            &&& phase->incorrect == pin_sent
            &&& hint == rejection(named@, pin_sent)
        },
        SendResult::Failed(message) => phase is Failed && phase->message@ == message@ && hint
            == message@,
        SendResult::Stopped => phase is Failed && phase->message@ == "Send stopped."@ && hint
            == "Send stopped."@,
    }
}

/// A PIN request keeps the send open for a retry, anything else ends it.
pub fn outcome(fingerprint: &str, alias: &str, result: SendResult) -> (r: (SendPhase, String))
    ensures
        leaves(fingerprint@, alias@, result, r.0, r.1@),
{
    match result {
        SendResult::Sent => {
            let mut hint = "Sent to ".to_owned();
            hint.append(alias);
            hint.append(". They can open the link in a browser.");
            (SendPhase::Sent { alias: alias.to_owned() }, hint)
        },
        SendResult::PinRejected { alias: named, pin_sent } => {
            let hint = if pin_sent {
                let mut hint = "Incorrect PIN for ".to_owned();
                hint.append(named.as_str());
                hint.append(". Try again.");
                hint
            } else {
                let mut hint = named;
                hint.append(" requires a PIN. Enter it to send the link.");
                hint
            };
            (
                SendPhase::NeedsPin {
                    fingerprint: fingerprint.to_owned(),
                    alias: alias.to_owned(),
                    incorrect: pin_sent,
                },
                hint,
            )
        },
        SendResult::Failed(message) => {
            let hint = message.clone();
            (SendPhase::Failed { message }, hint)
        },
        SendResult::Stopped => (
            SendPhase::Failed { message: "Send stopped.".to_owned() },
            "Send stopped.".to_owned(),
        ),
    }
}

/// Only a request for a PIN leaves the send open.
pub proof fn only_a_pin_request_stays_open(
    fingerprint: Seq<char>,
    alias: Seq<char>,
    result: SendResult,
    phase: SendPhase,
    hint: Seq<char>,
)
    requires
        leaves(fingerprint, alias, result, phase, hint),
    ensures
        phase.pin_wanted(fingerprint) == (result is PinRejected),
        !phase.busy(),
{
}

/// A device nearby.
#[derive(Debug)]
pub struct Device {
    pub fingerprint: String,
    pub alias: String,
    pub model: String,
}

/// The place of the first device with a fingerprint.
pub open spec fn device_index(devices: Seq<Device>, fingerprint: Seq<char>) -> Option<int> {
    search::first_where(devices, |d: Device| d.fingerprint@ == fingerprint)
}

fn find_device(devices: &Vec<Device>, fingerprint: &str) -> (r: Option<usize>)
    ensures
        match r {
            Some(i) => i < devices@.len() && device_index(devices@, fingerprint@) == Some(i as int),
            None => device_index(devices@, fingerprint@) is None,
        },
{
    let ghost test = |d: Device| d.fingerprint@ == fingerprint@;
    let mut i: usize = 0;
    while i < devices.len()
        invariant
            i <= devices@.len(),
            test == (|d: Device| d.fingerprint@ == fingerprint@),
            forall|j: int| 0 <= j < i ==> !test(#[trigger] devices@[j]),
        decreases devices@.len() - i,
    {
        if text::same(devices[i].fingerprint.as_str(), fingerprint) {
            proof {
                search::lemma_first(devices@, test, i as int);
            }
            return Some(i);
        }
        i = i + 1;
    }
    proof {
        search::lemma_none(devices@, test);
    }
    None
}

/// The window that sends a link.
#[derive(Debug)]
pub struct SendLink {
    pub url: String,
    pub host: String,
    /// This computer can be named to receivers.
    pub sender: bool,
    /// Devices are looked for.
    pub discovery: bool,
    pub devices: Vec<Device>,
    pub selected: Option<String>,
    pub phase: SendPhase,
    pub hint: String,
    /// A send can be cancelled.
    pub cancellable: bool,
    /// Counts sends, so that a cancelled one that ends late cannot overwrite a
    /// newer one.
    pub sends: u64,
}

/// What to do to send a link.
#[derive(Debug, PartialEq, Eq)]
pub enum Send {
    Nothing,
    /// Let the PIN be typed.
    AskPin,
    /// Send the link to the device at a place, under a number.
    To {
        device: usize,
        pin: Option<String>,
        number: u64,
    },
}

/// Opens the window that sends a link. `host` is what the link is called, where
/// it is one of a share.
pub fn open_send_link(url: String, host: Option<String>) -> (r: SendLink)
    ensures
        r.url == url,
        r.host@ == match host {
            Some(host) => host@,
            None => url@,
        },
        !r.sender,
        !r.discovery,
        r.devices@.len() == 0,
        r.selected is None,
        r.phase is Starting,
        r.hint@ == "Starting LocalSend discovery…"@,
        !r.cancellable,
        r.sends == 0,
{
    let host = match host {
        Some(host) => host,
        None => url.clone(),
    };
    SendLink {
        url,
        host,
        sender: false,
        discovery: false,
        devices: Vec::new(),
        selected: None,
        phase: SendPhase::Starting,
        hint: "Starting LocalSend discovery…".to_owned(),
        cancellable: false,
        sends: 0,
    }
}

impl SendLink {
    pub fn is_busy(&self) -> (r: bool)
        ensures
            r == self.phase.busy(),
    {
        match &self.phase {
            SendPhase::Sending { alias } => true,
            SendPhase::Starting => true,
            _ => false,
        }
    }

    /// The search for devices started, or not. `Err(None)` means that it was
    /// given up.
    pub fn started(&mut self, result: Result<(), Option<String>>)
        ensures
            *final(self) == (SendLink {
                sender: final(self).sender,
                discovery: final(self).discovery,
                phase: final(self).phase,
                ..*old(self)
            }),
            match result {
                Ok(()) => final(self).sender && final(self).discovery && final(self).phase is Ready,
                Err(error) => {
                    &&& final(self).sender == old(self).sender
                    &&& final(self).discovery == old(self).discovery
                    &&& final(self).phase is Failed
                    &&& final(self).phase->message@ == match error {
                        Some(error) => "Could not look for nearby devices. "@ + error@,
                        None => "Could not look for nearby devices."@,
                    }
                },
            },
    {
        match result {
            Ok(()) => {
                self.sender = true;
                self.discovery = true;
                self.phase = SendPhase::Ready;
            },
            Err(error) => {
                let message = match error {
                    Some(error) => {
                        let mut message = "Could not look for nearby devices. ".to_owned();
                        message.append(error.as_str());
                        message
                    },
                    None => "Could not look for nearby devices.".to_owned(),
                };
                self.phase = SendPhase::Failed { message };
            },
        }
    }

    /// Takes the devices that were found. One of them is always selected, and
    /// the search's hint does not hide how the last send ended.
    pub fn refresh_devices(&mut self, devices: Vec<Device>, hint: String)
        ensures
            if !old(self).discovery {
                *final(self) == *old(self)
            } else {
                &&& *final(self) == (SendLink {
                    devices,
                    hint: if old(self).phase is Failed || old(self).phase is Sent || old(self).phase is NeedsPin {
                        old(self).hint
                    } else {
                        hint
                    },
                    selected: final(self).selected,
                    ..*old(self)
                })
                &&& if old(self).selected is Some && device_index(
                    devices@,
                    old(self).selected->0@,
                ) is Some {
                    final(self).selected == old(self).selected
                } else {
                    text::text_of(final(self).selected) == if devices@.len() > 0 {
                        Some(devices@[0].fingerprint@)
                    } else {
                        None
                    }
                }
            },
    {
        if !self.discovery {
            return ;
        }
        self.devices = devices;
        let settled = match &self.phase {
            SendPhase::Failed { message } => true,
            SendPhase::Sent { alias } => true,
            SendPhase::NeedsPin { fingerprint, alias, incorrect } => true,
            _ => false,
        };
        if !settled {
            self.hint = hint;
        }
        let there = match &self.selected {
            Some(id) => {
                let place = find_device(&self.devices, id.as_str());
                place.is_some()
            },
            None => false,
        };
        if !there {
            self.selected = if self.devices.len() > 0 {
                Some(self.devices[0].fingerprint.clone())
            } else {
                None
            };
        }
    }

    /// The place of the selected device.
    pub open spec fn chosen(self) -> Option<int> {
        match self.selected {
            Some(id) => device_index(self.devices@, id@),
            None => None,
        }
    }

    pub fn selected_device(&self) -> (r: Option<usize>)
        ensures
            match r {
                Some(i) => self.chosen() == Some(i as int) && i < self.devices@.len(),
                None => self.chosen() is None,
            },
    {
        match &self.selected {
            Some(id) => find_device(&self.devices, id.as_str()),
            None => None,
        }
    }

    /// Selects the next or previous device. The result is the place to scroll
    /// to.
    pub fn move_selection(&mut self, delta: i32) -> (r: Option<usize>)
        ensures
            if old(self).devices@.len() == 0 || delta == 0 || old(self).phase.busy() {
                r is None && *final(self) == *old(self)
            } else {
                let current = match old(self).chosen() {
                    Some(i) => i,
                    None => 0,
                };
                let next = crate::picker::stepped(
                    current,
                    delta as int,
                    old(self).devices@.len() as int,
                );
                &&& r == Some(next as usize)
                &&& *final(self) == (SendLink { selected: final(self).selected, ..*old(self) })
                &&& text::text_of(final(self).selected) == Some(
                    old(self).devices@[next].fingerprint@,
                )
            },
    {
        if self.devices.len() == 0 || delta == 0 || self.is_busy() {
            return None;
        }
        let current: usize = match self.selected_device() {
            Some(i) => i,
            None => 0,
        };
        let next = crate::picker::step(current, delta, self.devices.len());
        self.selected = Some(self.devices[next].fingerprint.clone());
        Some(next)
    }

    /// What asking to send to a device does. A device that wants a PIN gets the
    /// typed one.
    pub open spec fn sends_to(
        self,
        fingerprint: Seq<char>,
        typed: Seq<char>,
        after: SendLink,
        r: Send,
    ) -> bool {
        let device = device_index(self.devices@, fingerprint);
        if self.phase.busy() || !self.sender || device is None {
            after == self && r == Send::Nothing
        } else if self.phase.pin_wanted(fingerprint) && typed.len() == 0 {
            after == self && r == Send::AskPin
        } else {
            &&& r is To
            &&& r->device == device->0
            &&& r->number == after.sends
            &&& text::text_of(r->pin) == if self.phase.pin_wanted(fingerprint) {
                Some(typed)
            } else {
                None
            }
            &&& after == (SendLink {
                selected: after.selected,
                phase: after.phase,
                hint: after.hint,
                cancellable: true,
                sends: (self.sends + 1) as u64,
                ..self
            })
            &&& text::text_of(after.selected) == Some(fingerprint)
            &&& after.phase is Sending
            &&& after.phase->Sending_alias@ == self.devices@[device->0].alias@
            &&& after.hint@ == "Waiting for "@ + self.devices@[device->0].alias@ + " to accept…"@
        }
    }

    pub fn send_to(&mut self, fingerprint: &str, typed: &str) -> (r: Send)
        requires
            old(self).sends < u64::MAX,
        ensures
            old(self).sends_to(fingerprint@, typed@, *final(self), r),
    {
        if self.is_busy() || !self.sender {
            return Send::Nothing;
        }
        let device = match find_device(&self.devices, fingerprint) {
            Some(device) => device,
            None => {
                return Send::Nothing;
            },
        };
        let pin = if self.phase.asks_pin_for(fingerprint) {
            if typed.is_empty() {
                return Send::AskPin;
            }
            Some(typed.to_owned())
        } else {
            None
        };
        let alias = self.devices[device].alias.clone();
        let mut hint = "Waiting for ".to_owned();
        hint.append(alias.as_str());
        hint.append(" to accept…");
        self.selected = Some(fingerprint.to_owned());
        self.phase = SendPhase::Sending { alias };
        self.hint = hint;
        self.cancellable = true;
        self.sends = self.sends + 1;
        Send::To { device, pin, number: self.sends }
    }

    /// A send ended. The result says whether the PIN is to be typed anew. One
    /// that is no longer the newest changes nothing.
    pub fn send_finished(
        &mut self,
        number: u64,
        fingerprint: &str,
        alias: &str,
        result: SendResult,
    ) -> (r: bool)
        ensures
            if number != old(self).sends {
                *final(self) == *old(self) && !r
            } else {
                &&& r == (result is PinRejected)
                &&& *final(self) == (SendLink {
                    cancellable: false,
                    phase: final(self).phase,
                    hint: final(self).hint,
                    ..*old(self)
                })
                &&& leaves(
                    fingerprint@,
                    alias@,
                    result,
                    final(self).phase,
                    final(self).hint@,
                )
            },
    {
        if self.sends != number {
            return false;
        }
        let (phase, hint) = outcome(fingerprint, alias, result);
        let pin = match &phase {
            SendPhase::NeedsPin { fingerprint, alias, incorrect } => true,
            _ => false,
        };
        self.cancellable = false;
        self.phase = phase;
        self.hint = hint;
        pin
    }

    /// The link was copied.
    pub fn copy_link(&mut self)
        ensures
            if old(self).phase is Sending {
                *final(self) == *old(self)
            } else {
                &&& *final(self) == (SendLink { hint: final(self).hint, ..*old(self) })
                &&& final(self).hint@ == "Share link copied."@
            },
    {
        let sending = match &self.phase {
            SendPhase::Sending { alias } => true,
            _ => false,
        };
        if !sending {
            self.hint = "Share link copied.".to_owned();
        }
    }

    /// Cancels the send that is going on. The result says whether there was one;
    /// otherwise the window is closed.
    pub fn cancel(&mut self) -> (r: bool)
        ensures
            r == old(self).cancellable,
            if r {
                &&& *final(self) == (SendLink {
                    cancellable: false,
                    phase: SendPhase::Ready,
                    hint: final(self).hint,
                    ..*old(self)
                })
                &&& final(self).hint@ == "Send cancelled."@
            } else {
                *final(self) == *old(self)
            },
    {
        if self.cancellable {
            self.cancellable = false;
            self.phase = SendPhase::Ready;
            self.hint = "Send cancelled.".to_owned();
            true
        } else {
            false
        }
    }
}

/// The upper case of a text.
pub uninterp spec fn uppercase_of(s: Seq<char>) -> Seq<char>;

/// `str::to_uppercase`: the upper case of a text, as `uppercase_of` names it.
#[verifier::external_body]
fn uppercase(s: &str) -> (r: String)
    ensures
        r@ == uppercase_of(s@),
{
    s.to_uppercase()
}

/// The first letters of the first words, `left` of them at most. `inside` tells
/// whether the text starts within a word.
pub open spec fn first_letters(s: Seq<char>, left: nat, inside: bool) -> Seq<char>
    decreases s.len(),
{
    if s.len() == 0 || left == 0 {
        Seq::empty()
    } else if strings::is_space(s[0]) {
        first_letters(s.drop_first(), left, false)
    } else if inside {
        first_letters(s.drop_first(), left, true)
    } else {
        seq![s[0]] + first_letters(s.drop_first(), (left - 1) as nat, true)
    }
}

fn letters(s: &str) -> (r: String)
    ensures
        r@ == first_letters(s@, 2, false),
{
    let chars = text::chars(s);
    let mut found = String::new();
    let mut left: u8 = 2;
    let mut inside = false;
    let mut i: usize = 0;
    assert(s@.skip(0) =~= s@);
    while i < chars.len() && left > 0
        invariant
            chars@ == s@,
            i <= chars@.len(),
            found@ + first_letters(s@.skip(i as int), left as nat, inside) =~= first_letters(
                s@,
                2,
                false,
            ),
        decreases chars@.len() - i,
    {
        let ghost rest = s@.skip(i as int);
        assert(rest[0] == s@[i as int]);
        assert(rest.drop_first() =~= s@.skip(i + 1));
        let c: char = chars[i];
        if strings::space(c) {
            inside = false;
        } else if !inside {
            found.push(c);
            left = left - 1;
            inside = true;
        }
        i = i + 1;
    }
    found
}

/// The upper-case letters, or a stand-in for none.
pub fn initials_or_default(letters: String) -> (r: String)
    ensures
        r@ == if letters@.len() == 0 {
            "TS"@
        } else {
            letters@
        },
{
    if letters.as_str().is_empty() {
        "TS".to_owned()
    } else {
        letters
    }
}

/// The initials of a device.
pub open spec fn initials(alias: Seq<char>) -> Seq<char> {
    let upper = uppercase_of(first_letters(alias, 2, false));
    if upper.len() == 0 {
        "TS"@
    } else {
        upper
    }
}

pub fn device_initials(alias: &str) -> (r: String)
    ensures
        r@ == initials(alias@),
{
    initials_or_default(uppercase(letters(alias).as_str()))
}

/// A hash of some bytes.
pub open spec fn fnv(bytes: Seq<u8>) -> u32
    decreases bytes.len(),
{
    if bytes.len() == 0 {
        0x811c9dc5
    } else {
        (((fnv(bytes.drop_last()) ^ (bytes.last() as u32)) * 0x01000193) % 0x1_0000_0000) as u32
    }
}

/// Which of four colours a device has.
pub fn avatar_color(initials: &str) -> (r: usize)
    ensures
        r == fnv(vstd::utf8::encode_utf8(initials@)) % 4,
{
    let bytes = initials.as_bytes();
    let mut hash: u32 = 0x811c9dc5;
    let mut i: usize = 0;
    assert(bytes@.take(0) =~= Seq::empty());
    while i < bytes.len()
        invariant
            i <= bytes@.len(),
            hash == fnv(bytes@.take(i as int)),
        decreases bytes@.len() - i,
    {
        assert(bytes@.take(i + 1).drop_last() =~= bytes@.take(i as int));
        assert(bytes@.take(i + 1).last() == bytes@[i as int]);
        hash = (hash ^ bytes[i] as u32).wrapping_mul(0x01000193);
        i = i + 1;
    }
    assert(bytes@.take(i as int) =~= bytes@);
    (hash % 4) as usize
}

/// How the hint is coloured.
#[derive(Debug, Clone, Copy, PartialEq, Eq, Structural)]
pub enum Tone {
    Danger,
    Warning,
    Success,
    Neutral,
}

/// A device as it is shown.
#[derive(Debug)]
pub struct Card {
    pub alias: String,
    pub model: String,
    pub initials: String,
    pub color: usize,
    pub selected: bool,
    pub disabled: bool,
}

impl Card {
    pub open spec fn of(self, link: SendLink, device: Device) -> bool {
        &&& self.alias@ == device.alias@
        &&& self.model@ == if device.model@.len() == 0 {
            "LocalSend"@
        } else {
            device.model@
        }
        &&& self.initials@ == initials(device.alias@)
        &&& self.color == fnv(vstd::utf8::encode_utf8(initials(device.alias@))) % 4
        &&& self.selected == (text::text_of(link.selected) == Some(device.fingerprint@))
        &&& self.disabled == link.phase.busy()
    }
}

/// The window as it is shown.
#[derive(Debug)]
pub struct SendPane {
    pub subtitle: String,
    pub cards: Vec<Card>,
    pub tone: Tone,
    pub hint: String,
    pub pin_field: bool,
    pub button: String,
    pub button_disabled: bool,
}

impl SendLink {
    pub open spec fn tone(self) -> Tone {
        match self.phase {
            SendPhase::Failed { message } => Tone::Danger,
            SendPhase::NeedsPin { fingerprint, alias, incorrect } => if incorrect {
                Tone::Danger
            } else {
                Tone::Warning
            },
            SendPhase::Sent { alias } => Tone::Success,
            _ => Tone::Neutral,
        }
    }

    /// The selected device wants a PIN.
    pub open spec fn wants_pin(self) -> bool {
        self.selected is Some && self.phase.pin_wanted(self.selected->0@)
    }

    fn device_card(&self, device: &Device) -> (r: Card)
        ensures
            r.of(*self, *device),
    {
        let initials = device_initials(device.alias.as_str());
        let color = avatar_color(initials.as_str());
        let model = if device.model.as_str().is_empty() {
            "LocalSend".to_owned()
        } else {
            device.model.clone()
        };
        let selected = match &self.selected {
            Some(id) => text::same(id.as_str(), device.fingerprint.as_str()),
            None => false,
        };
        Card {
            alias: device.alias.clone(),
            model,
            initials,
            color,
            selected,
            disabled: self.is_busy(),
        }
    }

    /// The window as it is shown, given what was typed as a PIN.
    pub fn render(&self, typed: &str) -> (r: SendPane)
        ensures
            r.subtitle@ == "Nearby devices can open "@ + self.host@,
            r.cards@.len() == self.devices@.len(),
            forall|i: int|
                0 <= i < r.cards@.len() ==> (#[trigger] r.cards@[i]).of(*self, self.devices@[i]),
            r.tone == self.tone(),
            r.hint@ == self.hint@,
            r.pin_field == (self.phase is NeedsPin),
            r.button@ == if self.phase is Sending {
                "Waiting…"@
            } else if self.wants_pin() {
                "Send with PIN"@
            } else {
                "Send"@
            },
            r.button_disabled == (self.phase.busy() || self.chosen() is None || (self.wants_pin()
                && typed@.len() == 0)),
    {
        let sending = match &self.phase {
            SendPhase::Sending { alias } => true,
            _ => false,
        };
        let wants_pin = match &self.selected {
            Some(id) => self.phase.asks_pin_for(id.as_str()),
            None => false,
        };
        let (tone, pin_field) = match &self.phase {
            SendPhase::Failed { message } => (Tone::Danger, false),
            SendPhase::NeedsPin { fingerprint, alias, incorrect } => if *incorrect {
                (Tone::Danger, true)
            } else {
                (Tone::Warning, true)
            },
            SendPhase::Sent { alias } => (Tone::Success, false),
            _ => (Tone::Neutral, false),
        };
        let mut cards: Vec<Card> = Vec::new();
        let mut i: usize = 0;
        while i < self.devices.len()
            invariant
                i <= self.devices@.len(),
                cards@.len() == i,
                forall|j: int| 0 <= j < i ==> (#[trigger] cards@[j]).of(*self, self.devices@[j]),
            decreases self.devices@.len() - i,
        {
            cards.push(self.device_card(&self.devices[i]));
            i = i + 1;
        }
        let button = if sending {
            "Waiting…"
        } else if wants_pin {
            "Send with PIN"
        } else {
            "Send"
        };
        let mut subtitle = "Nearby devices can open ".to_owned();
        subtitle.append(self.host.as_str());
        SendPane {
            subtitle,
            cards,
            tone,
            hint: self.hint.clone(),
            pin_field,
            button: button.to_owned(),
            button_disabled: self.is_busy() || self.selected_device().is_none() || (wants_pin
                && typed.is_empty()),
        }
    }
}

/// A link goes to the device that it was meant for, and a PIN only to a device
/// that asked for one.
pub proof fn links_go_where_they_are_sent(
    link: SendLink,
    fingerprint: String,
    typed: Seq<char>,
    after: SendLink,
    r: Send,
)
    requires
        link.sends_to(fingerprint@, typed, after, r),
    ensures
        r matches Send::To { device, pin, number } ==> {
            &&& device < link.devices@.len()
            &&& link.devices@[device as int].fingerprint@ == fingerprint@
            &&& text::text_of(after.selected) == Some(fingerprint@)
            &&& !link.phase.busy()
            &&& after.phase.busy()
            &&& pin is Some ==> link.phase.pin_wanted(fingerprint@) && typed.len() > 0
            &&& link.phase.pin_wanted(fingerprint@) ==> text::text_of(pin) == Some(typed)
            &&& number != link.sends || link.sends == u64::MAX
        },
        !(r is To) ==> after == link,
{
    let test = |d: Device| d.fingerprint@ == fingerprint@;
    search::lemma_found(link.devices@, test);
}

/// A device that turned a send down for want of a PIN gets one with the next.
pub proof fn a_rejected_send_is_repeated_with_a_pin(
    link: SendLink,
    fingerprint: Seq<char>,
    alias: Seq<char>,
    result: SendResult,
    hint: Seq<char>,
    typed: Seq<char>,
    after: SendLink,
    r: Send,
)
    requires
        leaves(fingerprint, alias, result, link.phase, hint),
        result is PinRejected,
        link.sends_to(fingerprint, typed, after, r),
    ensures
        r matches Send::To { pin, .. } ==> text::text_of(pin) == Some(typed) && typed.len() > 0,
        typed.len() == 0 ==> !(r is To),
{
}

} // verus!
