//! The pipe protocol of the Cast helper, and the helper's life.

use vstd::prelude::*;

use crate::encoder;
use crate::json;
use crate::strings;
use crate::text;

verus! {

pub const VERSION: u32 = 1;

/// The largest header.
pub const MAX_HEADER: usize = 4096;

/// The largest frame.
pub const MAX_FRAME: usize = 2_097_152;

/// The largest presentation time: a week, in microseconds.
pub const MAX_PTS: u64 = 604_800_000_000;

/// The largest capture age, in microseconds.
pub const MAX_AGE: u64 = 10_000_000;

/// How much of the helper's log is kept, in bytes.
pub const MAX_LOG: usize = 8192;

/// The longest name of a receiver session, in bytes.
pub const MAX_SESSION: usize = 256;

/// Why something cannot be sent to or taken from the helper.
#[derive(Debug, Clone, Copy, PartialEq, Eq, Structural)]
pub enum Error {
    Dimensions,
    FrameRate,
    Bitrate,
    Endpoint,
    HeaderTooLarge,
    HeaderLength,
    Malformed,
    VersionMismatch,
    InvalidEvent,
    UnexpectedMedia,
    SequenceOrTimestamp,
    TooOld,
    FrameTooLarge,
    Session,
    NotReady,
    ReadyTimeout,
    Encoder(encoder::Error),
}

impl Error {
    /// The words shown for the error.
    pub open spec fn text(self) -> Seq<char> {
        match self {
            Error::Dimensions =>
                "Cast requires even video dimensions between 320×240 and 1920×1080"@,
            Error::FrameRate => "Cast supports up to 30 fps"@,
            Error::Bitrate => "Invalid Cast bitrate"@,
            Error::Endpoint => "Invalid Cast endpoint"@,
            Error::HeaderTooLarge => "Cast IPC header too large"@,
            Error::HeaderLength => "Invalid Cast IPC header length"@,
            Error::Malformed => "Cast helper sent malformed JSON"@,
            Error::VersionMismatch => "Cast helper version mismatch"@,
            Error::InvalidEvent => "Invalid Cast helper event"@,
            Error::UnexpectedMedia => "Unexpected media on Cast event channel"@,
            Error::SequenceOrTimestamp => "Invalid Cast frame sequence/timestamp"@,
            Error::TooOld => "Cast frame is too old"@,
            Error::FrameTooLarge => "Cast frame is too large"@,
            Error::Session => "Invalid receiver session identity"@,
            Error::NotReady => "Cast helper did not report ready"@,
            Error::ReadyTimeout => "Cast helper readiness timeout"@,
            Error::Encoder(error) => error.text(),
        }
    }

    pub fn message(&self) -> (r: String)
        ensures
            r@ == self.text(),
    {
        let words = match *self {
            Error::Dimensions =>
                "Cast requires even video dimensions between 320×240 and 1920×1080",
            Error::FrameRate => "Cast supports up to 30 fps",
            Error::Bitrate => "Invalid Cast bitrate",
            Error::Endpoint => "Invalid Cast endpoint",
            Error::HeaderTooLarge => "Cast IPC header too large",
            Error::HeaderLength => "Invalid Cast IPC header length",
            Error::Malformed => "Cast helper sent malformed JSON",
            Error::VersionMismatch => "Cast helper version mismatch",
            Error::InvalidEvent => "Invalid Cast helper event",
            Error::UnexpectedMedia => "Unexpected media on Cast event channel",
            Error::SequenceOrTimestamp => "Invalid Cast frame sequence/timestamp",
            Error::TooOld => "Cast frame is too old",
            Error::FrameTooLarge => "Cast frame is too large",
            Error::Session => "Invalid receiver session identity",
            Error::NotReady => "Cast helper did not report ready",
            Error::ReadyTimeout => "Cast helper readiness timeout",
            Error::Encoder(error) => return error.message(),
        };
        words.to_owned()
    }
}

/// The video that a receiver is offered.
#[derive(Debug, Clone, Copy, PartialEq, Eq, Structural)]
pub struct VideoConfig {
    pub width: u32,
    pub height: u32,
    pub fps: u32,
    pub bitrate: u32,
}

/// Where a receiver listens.
#[derive(Debug, Clone, PartialEq, Eq)]
pub struct Endpoint {
    /// The address and port as text.
    pub text: String,
    /// The address is the unspecified one.
    pub unspecified: bool,
    pub port: u16,
}

/// A discovered receiver.
#[derive(Debug, Clone, PartialEq, Eq)]
pub struct Receiver {
    pub id: String,
    pub name: String,
    pub model: String,
    pub busy: bool,
    pub addresses: Vec<String>,
}

impl VideoConfig {
    /// Why the video cannot be cast, if it cannot.
    pub open spec fn refused(self) -> Option<Error> {
        if !(320 <= self.width <= 1920 && self.width % 2 == 0 && 240 <= self.height <= 1080
            && self.height % 2 == 0) {
            Some(Error::Dimensions)
        } else if !(1 <= self.fps <= 30) {
            Some(Error::FrameRate)
        } else if !(300_000 <= self.bitrate <= 20_000_000) {
            Some(Error::Bitrate)
        } else {
            None
        }
    }

    pub fn validate(&self) -> (r: Result<(), Error>)
        ensures
            r == match self.refused() {
                Some(error) => Err::<(), Error>(error),
                None => Ok(()),
            },
    {
        if !(320 <= self.width && self.width <= 1920 && self.width % 2 == 0 && 240 <= self.height
            && self.height <= 1080 && self.height % 2 == 0) {
            return Err(Error::Dimensions);
        }
        if !(1 <= self.fps && self.fps <= 30) {
            return Err(Error::FrameRate);
        }
        if !(300_000 <= self.bitrate && self.bitrate <= 20_000_000) {
            return Err(Error::Bitrate);
        }
        Ok(())
    }

    /// The command that connects to a receiver, with the receiver session to
    /// resume.
    pub open spec fn connect_text(self, endpoint: Seq<char>, resume: Option<Seq<char>>) -> Seq<char> {
        "{\"bitrate\":"@ + text::decimal(self.bitrate as nat)
            + ",\"command\":\"connect\",\"endpoint\":"@ + json::quoted(endpoint) + ",\"fps\":"@
            + text::decimal(self.fps as nat) + ",\"height\":"@ + text::decimal(self.height as nat)
            + match resume {
            Some(session) => ",\"resume_session\":"@ + json::quoted(session),
            None => Seq::empty(),
        } + ",\"version\":1,\"width\":"@ + text::decimal(self.width as nat) + "}"@
    }

    fn command(&self, endpoint: &str, resume: Option<&str>) -> (r: String)
        ensures
            r@ == self.connect_text(
                endpoint@,
                match resume {
                    Some(session) => Some(session@),
                    None => None,
                },
            ),
    {
        let mut message = String::new();
        message.append("{\"bitrate\":");
        text::push_decimal(&mut message, self.bitrate as u64);
        message.append(",\"command\":\"connect\",\"endpoint\":");
        message.append(json::quote(endpoint).as_str());
        message.append(",\"fps\":");
        text::push_decimal(&mut message, self.fps as u64);
        message.append(",\"height\":");
        text::push_decimal(&mut message, self.height as u64);
        if let Some(session) = resume {
            message.append(",\"resume_session\":");
            message.append(json::quote(session).as_str());
        }
        message.append(",\"version\":1,\"width\":");
        text::push_decimal(&mut message, self.width as u64);
        message.append("}");
        assert(message@ =~= self.connect_text(
            endpoint@,
            match resume {
                Some(session) => Some(session@),
                None => None,
            },
        ));
        message
    }

    /// The command that connects to a receiver.
    pub fn connect(&self, endpoint: &Endpoint) -> (r: Result<String, Error>)
        ensures
            match self.refused() {
                Some(error) => r == Err::<String, Error>(error),
                None => if endpoint.unspecified || endpoint.port == 0 {
                    r == Err::<String, Error>(Error::Endpoint)
                } else {
                    r matches Ok(message) && message@ == self.connect_text(endpoint.text@, None)
                },
            },
    {
        match self.validate() {
            Ok(()) => {},
            Err(error) => return Err(error),
        }
        if endpoint.unspecified || endpoint.port == 0 {
            return Err(Error::Endpoint);
        }
        Ok(self.command(endpoint.text.as_str(), None))
    }

    /// The command that resumes an existing, identical receiver session. The
    /// helper never launches an app for it.
    pub fn resume(&self, endpoint: &Endpoint, session: &str) -> (r: Result<String, Error>)
        ensures
            if session@.len() == 0 || vstd::utf8::encode_utf8(session@).len() > MAX_SESSION {
                r == Err::<String, Error>(Error::Session)
            } else {
                match self.refused() {
                    Some(error) => r == Err::<String, Error>(error),
                    None => if endpoint.unspecified || endpoint.port == 0 {
                        r == Err::<String, Error>(Error::Endpoint)
                    } else {
                        r matches Ok(message) && message@ == self.connect_text(
                            endpoint.text@,
                            Some(session@),
                        )
                    },
                }
            },
    {
        if session.is_empty() || session.as_bytes().len() > MAX_SESSION {
            return Err(Error::Session);
        }
        match self.validate() {
            Ok(()) => {},
            Err(error) => return Err(error),
        }
        if endpoint.unspecified || endpoint.port == 0 {
            return Err(Error::Endpoint);
        }
        Ok(self.command(endpoint.text.as_str(), Some(session)))
    }
}

/// Four bytes, the highest first.
pub open spec fn big_endian(n: int) -> Seq<u8> {
    seq![
        (n / 16777216 % 256) as u8,
        (n / 65536 % 256) as u8,
        (n / 256 % 256) as u8,
        (n % 256) as u8,
    ]
}

/// The number that four bytes, the highest first, stand for.
pub open spec fn from_big_endian(b: Seq<u8>) -> int {
    16777216 * b[0] + 65536 * b[1] + 256 * b[2] + b[3]
}

/// A header on the wire: its length, then its bytes.
pub open spec fn framed(header: Seq<u8>) -> Result<Seq<u8>, Error> {
    if 1 <= header.len() <= MAX_HEADER {
        Ok(big_endian(header.len() as int) + header)
    } else {
        Err(Error::HeaderTooLarge)
    }
}

/// A byte vector's result as one of sequences.
pub open spec fn seen(r: Result<Vec<u8>, Error>) -> Result<Seq<u8>, Error> {
    match r {
        Ok(bytes) => Ok(bytes@),
        Err(error) => Err(error),
    }
}

/// Frames a message.
pub fn write_json(header: &[u8]) -> (r: Result<Vec<u8>, Error>)
    ensures
        seen(r) == framed(header@),
{
    let n: usize = header.len();
    if n < 1 || n > MAX_HEADER {
        return Err(Error::HeaderTooLarge);
    }
    let mut wire: Vec<u8> = Vec::new();
    wire.push((n / 16777216 % 256) as u8);
    wire.push((n / 65536 % 256) as u8);
    wire.push((n / 256 % 256) as u8);
    wire.push((n % 256) as u8);
    wire.extend_from_slice(header);
    assert(wire@ =~= big_endian(n as int) + header@);
    Ok(wire)
}

/// The length of the event that follows its four length bytes.
pub fn event_len(size: [u8; 4]) -> (r: Result<usize, Error>)
    ensures
        match r {
            Ok(n) => n == from_big_endian(size@) && 1 <= n <= MAX_HEADER,
            Err(error) => !(1 <= from_big_endian(size@) <= MAX_HEADER) && error
                == Error::HeaderLength,
        },
{
    let n: u32 = 16777216 * size[0] as u32 + 65536 * size[1] as u32 + 256 * size[2] as u32
        + size[3] as u32;
    if 1 <= n && n <= 4096 {
        Ok(n as usize)
    } else {
        Err(Error::HeaderLength)
    }
}

/// What is framed can be read back: the length bytes give exactly the bytes
/// that follow.
pub proof fn framed_messages_are_read_back(header: Seq<u8>)
    requires
        framed(header) is Ok,
    ensures
        ({
            let wire = framed(header)->Ok_0;
            let n = from_big_endian(wire.subrange(0, 4));
            &&& n == header.len()
            &&& 1 <= n <= MAX_HEADER
            &&& wire.subrange(4, 4 + n) == header
            &&& wire.len() == 4 + n
        }),
{
    let wire = framed(header)->Ok_0;
    assert(wire.subrange(0, 4) =~= big_endian(header.len() as int));
    assert(wire.subrange(4, 4 + header.len() as int) =~= header);
}

/// Why an event is refused, from its fields, if it is.
pub open spec fn event_refused(
    valid: bool,
    version: Option<u64>,
    event: bool,
    has_bytes: bool,
    bytes: Option<u64>,
) -> Option<Error> {
    if !valid {
        Some(Error::Malformed)
    } else if version != Some(VERSION as u64) {
        Some(Error::VersionMismatch)
    } else if !event {
        Some(Error::InvalidEvent)
    } else if has_bytes && bytes != Some(0u64) {
        Some(Error::UnexpectedMedia)
    } else {
        None
    }
}

/// Checks an event's fields: its version, that it has a name, and that no
/// media follows it.
pub fn check_fields(
    valid: bool,
    version: Option<u64>,
    event: bool,
    has_bytes: bool,
    bytes: Option<u64>,
) -> (r: Result<(), Error>)
    ensures
        r == match event_refused(valid, version, event, has_bytes, bytes) {
            Some(error) => Err::<(), Error>(error),
            None => Ok(()),
        },
{
    if !valid {
        return Err(Error::Malformed);
    }
    let same_version = match version {
        Some(version) => version == VERSION as u64,
        None => false,
    };
    if !same_version {
        return Err(Error::VersionMismatch);
    }
    if !event {
        return Err(Error::InvalidEvent);
    }
    let empty = match bytes {
        Some(bytes) => bytes == 0,
        None => false,
    };
    if has_bytes && !empty {
        return Err(Error::UnexpectedMedia);
    }
    Ok(())
}

/// Checks an event that was read, and gives its name.
pub fn read_event(bytes: &[u8]) -> (r: Result<String, Error>)
    ensures
        match event_refused(
            json::json_valid(bytes@),
            json::json_number(bytes@, "version"@),
            json::json_string(bytes@, "event"@) is Some,
            json::json_has(bytes@, "bytes"@),
            json::json_number(bytes@, "bytes"@),
        ) {
            Some(error) => r == Err::<String, Error>(error),
            None => r matches Ok(name) && name@ == json::json_string(bytes@, "event"@)->0,
        },
{
    let name = json::string_at(bytes, "event");
    match check_fields(
        json::is_valid(bytes),
        json::number_at(bytes, "version"),
        name.is_some(),
        json::has_key(bytes, "bytes"),
        json::number_at(bytes, "bytes"),
    ) {
        Ok(()) => match name {
            Some(name) => Ok(name),
            None => Err(Error::InvalidEvent),
        },
        Err(error) => Err(error),
    }
}

/// The header of a frame.
pub open spec fn frame_text(sequence: u64, pts_us: u64, age_us: u64, keyframe: bool, len: nat) -> Seq<char> {
    "{\"bytes\":"@ + text::decimal(len) + ",\"capture_age_us\":"@ + text::decimal(age_us as nat)
        + ",\"keyframe\":"@ + (if keyframe { "true"@ } else { "false"@ }) + ",\"pts_us\":"@
        + text::decimal(pts_us as nat) + ",\"sequence\":"@ + text::decimal(sequence as nat)
        + ",\"version\":1}"@
}

/// A frame on the wire, or why it cannot be sent.
pub open spec fn frame_wire(sequence: u64, pts_us: u64, age_us: u64, bytes: Seq<u8>) -> Result<
    Seq<u8>,
    Error,
> {
    if !(sequence > 0 && pts_us <= MAX_PTS) {
        Err(Error::SequenceOrTimestamp)
    } else if age_us > MAX_AGE {
        Err(Error::TooOld)
    } else if bytes.len() > MAX_FRAME {
        Err(Error::FrameTooLarge)
    } else {
        match encoder::inspected(bytes) {
            Err(error) => Err(Error::Encoder(error)),
            Ok(keyframe) => match framed(
                vstd::utf8::encode_utf8(frame_text(sequence, pts_us, age_us, keyframe, bytes.len())),
            ) {
                Err(error) => Err(error),
                Ok(header) => Ok(header + bytes),
            },
        }
    }
}

/// A single Annex B access unit with its header. The key flag comes from the
/// payload itself.
pub fn write_frame(sequence: u64, pts_us: u64, capture_age_us: u64, bytes: &[u8]) -> (r: Result<
    Vec<u8>,
    Error,
>)
    ensures
        seen(r) == frame_wire(sequence, pts_us, capture_age_us, bytes@),
{
    if !(sequence > 0 && pts_us <= MAX_PTS) {
        return Err(Error::SequenceOrTimestamp);
    }
    if capture_age_us > MAX_AGE {
        return Err(Error::TooOld);
    }
    if bytes.len() > MAX_FRAME {
        return Err(Error::FrameTooLarge);
    }
    let keyframe = match encoder::inspect_h264(bytes) {
        Ok(keyframe) => keyframe,
        Err(error) => return Err(Error::Encoder(error)),
    };
    let mut header = String::new();
    header.append("{\"bytes\":");
    text::push_decimal(&mut header, bytes.len() as u64);
    header.append(",\"capture_age_us\":");
    text::push_decimal(&mut header, capture_age_us);
    header.append(",\"keyframe\":");
    header.append(
        if keyframe {
            "true"
        } else {
            "false"
        },
    );
    header.append(",\"pts_us\":");
    text::push_decimal(&mut header, pts_us);
    header.append(",\"sequence\":");
    text::push_decimal(&mut header, sequence);
    header.append(",\"version\":1}");
    assert(header@ =~= frame_text(sequence, pts_us, capture_age_us, keyframe, bytes@.len()));
    let mut wire = match write_json(header.as_str().as_bytes()) {
        Ok(wire) => wire,
        Err(error) => return Err(error),
    };
    let ghost framed_header = wire@;
    wire.extend_from_slice(bytes);
    assert(wire@ =~= framed_header + bytes@);
    Ok(wire)
}

/// A sent frame carries its payload unchanged behind the header, and only what
/// can be decoded is sent.
pub proof fn frames_carry_their_payload(sequence: u64, pts_us: u64, age_us: u64, bytes: Seq<u8>)
    requires
        frame_wire(sequence, pts_us, age_us, bytes) is Ok,
    ensures
        ({
            let wire = frame_wire(sequence, pts_us, age_us, bytes)->Ok_0;
            let n = from_big_endian(wire.subrange(0, 4));
            &&& encoder::inspected(bytes) is Ok
            &&& wire.subrange(4, 4 + n) == vstd::utf8::encode_utf8(
                frame_text(
                    sequence,
                    pts_us,
                    age_us,
                    encoder::inspected(bytes)->Ok_0,
                    bytes.len(),
                ),
            )
            &&& wire.subrange(4 + n, wire.len() as int) == bytes
        }),
{
    let header = vstd::utf8::encode_utf8(
        frame_text(sequence, pts_us, age_us, encoder::inspected(bytes)->Ok_0, bytes.len()),
    );
    let front = framed(header)->Ok_0;
    let wire = front + bytes;
    framed_messages_are_read_back(header);
    assert(wire.subrange(0, 4) =~= front.subrange(0, 4));
    let n = from_big_endian(wire.subrange(0, 4));
    assert(wire.subrange(4, 4 + n) =~= front.subrange(4, 4 + n));
    assert(wire.subrange(4 + n, wire.len() as int) =~= bytes);
}

/// The command that starts discovery.
pub fn discover_command() -> (r: String)
    ensures
        r@ == "{\"command\":\"discover\",\"version\":1}"@,
{
    "{\"command\":\"discover\",\"version\":1}".to_owned()
}

/// The command that stops the receiver.
pub fn stop_command() -> (r: String)
    ensures
        r@ == "{\"command\":\"stop\",\"version\":1}"@,
{
    "{\"command\":\"stop\",\"version\":1}".to_owned()
}

/// What becomes of a helper whose frame could not be sent.
#[derive(Debug, Clone, Copy, PartialEq, Eq, Structural)]
pub enum Recovery {
    /// Kill it without stopping the receiver: a partial packet cannot be
    /// resumed on its pipe, and a fresh helper may recover the session.
    Abandon,
    /// Tell it to stop.
    Stop,
    /// It was stopped before.
    Nothing,
}

/// The helper's life as far as stopping goes.
#[derive(Debug, Clone, Copy, PartialEq, Eq, Structural)]
pub struct Helper {
    pub stopped: bool,
}

impl Helper {
    pub fn new() -> (r: Helper)
        ensures
            !r.stopped,
    {
        Helper { stopped: false }
    }

    /// Checks the first event, if one came in time.
    pub fn ready(&self, event: Option<&str>) -> (r: Result<(), Error>)
        ensures
            r == match event {
                None => Err::<(), Error>(Error::ReadyTimeout),
                Some(name) => if name@ == "ready"@ {
                    Ok(())
                } else {
                    Err(Error::NotReady)
                },
            },
    {
        match event {
            None => Err(Error::ReadyTimeout),
            Some(name) => if text::same(name, "ready") {
                Ok(())
            } else {
                Err(Error::NotReady)
            },
        }
    }

    /// Whether a stop is to be sent: only the first one is.
    pub fn stop(&mut self) -> (r: bool)
        ensures
            r == !old(self).stopped,
            final(self).stopped,
    {
        let send = !self.stopped;
        self.stopped = true;
        send
    }

    /// The helper is killed without a stop.
    pub fn abandon(&mut self)
        ensures
            final(self).stopped,
    {
        self.stopped = true;
    }

    /// A frame could not be sent; `io` tells whether the pipe failed.
    pub fn frame_failed(&mut self, io: bool) -> (r: Recovery)
        ensures
            final(self).stopped,
            r == if io {
                Recovery::Abandon
            } else if old(self).stopped {
                Recovery::Nothing
            } else {
                Recovery::Stop
            },
    {
        if io {
            self.abandon();
            Recovery::Abandon
        } else if self.stop() {
            Recovery::Stop
        } else {
            Recovery::Nothing
        }
    }
}

/// `cut` is the first character boundary that leaves at most `MAX_LOG` bytes.
pub open spec fn cut_at(bytes: Seq<u8>, cut: int) -> bool {
    let least = if bytes.len() > MAX_LOG { bytes.len() - MAX_LOG } else { 0 };
    &&& least <= cut <= bytes.len()
    &&& vstd::utf8::is_char_boundary(bytes, cut)
    &&& forall|k: int| least <= k < cut ==> !vstd::utf8::is_char_boundary(bytes, k)
}

/// Adds to the helper's log, keeping its end: at most `MAX_LOG` bytes, cut
/// between characters.
pub fn push_log(log: &mut String, more: &str)
    requires
        vstd::utf8::encode_utf8(old(log)@ + more@).len() <= usize::MAX,
    ensures
        ({
            let whole = vstd::utf8::encode_utf8(old(log)@ + more@);
            let now = vstd::utf8::encode_utf8(final(log)@);
            &&& now.len() <= MAX_LOG
            &&& exists|cut: int|
                #[trigger] cut_at(whole, cut) && now == whole.subrange(cut, whole.len() as int)
        }),
{
    log.append(more);
    let ghost whole = vstd::utf8::encode_utf8(log@);
    let n: usize = log.as_str().len();
    if n <= MAX_LOG {
        proof {
            vstd::utf8::encode_utf8_valid_utf8(log@);
            vstd::utf8::is_char_boundary_start_end_of_seq(whole);
            assert(cut_at(whole, 0));
            assert(whole.subrange(0, whole.len() as int) =~= whole);
        }
        return ;
    }
    let mut cut: usize = n - MAX_LOG;
    proof {
        vstd::utf8::encode_utf8_valid_utf8(log@);
        vstd::utf8::is_char_boundary_start_end_of_seq(whole);
    }
    while !log.as_str().is_char_boundary(cut)
        invariant
            whole == vstd::utf8::encode_utf8(log@),
            n == whole.len(),
            n > MAX_LOG,
            n - MAX_LOG <= cut <= n,
            vstd::utf8::is_char_boundary(whole, n as int),
            forall|k: int| n - MAX_LOG <= k < cut ==> !vstd::utf8::is_char_boundary(whole, k),
        decreases n - cut,
    {
        cut = cut + 1;
    }
    let rest = log.as_str().split_at(cut).1.to_owned();
    assert(cut_at(whole, cut as int));
    *log = rest;
}

/// What stands between the first colon and the comma behind it.
pub open spec fn first_value(s: Seq<char>) -> Seq<char> {
    strings::before(strings::behind(s, ':'), ',')
}

/// What follows the first value.
pub open spec fn after_value(s: Seq<char>) -> Seq<char> {
    strings::behind(strings::behind(s, ':'), ',')
}

proof fn lemma_value(key: Seq<char>, value: Seq<char>, rest: Seq<char>, s: Seq<char>)
    requires
        strings::lacks(key, ':'),
        strings::lacks(value, ','),
        s == key + seq![':'] + value + seq![','] + rest,
    ensures
        strings::before(s, ':') == key,
        first_value(s) == value,
        after_value(s) == rest,
{
    let tail = value + seq![','] + rest;
    assert(s =~= key + seq![':'] + tail);
    strings::lemma_parted(key, ':', tail);
    strings::lemma_parted(value, ',', rest);
}

/// A frame's header names its fields: the length, the age, the key flag, the
/// time and the number are read back, each from the field of that name.
pub proof fn frame_headers_are_read_back(
    sequence: u64,
    pts_us: u64,
    age_us: u64,
    keyframe: bool,
    len: nat,
)
    ensures
        ({
            let a = frame_text(sequence, pts_us, age_us, keyframe, len);
            let b = after_value(a);
            let c = after_value(b);
            let d = after_value(c);
            let e = after_value(d);
            &&& strings::before(a, ':') == "{\"bytes\""@
            &&& strings::integer_value(first_value(a)) == Some(len as int)
            &&& strings::before(b, ':') == "\"capture_age_us\""@
            &&& strings::integer_value(first_value(b)) == Some(age_us as int)
            &&& strings::before(c, ':') == "\"keyframe\""@
            &&& first_value(c) == if keyframe { "true"@ } else { "false"@ }
            &&& strings::before(d, ':') == "\"pts_us\""@
            &&& strings::integer_value(first_value(d)) == Some(pts_us as int)
            &&& strings::before(e, ':') == "\"sequence\""@
            &&& strings::integer_value(first_value(e)) == Some(sequence as int)
            &&& after_value(e) == "\"version\":1}"@
        }),
{
    let (c, m) = (seq![':'], seq![',']);
    let flag = if keyframe { "true"@ } else { "false"@ };
    let (l, a, p, s) = (
        text::decimal(len),
        text::decimal(age_us as nat),
        text::decimal(pts_us as nat),
        text::decimal(sequence as nat),
    );
    strings::signed_decimals_are_read_back(len as int);
    strings::signed_decimals_are_read_back(age_us as int);
    strings::signed_decimals_are_read_back(pts_us as int);
    strings::signed_decimals_are_read_back(sequence as int);
    assert(strings::lacks(flag, ',')) by {
        reveal_strlit("true");
        reveal_strlit("false");
    }
    let (k1, k2, k3, k4, k5, last) = (
        "{\"bytes\""@,
        "\"capture_age_us\""@,
        "\"keyframe\""@,
        "\"pts_us\""@,
        "\"sequence\""@,
        "\"version\":1}"@,
    );
    let (l1, l2, l3, l4, l5, l6) = (
        "{\"bytes\":"@,
        ",\"capture_age_us\":"@,
        ",\"keyframe\":"@,
        ",\"pts_us\":"@,
        ",\"sequence\":"@,
        ",\"version\":1}"@,
    );
    assert(l1 =~= k1 + c && strings::lacks(k1, ':')) by {
        reveal_strlit("{\"bytes\":");
        reveal_strlit("{\"bytes\"");
    }
    assert(l2 =~= m + k2 + c && strings::lacks(k2, ':')) by {
        reveal_strlit(",\"capture_age_us\":");
        reveal_strlit("\"capture_age_us\"");
    }
    assert(l3 =~= m + k3 + c && strings::lacks(k3, ':')) by {
        reveal_strlit(",\"keyframe\":");
        reveal_strlit("\"keyframe\"");
    }
    assert(l4 =~= m + k4 + c && strings::lacks(k4, ':')) by {
        reveal_strlit(",\"pts_us\":");
        reveal_strlit("\"pts_us\"");
    }
    assert(l5 =~= m + k5 + c && strings::lacks(k5, ':')) by {
        reveal_strlit(",\"sequence\":");
        reveal_strlit("\"sequence\"");
    }
    assert(l6 =~= m + last) by {
        reveal_strlit(",\"version\":1}");
        reveal_strlit("\"version\":1}");
    }
    let x5 = k5 + c + s + m + last;
    let x4 = k4 + c + p + m + x5;
    let x3 = k3 + c + flag + m + x4;
    let x2 = k2 + c + a + m + x3;
    let x1 = k1 + c + l + m + x2;
    let q2 = l1 + l;
    let q3 = q2 + l2 + a;
    let q4 = q3 + l3 + flag;
    let q5 = q4 + l4 + p;
    lemma_shift(q5, l5, s, l6);
    lemma_field(l5, k5, s, last);
    lemma_shift(q4, l4, p, m + x5);
    lemma_field(l4, k4, p, x5);
    lemma_shift(q3, l3, flag, m + x4);
    lemma_field(l3, k3, flag, x4);
    lemma_shift(q2, l2, a, m + x3);
    lemma_field(l2, k2, a, x3);
    assert(q2 + (m + x2) =~= x1);
    assert(frame_text(sequence, pts_us, age_us, keyframe, len) == x1);
    lemma_value(k5, s, last, x5);
    lemma_value(k4, p, x5, x4);
    lemma_value(k3, flag, x4, x3);
    lemma_value(k2, a, x3, x2);
    lemma_value(k1, l, x2, x1);
}

proof fn lemma_shift(q: Seq<char>, l: Seq<char>, d: Seq<char>, t: Seq<char>)
    ensures
        q + l + d + t == q + (l + (d + t)),
{
    assert(q + l + d + t =~= q + (l + (d + t)));
}

proof fn lemma_field(l: Seq<char>, key: Seq<char>, d: Seq<char>, x: Seq<char>)
    requires
        l == seq![','] + key + seq![':'],
    ensures
        l + (d + (seq![','] + x)) == seq![','] + (key + seq![':'] + d + seq![','] + x),
{
    assert(l + (d + (seq![','] + x)) =~= seq![','] + (key + seq![':'] + d + seq![','] + x));
}

/// The command that connects names the video it announces: the bitrate comes
/// first, the endpoint next, and behind it the frame rate and the height, each
/// read back from the field of that name; the width comes last.
pub proof fn connect_commands_are_read_back(
    config: VideoConfig,
    endpoint: Seq<char>,
    resume: Option<Seq<char>>,
)
    ensures
        ({
            let s = config.connect_text(endpoint, resume);
            let tail = s.skip(
                ("{\"bitrate\":"@ + text::decimal(config.bitrate as nat)
                    + ",\"command\":\"connect\",\"endpoint\":"@ + json::quoted(endpoint)).len() as int,
            );
            let rest = after_value(strings::behind(tail, ','));
            let end = ",\"version\":1,\"width\":"@ + text::decimal(config.width as nat) + "}"@;
            &&& strings::before(s, ':') == "{\"bitrate\""@
            &&& strings::integer_value(first_value(s)) == Some(config.bitrate as int)
            &&& strings::before(strings::behind(tail, ','), ':') == "\"fps\""@
            &&& strings::integer_value(first_value(strings::behind(tail, ','))) == Some(
                config.fps as int,
            )
            &&& strings::before(rest, ':') == "\"height\""@
            &&& strings::integer_value(first_value(rest)) == Some(config.height as int)
            &&& s.skip(s.len() - end.len()) == end
        }),
{
    let (r, f, h) = (
        text::decimal(config.bitrate as nat),
        text::decimal(config.fps as nat),
        text::decimal(config.height as nat),
    );
    strings::signed_decimals_are_read_back(config.bitrate as int);
    strings::signed_decimals_are_read_back(config.fps as int);
    strings::signed_decimals_are_read_back(config.height as int);
    let last = ",\"version\":1,\"width\":"@;
    let width = text::decimal(config.width as nat);
    let end = last + width + "}"@;
    let middle = match resume {
        Some(session) => ",\"resume_session\":"@ + json::quoted(session),
        None => Seq::empty(),
    };
    lemma_connect_keys();
    lemma_starts_with_comma(middle, end, resume is Some);
    let (l1, l2, l3, l4) = (
        "{\"bitrate\":"@,
        ",\"command\":\"connect\",\"endpoint\":"@,
        ",\"fps\":"@,
        ",\"height\":"@,
    );
    let head = l1 + r + l2 + json::quoted(endpoint);
    let front = head + l3 + f + l4 + h;
    lemma_ends(front, middle, last, width, "}"@);
    assert(config.connect_text(endpoint, resume) == front + (middle + end));
    lemma_connect_tail(head, l3, "\"fps\""@, f, l4, "\"height\""@, h, middle + end);
    lemma_connect_head(
        l1,
        "{\"bitrate\""@,
        r,
        l2,
        json::quoted(endpoint),
        l3 + (f + (l4 + (h + (middle + end)))),
    );
    lemma_shift(head, l3, f, l4 + (h + (middle + end)));
    lemma_shift(head + l3 + f, l4, h, middle + end);
    lemma_last_part(front, middle, end);
}

/// The names of the fields, as they stand in the command.
proof fn lemma_connect_keys()
    ensures
        "{\"bitrate\":"@ == "{\"bitrate\""@ + seq![':'],
        strings::lacks("{\"bitrate\""@, ':'),
        ",\"fps\":"@ == seq![','] + "\"fps\""@ + seq![':'],
        strings::lacks("\"fps\""@, ':'),
        ",\"height\":"@ == seq![','] + "\"height\""@ + seq![':'],
        strings::lacks("\"height\""@, ':'),
        ",\"command\":\"connect\",\"endpoint\":"@.len() > 0,
        ",\"command\":\"connect\",\"endpoint\":"@[0] == ',',
        ",\"resume_session\":"@.len() > 0,
        ",\"resume_session\":"@[0] == ',',
        ",\"version\":1,\"width\":"@.len() > 0,
        ",\"version\":1,\"width\":"@[0] == ',',
{
    assert("{\"bitrate\":"@ =~= "{\"bitrate\""@ + seq![':'] && strings::lacks(
        "{\"bitrate\""@,
        ':',
    )) by {
        reveal_strlit("{\"bitrate\":");
        reveal_strlit("{\"bitrate\"");
    }
    assert(",\"fps\":"@ =~= seq![','] + "\"fps\""@ + seq![':'] && strings::lacks(
        "\"fps\""@,
        ':',
    )) by {
        reveal_strlit(",\"fps\":");
        reveal_strlit("\"fps\"");
    }
    assert(",\"height\":"@ =~= seq![','] + "\"height\""@ + seq![':'] && strings::lacks(
        "\"height\""@,
        ':',
    )) by {
        reveal_strlit(",\"height\":");
        reveal_strlit("\"height\"");
    }
    reveal_strlit(",\"command\":\"connect\",\"endpoint\":");
    reveal_strlit(",\"resume_session\":");
    reveal_strlit(",\"version\":1,\"width\":");
}

proof fn lemma_starts_with_comma(middle: Seq<char>, end: Seq<char>, some: bool)
    requires
        some ==> middle.len() > 0 && middle[0] == ',',
        !some ==> middle.len() == 0,
        end.len() > 0,
        end[0] == ',',
    ensures
        middle + end == seq![','] + (middle + end).skip(1),
{
    assert(middle + end =~= seq![','] + (middle + end).skip(1));
}

/// The two fields behind the head are read back.
proof fn lemma_connect_tail(
    head: Seq<char>,
    l3: Seq<char>,
    k3: Seq<char>,
    f: Seq<char>,
    l4: Seq<char>,
    k4: Seq<char>,
    h: Seq<char>,
    end: Seq<char>,
)
    requires
        l3 == seq![','] + k3 + seq![':'],
        l4 == seq![','] + k4 + seq![':'],
        strings::lacks(k3, ':'),
        strings::lacks(k4, ':'),
        strings::lacks(f, ','),
        strings::lacks(h, ','),
        end == seq![','] + end.skip(1),
    ensures
        ({
            let s = head + l3 + f + l4 + h + end;
            let tail = s.skip(head.len() as int);
            let fields = strings::behind(tail, ',');
            let rest = after_value(fields);
            &&& strings::before(fields, ':') == k3
            &&& first_value(fields) == f
            &&& strings::before(rest, ':') == k4
            &&& first_value(rest) == h
        }),
{
    let (c, m) = (seq![':'], seq![',']);
    let more = end.skip(1);
    let rest = k4 + c + h + m + more;
    let fields = k3 + c + f + m + rest;
    let none = Seq::<char>::empty();
    let s = head + l3 + f + l4 + h + end;
    lemma_shift(head + l3 + f, l4, h, end);
    lemma_field(l4, k4, h, more);
    lemma_shift(head, l3, f, m + rest);
    lemma_field(l3, k3, f, rest);
    assert(s == head + (m + fields));
    assert(s.skip(head.len() as int) =~= m + fields);
    assert(m + fields =~= none + m + fields);
    strings::lemma_parted(none, ',', fields);
    lemma_value(k3, f, rest, fields);
    lemma_value(k4, h, more, rest);
}

/// The field at the start is read back.
proof fn lemma_connect_head(
    l1: Seq<char>,
    k1: Seq<char>,
    r: Seq<char>,
    l2: Seq<char>,
    e: Seq<char>,
    t: Seq<char>,
)
    requires
        l1 == k1 + seq![':'],
        strings::lacks(k1, ':'),
        strings::lacks(r, ','),
        l2.len() > 0,
        l2[0] == ',',
    ensures
        strings::before(l1 + r + l2 + e + t, ':') == k1,
        first_value(l1 + r + l2 + e + t) == r,
{
    let (c, m) = (seq![':'], seq![',']);
    let second = l2.skip(1);
    assert(l2 =~= m + second);
    let behind = second + (e + t);
    let s = l1 + r + l2 + e + t;
    lemma_shift(l1 + r, l2, e, t);
    assert(l2 + (e + t) =~= m + behind);
    assert(l1 + r + (m + behind) =~= k1 + c + r + m + behind);
    lemma_value(k1, r, behind, s);
}

proof fn lemma_last_part(front: Seq<char>, middle: Seq<char>, end: Seq<char>)
    ensures
        ({
            let s = front + (middle + end);
            s.skip(s.len() - end.len()) == end
        }),
{
    let s = front + (middle + end);
    assert(s.skip(s.len() - end.len()) =~= end);
}

proof fn lemma_ends(
    front: Seq<char>,
    middle: Seq<char>,
    a: Seq<char>,
    b: Seq<char>,
    d: Seq<char>,
)
    ensures
        front + middle + a + b + d == front + (middle + (a + b + d)),
        front + middle + a + b + d == front + middle + (a + b + d),
{
    assert(front + middle + a + b + d =~= front + (middle + (a + b + d)));
    assert(front + middle + a + b + d =~= front + middle + (a + b + d));
}

} // verus!
