//! Capture sessions: what each frame in flight asks of the compositor, and
//! what its events and pixels change.

use vstd::prelude::*;

use crate::damage;
use crate::damage::DamageBox;
use crate::decode;
use crate::frame;
use crate::frame::PixelRect;
use crate::output;
use crate::output::{Contents, Output, Outputs};
use crate::pixels;
use crate::pixels::{AlphaMode, BufferSpec, Format, Transform};
use crate::raster::RgbaImage;
use crate::rect::{CaptureTarget, Rect, Region};
use crate::text;

verus! {

/// How often a capture may fail in a row before it is given up.
pub const MAX_RETRIES: u8 = 3;

/// How a session captures.
#[derive(Debug, Clone, Copy, PartialEq, Eq, Structural)]
pub struct CaptureOptions {
    /// Paint the cursor into frames.
    pub cursor: bool,
    /// `Straight` keeps transparency, as PNG needs. Encoders that composite
    /// over black anyway (JPEG, H.264) can take `Opaque` frames.
    pub alpha: AlphaMode,
}

impl Default for CaptureOptions {
    fn default() -> (r: CaptureOptions)
        ensures
            !r.cursor,
            r.alpha == AlphaMode::Straight,
    {
        CaptureOptions { cursor: false, alpha: AlphaMode::Straight }
    }
}

/// Why the compositor gave a frame up.
#[derive(Debug, Clone, Copy, PartialEq, Eq, Structural)]
pub enum FailureReason {
    Unknown,
    BufferConstraints,
    Stopped,
    /// A reason without a name, by its protocol number.
    Other(u32),
}

/// Why a capture ended.
#[derive(Debug, Clone, Copy, PartialEq, Eq, Structural)]
pub enum Error {
    Pixels(pixels::Error),
    EmptyRegion,
    NoIdentifier,
    NoWindowCapture,
    NoWindowSource,
    WindowGone,
    OutputUnavailable,
    OutsideAllOutputs,
    NoGeometry,
    NoCapture,
    OutputDisconnected,
    SelectedDisconnected,
    NoBuffer,
    NoFormat,
    SourceGone,
    UnknownTransform,
    OutsideOutput,
    Failed(FailureReason),
    Rejected,
}

impl FailureReason {
    pub open spec fn text(self) -> Seq<char> {
        match self {
            FailureReason::Unknown => "Value(Unknown)"@,
            FailureReason::BufferConstraints => "Value(BufferConstraints)"@,
            FailureReason::Stopped => "Value(Stopped)"@,
            FailureReason::Other(n) => "Unknown("@ + text::decimal(n as nat) + ")"@,
        }
    }
}

impl Error {
    /// The words shown for the error; `output` is the output that was asked
    /// for.
    pub open spec fn text(self, output: Seq<char>) -> Seq<char> {
        match self {
            Error::Pixels(error) => error.text(),
            Error::EmptyRegion => "empty capture region"@,
            Error::NoIdentifier => "window capture requires a stable identifier"@,
            Error::NoWindowCapture => "window capture requires ext-image-copy-capture-v1"@,
            Error::NoWindowSource => "compositor does not support individual window capture"@,
            Error::WindowGone => "selected window is no longer available for capture"@,
            Error::OutputUnavailable => "selected output "@ + output + " is unavailable"@,
            Error::OutsideAllOutputs => "selected window rectangle is outside all outputs"@,
            Error::NoGeometry => "output geometry is unavailable"@,
            Error::NoCapture =>
                "screen capture requires ext-image-copy-capture-v1 or wlr-screencopy"@,
            Error::OutputDisconnected => "selected output disconnected"@,
            Error::SelectedDisconnected => "selected output was disconnected"@,
            Error::NoBuffer => "capture completed without a buffer"@,
            Error::NoFormat =>
                "capture source provides no supported shared-memory pixel format"@,
            Error::SourceGone => "selected capture source is no longer available"@,
            Error::UnknownTransform => "unknown capture transform"@,
            Error::OutsideOutput => "selected region is outside its output"@,
            Error::Failed(reason) => "screen capture failed: "@ + reason.text(),
            Error::Rejected => "screen capture failed: compositor rejected the frame"@,
        }
    }

    pub fn message(&self, output: &str) -> (r: String)
        ensures
            r@ == self.text(output@),
    {
        let mut message = String::new();
        match *self {
            Error::Pixels(error) => return error.message(),
            Error::EmptyRegion => message.append("empty capture region"),
            Error::NoIdentifier => message.append("window capture requires a stable identifier"),
            Error::NoWindowCapture => message.append(
                "window capture requires ext-image-copy-capture-v1",
            ),
            Error::NoWindowSource => message.append(
                "compositor does not support individual window capture",
            ),
            Error::WindowGone => message.append(
                "selected window is no longer available for capture",
            ),
            Error::OutputUnavailable => {
                message.append("selected output ");
                message.append(output);
                message.append(" is unavailable");
            },
            Error::OutsideAllOutputs => message.append(
                "selected window rectangle is outside all outputs",
            ),
            Error::NoGeometry => message.append("output geometry is unavailable"),
            Error::NoCapture => message.append(
                "screen capture requires ext-image-copy-capture-v1 or wlr-screencopy",
            ),
            Error::OutputDisconnected => message.append("selected output disconnected"),
            Error::SelectedDisconnected => message.append("selected output was disconnected"),
            Error::NoBuffer => message.append("capture completed without a buffer"),
            Error::NoFormat => message.append(
                "capture source provides no supported shared-memory pixel format",
            ),
            Error::SourceGone => message.append("selected capture source is no longer available"),
            Error::UnknownTransform => message.append("unknown capture transform"),
            Error::OutsideOutput => message.append("selected region is outside its output"),
            Error::Failed(reason) => {
                message.append("screen capture failed: ");
                match reason {
                    FailureReason::Unknown => message.append("Value(Unknown)"),
                    FailureReason::BufferConstraints => message.append("Value(BufferConstraints)"),
                    FailureReason::Stopped => message.append("Value(Stopped)"),
                    FailureReason::Other(n) => {
                        message.append("Unknown(");
                        text::push_decimal(&mut message, n as u64);
                        message.append(")");
                    },
                }
            },
            Error::Rejected => message.append(
                "screen capture failed: compositor rejected the frame",
            ),
        }
        message
    }
}

/// What a decoded image was made from. Updating rows in place needs an exact
/// match: a flip, a format change or another alpha mode keeps the size but
/// invalidates every pixel. Skipped damage leaves pixels outside the shown
/// area stale, so a different shown area needs a full decode as well.
#[derive(Debug, Clone, Copy, PartialEq, Eq, Structural)]
pub struct DecodeKey {
    pub spec: BufferSpec,
    pub inverted: bool,
    pub transform: Transform,
    pub alpha: AlphaMode,
    pub shown: Option<PixelRect>,
}

/// The output configuration a wlr frame was requested for. The compositor
/// copies the area it computed then and still completes a waiting frame after
/// a rotation, a larger mode or a scale change, so such a frame no longer
/// matches its output.
#[derive(Debug, Clone, Copy, PartialEq, Eq, Structural)]
pub struct WlrGeometry {
    pub transform: Transform,
    pub mode_width: u32,
    pub mode_height: u32,
    pub scale: i32,
    pub logical_width: u32,
    pub logical_height: u32,
    /// The region, clipped to the output, whose buffer is the frame.
    pub region: Option<Rect>,
}

/// The region a target selects of its output.
pub open spec fn region_of(target: CaptureTarget) -> Option<Rect> {
    match target {
        CaptureTarget::Region(region) => Some(region.rect),
        _ => None,
    }
}

/// The part of an output that a target's region keeps: nothing to clip for
/// other targets.
pub open spec fn clipped_region(output: Output, target: CaptureTarget) -> Option<Rect> {
    match region_of(target) {
        Some(rect) => rect.overlap(Rect { x: 0, y: 0, ..output.area() }),
        None => None,
    }
}

impl WlrGeometry {
    /// The configuration of an output for a target; none when the region lies
    /// outside the output.
    pub open spec fn matching(output: Output, target: CaptureTarget) -> Option<WlrGeometry> {
        if region_of(target) is Some && clipped_region(output, target) is None {
            None
        } else {
            Some(
                WlrGeometry {
                    transform: output.transform,
                    mode_width: output.mode.0,
                    mode_height: output.mode.1,
                    scale: output.scale,
                    logical_width: output.area().width,
                    logical_height: output.area().height,
                    region: clipped_region(output, target),
                },
            )
        }
    }

    pub fn of(output: &Output, target: &CaptureTarget) -> (r: Result<WlrGeometry, Error>)
        ensures
            match r {
                Ok(geometry) => WlrGeometry::matching(*output, *target) == Some(geometry),
                Err(error) => WlrGeometry::matching(*output, *target) is None && error
                    == Error::OutsideOutput,
            },
    {
        let rect = output.rect();
        let region = match target {
            CaptureTarget::Region(region) => {
                let bounds = Rect { x: 0, y: 0, width: rect.width, height: rect.height };
                match region.rect.intersect(bounds) {
                    Some(clipped) => Some(clipped),
                    None => return Err(Error::OutsideOutput),
                }
            },
            _ => None,
        };
        Ok(
            WlrGeometry {
                transform: output.transform,
                mode_width: output.mode.0,
                mode_height: output.mode.1,
                scale: output.scale,
                logical_width: rect.width,
                logical_height: rect.height,
                region,
            },
        )
    }
}

/// A shared-memory buffer that a slot holds.
#[derive(Debug, Clone, Copy, PartialEq, Eq, Structural)]
pub struct Held {
    pub spec: BufferSpec,
    /// A frame has completed into it.
    pub captured: bool,
}

/// Where a capture stands. Times are microseconds on one clock.
#[derive(Debug, Clone, Copy, PartialEq, Eq, Structural)]
pub struct SlotState {
    pub output: Option<u32>,
    /// Captured through an ext session; otherwise through wlr frames.
    pub session: bool,
    /// An ext frame is in flight.
    pub frame: bool,
    /// The number of the wlr frame in flight.
    pub wlr_frame: Option<u64>,
    pub buffer: Option<Held>,
    pub spec: Option<BufferSpec>,
    pub constraint_width: u32,
    pub constraint_height: u32,
    pub ready: bool,
    pub transform: Transform,
    pub inverted: bool,
    pub retries: u8,
    pub constraints_epoch: u64,
    pub requested_epoch: u64,
    pub await_constraints: bool,
    /// When a rejected buffer started waiting for new constraints.
    pub await_since: Option<u64>,
    /// The frame in flight copies the whole buffer: ext damages all of it, wlr
    /// uses a plain copy that does not wait for damage.
    pub refresh: bool,
    /// When a whole-buffer copy last arrived: every wlr frame, but an ext
    /// frame only on a refresh.
    pub refreshed: Option<u64>,
    /// What the decoded image was decoded from.
    pub key: Option<DecodeKey>,
    /// The next frame will likely update the image in place, so rendering
    /// copies it rather than handing it out.
    pub keep: bool,
    /// The output configuration the wlr frame was requested for.
    pub wlr_geometry: Option<WlrGeometry>,
    /// The wlr frame in flight was sent copy_with_damage.
    pub waiting_for_damage: bool,
    /// A replaced wlr frame was destroyed; its buffer stays untouched until
    /// the compositor has processed that.
    pub retiring: bool,
}

impl SlotState {
    pub open spec fn fresh(output: Option<u32>, session: bool) -> SlotState {
        SlotState {
            output,
            session,
            frame: false,
            wlr_frame: None,
            buffer: None,
            spec: None,
            constraint_width: 0,
            constraint_height: 0,
            ready: false,
            transform: Transform::Normal,
            inverted: false,
            retries: 0,
            constraints_epoch: 0,
            requested_epoch: 0,
            await_constraints: false,
            await_since: None,
            refresh: false,
            refreshed: None,
            key: None,
            keep: false,
            wlr_geometry: None,
            waiting_for_damage: false,
            retiring: false,
        }
    }

    /// A frame is in flight or being taken back.
    pub open spec fn pending(self) -> bool {
        self.frame || self.wlr_frame is Some || self.retiring
    }
}

/// The image is a buffer's bytes decoded as `key` says.
#[verifier::opaque]
pub open spec fn decoded_from(image: RgbaImage, bytes: Seq<u8>, key: DecodeKey) -> bool {
    decode::holds(image, bytes, key.spec, key.inverted, key.transform, key.alpha)
}

/// The image has the shape of a buffer decoded as `key` says.
pub open spec fn shaped(image: RgbaImage, key: DecodeKey) -> bool {
    &&& key.spec.size() is Ok
    &&& !(key.transform is Other)
    &&& image.width == decode::output_width(key.spec, key.transform)
    &&& image.height == decode::output_height(key.spec, key.transform)
}

/// One capture source with its buffer and its decoded image.
#[derive(Debug)]
pub struct Slot {
    pub state: SlotState,
    /// Formats of the constraint batch that is arriving.
    pub formats: Vec<Format>,
    /// The ext frame's damage events, in buffer pixels as sent.
    pub damage: Vec<DamageBox>,
    pub last: Option<RgbaImage>,
    /// What was read of the buffer.
    pub contents: Contents,
}

/// How long ago `then` was.
pub open spec fn elapsed(now: u64, then: u64) -> int {
    if now >= then {
        now - then
    } else {
        0
    }
}

/// A refresh is due: the last one is `interval` old, or there was none.
pub open spec fn due(refreshed: Option<u64>, now: u64, interval: u64) -> bool {
    match refreshed {
        Some(then) => elapsed(now, then) >= interval,
        None => true,
    }
}

fn is_due(refreshed: Option<u64>, now: u64, interval: u64) -> (r: bool)
    ensures
        r == due(refreshed, now, interval),
{
    match refreshed {
        Some(then) => now.saturating_sub(then) >= interval,
        None => true,
    }
}

/// An event of an ext capture session.
#[derive(Debug, Clone, Copy, PartialEq, Eq, Structural)]
pub enum SessionEvent {
    BufferSize { width: u32, height: u32 },
    ShmFormat { format: Format },
    Done,
    Stopped,
}

/// An event of an ext frame.
#[derive(Debug, Clone, Copy, PartialEq, Eq, Structural)]
pub enum FrameEvent {
    Transform { transform: Transform },
    Damage { damage: DamageBox },
    Ready,
    Failed { reason: FailureReason },
}

/// An event of a wlr frame.
#[derive(Debug, Clone, Copy, PartialEq, Eq, Structural)]
pub enum WlrEvent {
    Buffer { spec: BufferSpec },
    BufferDone,
    Flags { y_invert: bool },
    Ready,
    Failed,
}

/// What a wlr frame's event asks for.
#[derive(Debug, Clone, Copy, PartialEq, Eq, Structural)]
pub enum WlrReply {
    Nothing,
    /// Copy into the buffer; into a new one if `fresh`. With damage, only once
    /// the output changes.
    Copy { spec: BufferSpec, fresh: bool, with_damage: bool },
    Destroy,
}

/// The format to capture in: the plain 8-bit ones first, otherwise the first
/// that was offered.
pub open spec fn preferred(formats: Seq<Format>) -> Option<Format> {
    if formats.contains(Format::Xrgb8888) {
        Some(Format::Xrgb8888)
    } else if formats.contains(Format::Argb8888) {
        Some(Format::Argb8888)
    } else if formats.contains(Format::Xbgr8888) {
        Some(Format::Xbgr8888)
    } else if formats.contains(Format::Abgr8888) {
        Some(Format::Abgr8888)
    } else if formats.len() > 0 {
        Some(formats[0])
    } else {
        None
    }
}

fn offers(formats: &Vec<Format>, format: Format) -> (r: bool)
    ensures
        r == formats@.contains(format),
{
    let mut i: usize = 0;
    while i < formats.len()
        invariant
            i <= formats@.len(),
            forall|j: int| 0 <= j < i ==> formats@[j] != format,
        decreases formats@.len() - i,
    {
        if formats[i] == format {
            return true;
        }
        i = i + 1;
    }
    false
}

fn prefer(formats: &Vec<Format>) -> (r: Option<Format>)
    ensures
        r == preferred(formats@),
{
    if offers(formats, Format::Xrgb8888) {
        Some(Format::Xrgb8888)
    } else if offers(formats, Format::Argb8888) {
        Some(Format::Argb8888)
    } else if offers(formats, Format::Xbgr8888) {
        Some(Format::Xbgr8888)
    } else if offers(formats, Format::Abgr8888) {
        Some(Format::Abgr8888)
    } else if formats.len() > 0 {
        Some(formats[0])
    } else {
        None
    }
}

/// The buffer that a complete constraint batch asks for.
pub open spec fn constrained(width: u32, height: u32, formats: Seq<Format>) -> Result<
    BufferSpec,
    Error,
> {
    match preferred(formats) {
        None => Err(Error::NoFormat),
        Some(format) => match BufferSpec::unpadded(width, height, format) {
            Ok(spec) => Ok(spec),
            Err(error) => Err(Error::Pixels(error)),
        },
    }
}

pub open spec fn one_more(retries: u8) -> u8 {
    if retries < 255 {
        (retries + 1) as u8
    } else {
        255
    }
}

/// How the session's frames are made.
#[derive(Debug, Clone, Copy, PartialEq, Eq, Structural)]
pub struct Settings {
    pub cursor: bool,
    pub alpha: AlphaMode,
    /// How long a rejected buffer waits for new constraints before retrying
    /// with a fresh one.
    pub constraints_grace: u64,
    /// How often the whole buffer is copied and read again, in case damage is
    /// under-reported.
    pub refresh_interval: u64,
    /// Copy, read and decode whole frames every time.
    pub full_damage: bool,
    /// Captures are stills: no frame follows to update an image in place.
    pub still: bool,
}

impl Settings {
    /// Two seconds of grace, a refresh each second.
    pub fn new(options: CaptureOptions) -> (r: Settings)
        ensures
            r == (Settings {
                cursor: options.cursor,
                alpha: options.alpha,
                constraints_grace: 2_000_000,
                refresh_interval: 1_000_000,
                full_damage: false,
                still: false,
            }),
    {
        Settings {
            cursor: options.cursor,
            alpha: options.alpha,
            constraints_grace: 2_000_000,
            refresh_interval: 1_000_000,
            full_damage: false,
            still: false,
        }
    }
}

/// What to send for a slot.
#[derive(Debug, Clone, Copy, PartialEq, Eq, Structural)]
pub struct Request {
    /// Destroy the wlr frame that waits for damage and ask to be told when the
    /// compositor has.
    pub retire: bool,
    pub capture: Capture,
}

/// A frame to start.
#[derive(Debug, Clone, Copy, PartialEq, Eq, Structural)]
pub enum Capture {
    Nothing,
    /// An ext frame into the buffer, a new one if `fresh`; with `refresh`, all
    /// of it is marked damaged.
    Ext { spec: BufferSpec, fresh: bool, refresh: bool },
    /// A wlr frame of the output or of a part of it.
    Wlr { region: Option<Rect> },
}

/// A slot whose waiting frame has run into its refresh gives it up, and one
/// whose grace is over stops waiting for constraints.
pub open spec fn resumed(s: SlotState, settings: Settings, now: u64) -> SlotState {
    let retire = s.waiting_for_damage && due(s.refreshed, now, settings.refresh_interval);
    let expired = s.await_constraints && match s.await_since {
        Some(then) => elapsed(now, then) >= settings.constraints_grace,
        None => false,
    };
    SlotState {
        wlr_frame: if retire { None } else { s.wlr_frame },
        waiting_for_damage: s.waiting_for_damage && !retire,
        retiring: s.retiring || retire,
        await_constraints: s.await_constraints && !expired,
        ..s
    }
}

/// The slot's buffer fits `spec` and a frame has completed into it.
pub open spec fn captured_in(s: SlotState, spec: BufferSpec) -> bool {
    match s.buffer {
        Some(held) => held.spec == spec && held.captured,
        None => false,
    }
}

pub open spec fn holds_spec(s: SlotState, spec: BufferSpec) -> bool {
    match s.buffer {
        Some(held) => held.spec == spec,
        None => false,
    }
}

/// An ext slot that starts a frame.
pub open spec fn started_ext(s: SlotState, spec: BufferSpec, settings: Settings, now: u64) -> SlotState {
    SlotState {
        buffer: Some(Held { spec, captured: captured_in(s, spec) }),
        requested_epoch: s.constraints_epoch,
        refresh: settings.full_damage || !captured_in(s, spec) || due(
            s.refreshed,
            now,
            settings.refresh_interval,
        ),
        frame: true,
        ..s
    }
}

/// A wlr slot that starts frame `id`. A retry after a failure, and the
/// refresh, must not wait for damage.
pub open spec fn started_wlr(
    s: SlotState,
    geometry: WlrGeometry,
    id: u64,
    settings: Settings,
    now: u64,
) -> SlotState {
    SlotState {
        wlr_geometry: Some(geometry),
        transform: geometry.transform,
        inverted: false,
        spec: None,
        refresh: settings.full_damage || s.retries > 0 || due(
            s.refreshed,
            now,
            settings.refresh_interval,
        ),
        wlr_frame: Some(id),
        ..s
    }
}

/// The slot's state and what is sent, once frames are requested at `now`.
pub open spec fn requested(
    s: SlotState,
    target: CaptureTarget,
    outputs: Outputs,
    settings: Settings,
    id: u64,
    now: u64,
) -> Result<(SlotState, Request), Error> {
    let retire = s.waiting_for_damage && due(s.refreshed, now, settings.refresh_interval);
    let s = resumed(s, settings, now);
    if s.pending() || s.await_constraints {
        Ok((s, Request { retire, capture: Capture::Nothing }))
    } else if s.session {
        match s.spec {
            None => Ok((s, Request { retire, capture: Capture::Nothing })),
            Some(spec) => {
                let started = started_ext(s, spec, settings, now);
                Ok(
                    (
                        started,
                        Request {
                            retire,
                            capture: Capture::Ext {
                                spec,
                                fresh: !holds_spec(s, spec),
                                refresh: started.refresh,
                            },
                        },
                    ),
                )
            },
        }
    } else if s.output is None || !outputs.has(s.output->0) {
        Err(Error::OutputDisconnected)
    } else {
        match WlrGeometry::matching(outputs.output(s.output->0), target) {
            None => Err(Error::OutsideOutput),
            Some(geometry) => Ok(
                (
                    started_wlr(s, geometry, id, settings, now),
                    Request { retire, capture: Capture::Wlr { region: geometry.region } },
                ),
            ),
        }
    }
}

/// A wlr frame whose buffer is being copied: only a frame that need not
/// refresh a captured buffer waits for damage, and only from version 2 on.
pub open spec fn copying(s: SlotState, spec: BufferSpec, version: u32) -> SlotState {
    SlotState {
        buffer: Some(Held { spec, captured: captured_in(s, spec) }),
        waiting_for_damage: captured_in(s, spec) && !s.refresh && version >= 2,
        ..s
    }
}

pub open spec fn marked_captured(buffer: Option<Held>) -> Option<Held> {
    match buffer {
        Some(held) => Some(Held { captured: true, ..held }),
        None => None,
    }
}

/// The slot after an ext frame's event.
pub open spec fn after_frame_event(s: SlotState, event: FrameEvent, now: u64) -> SlotState {
    match event {
        FrameEvent::Transform { transform } => if transform is Other {
            s
        } else {
            SlotState { transform, ..s }
        },
        FrameEvent::Damage { .. } => s,
        FrameEvent::Ready => SlotState {
            ready: true,
            frame: false,
            buffer: marked_captured(s.buffer),
            ..s
        },
        FrameEvent::Failed { reason } => if reason is BufferConstraints && one_more(s.retries)
            <= MAX_RETRIES {
            SlotState {
                frame: false,
                retries: one_more(s.retries),
                buffer: None,
                // Until new constraints arrive the stale buffer is not
                // submitted again.
                await_constraints: s.requested_epoch == s.constraints_epoch,
                await_since: Some(now),
                ..s
            }
        } else {
            SlotState { frame: false, retries: one_more(s.retries), ..s }
        },
    }
}

/// The slot after an event of wlr frame `id`, and what to send. A replaced
/// frame's events change nothing.
pub open spec fn after_wlr_event(s: SlotState, id: u64, event: WlrEvent, version: u32) -> (
    SlotState,
    WlrReply,
    Option<Error>,
) {
    if s.wlr_frame != Some(id) {
        (s, WlrReply::Nothing, None)
    } else {
        match event {
            WlrEvent::Buffer { spec } => match spec.size() {
                Err(error) => (s, WlrReply::Nothing, Some(Error::Pixels(error))),
                Ok(_) => {
                    let s = SlotState { spec: Some(spec), ..s };
                    if version < 3 {
                        copied(s, version)
                    } else {
                        (s, WlrReply::Nothing, None)
                    }
                },
            },
            WlrEvent::BufferDone => copied(s, version),
            WlrEvent::Flags { y_invert } => (
                SlotState { inverted: y_invert, ..s },
                WlrReply::Nothing,
                None,
            ),
            WlrEvent::Ready => (
                SlotState {
                    ready: true,
                    wlr_frame: None,
                    waiting_for_damage: false,
                    buffer: marked_captured(s.buffer),
                    ..s
                },
                WlrReply::Destroy,
                None,
            ),
            WlrEvent::Failed => (
                SlotState {
                    wlr_frame: None,
                    waiting_for_damage: false,
                    retries: one_more(s.retries),
                    ..s
                },
                WlrReply::Destroy,
                if one_more(s.retries) > MAX_RETRIES {
                    Some(Error::Rejected)
                } else {
                    None
                },
            ),
        }
    }
}

pub open spec fn copied(s: SlotState, version: u32) -> (SlotState, WlrReply, Option<Error>) {
    match s.spec {
        None => (s, WlrReply::Nothing, Some(Error::NoFormat)),
        Some(spec) => {
            let next = copying(s, spec, version);
            (
                next,
                WlrReply::Copy {
                    spec,
                    fresh: !holds_spec(s, spec),
                    with_damage: next.waiting_for_damage,
                },
                None,
            )
        },
    }
}

impl Slot {
    /// The slot is consistent: buffers have a valid shape and all of their
    /// bytes, images are whole and have the shape that they were decoded to,
    /// and an ext frame is captured into a buffer.
    pub open spec fn wf(self) -> bool {
        &&& self.state.spec is Some ==> self.state.spec->0.size() is Ok
        &&& self.state.buffer is Some ==> self.state.buffer->0.spec.size() is Ok
            && self.contents.bytes@.len() == self.state.buffer->0.spec.size()->Ok_0
        &&& !self.state.session ==> self.state.output is Some
        &&& self.last is Some ==> self.last->0.wf()
        &&& self.last is Some && self.state.key is Some ==> shaped(
            self.last->0,
            self.state.key->0,
        )
        &&& self.state.session && self.state.frame ==> self.state.buffer is Some
        &&& self.state.session && self.state.frame && !self.state.refresh
            ==> self.state.buffer->0.captured
        &&& self.state.session && self.state.ready ==> !self.state.frame
            && self.state.buffer is Some && self.state.buffer->0.captured
        &&& forall|i: int|
            0 <= i < self.formats@.len() ==> !((#[trigger] self.formats@[i]) is Other)
    }

    /// The image of an ext slot is the decoded buffer, except while a
    /// whole-buffer copy waits to be decoded.
    pub open spec fn synced(self) -> bool {
        self.tracks() ==> self.in_step()
    }

    /// The image can be updated row by row.
    pub open spec fn tracks(self) -> bool {
        &&& self.state.session
        &&& self.last is Some
        &&& self.state.key is Some
        &&& self.state.buffer is Some
        &&& self.state.buffer->0.captured
        &&& !(self.state.refresh && self.state.ready)
    }

    /// The image is what the buffer's bytes decode to.
    pub open spec fn in_step(self) -> bool {
        decoded_from(self.last->0, self.contents.bytes@, self.state.key->0)
    }

    /// Nothing but the state differs.
    pub open spec fn keeps_data(self, other: Slot) -> bool {
        &&& self.formats@ == other.formats@
        &&& self.damage@ == other.damage@
        &&& self.last == other.last
        &&& self.contents == other.contents
    }

    /// A new slot of a source.
    pub open spec fn blank(self, output: Option<u32>, session: bool) -> bool {
        &&& self.state == SlotState::fresh(output, session)
        &&& self.formats@.len() == 0
        &&& self.damage@.len() == 0
        &&& self.last is None
        &&& self.contents.unread(0)
    }

    pub fn new(output: Option<u32>, session: bool) -> (r: Slot)
        requires
            session || output is Some,
        ensures
            r.wf(),
            r.synced(),
            r.blank(output, session),
    {
        Slot {
            state: SlotState {
                output,
                session,
                frame: false,
                wlr_frame: None,
                buffer: None,
                spec: None,
                constraint_width: 0,
                constraint_height: 0,
                ready: false,
                transform: Transform::Normal,
                inverted: false,
                retries: 0,
                constraints_epoch: 0,
                requested_epoch: 0,
                await_constraints: false,
                await_since: None,
                refresh: false,
                refreshed: None,
                key: None,
                keep: false,
                wlr_geometry: None,
                waiting_for_damage: false,
                retiring: false,
            },
            formats: Vec::new(),
            damage: Vec::new(),
            last: None,
            contents: Contents::new(0),
        }
    }

    pub fn pending(&self) -> (r: bool)
        ensures
            r == self.state.pending(),
    {
        self.state.frame || self.state.wlr_frame.is_some() || self.state.retiring
    }

    /// The slot once its image was asked for: it stays while later frames can
    /// update it in place.
    pub open spec fn handed_out(self, after: Slot) -> bool {
        &&& after.state == self.state
        &&& after.formats@ == self.formats@
        &&& after.damage@ == self.damage@
        &&& after.contents == self.contents
        &&& after.last == if self.state.keep {
            self.last
        } else {
            None
        }
    }

    /// The decoded frame: a copy while later frames can update it in place.
    pub fn image(&mut self) -> (r: RgbaImage)
        requires
            old(self).wf(),
            old(self).last is Some,
        ensures
            final(self).wf(),
            old(self).synced() ==> final(self).synced(),
            r.wf(),
            r.width == old(self).last->0.width,
            r.height == old(self).last->0.height,
            r.data@ == old(self).last->0.data@,
            old(self).handed_out(*final(self)),
    {
        if self.state.keep {
            match &self.last {
                Some(image) => {
                    let data = image.data.clone();
                    assert(data@ =~= image.data@);
                    RgbaImage { width: image.width, height: image.height, data }
                },
                None => RgbaImage::new(0, 0),
            }
        } else {
            match self.last.take() {
                Some(image) => image,
                None => RgbaImage::new(0, 0),
            }
        }
    }

    /// An event of the slot's ext session; an error ends the capture.
    pub fn session_event(&mut self, event: SessionEvent) -> (r: Option<Error>)
        requires
            old(self).wf(),
            old(self).state.constraints_epoch < u64::MAX,
        ensures
            final(self).wf(),
            old(self).synced() ==> final(self).synced(),
            final(self).damage@ == old(self).damage@,
            final(self).last == old(self).last,
            final(self).contents == old(self).contents,
            match event {
                SessionEvent::BufferSize { width, height } => {
                    &&& r is None
                    &&& final(self).formats@ == old(self).formats@
                    &&& final(self).state == (SlotState {
                        constraint_width: width,
                        constraint_height: height,
                        ..old(self).state
                    })
                },
                SessionEvent::ShmFormat { format } => {
                    &&& r is None
                    &&& final(self).state == old(self).state
                    &&& final(self).formats@ == if format is Other {
                        old(self).formats@
                    } else {
                        old(self).formats@.push(format)
                    }
                },
                SessionEvent::Done => {
                    let asked = constrained(
                        old(self).state.constraint_width,
                        old(self).state.constraint_height,
                        old(self).formats@,
                    );
                    &&& final(self).formats@.len() == 0
                    &&& final(self).state == (SlotState {
                        constraints_epoch: (old(self).state.constraints_epoch + 1) as u64,
                        await_constraints: false,
                        spec: if asked is Ok { Some(asked->Ok_0) } else { old(self).state.spec },
                        ..old(self).state
                    })
                    &&& r == if asked is Ok { None } else { Some(asked->Err_0) }
                },
                SessionEvent::Stopped => {
                    &&& r == Some(Error::SourceGone)
                    &&& final(self).state == old(self).state
                    &&& final(self).formats@ == old(self).formats@
                },
            },
            constraining((final(self).state, final(self).formats@)) == after_session_event(
                constraining((old(self).state, old(self).formats@)),
                event,
            ),
    {
        match event {
            SessionEvent::BufferSize { width, height } => {
                self.state.constraint_width = width;
                self.state.constraint_height = height;
                None
            },
            SessionEvent::ShmFormat { format } => {
                if pixels::bytes_per_pixel(format).is_some() {
                    self.formats.push(format);
                }
                None
            },
            SessionEvent::Done => {
                self.state.constraints_epoch = self.state.constraints_epoch + 1;
                self.state.await_constraints = false;
                // Each complete constraint batch replaces the previous one.
                let format = prefer(&self.formats);
                self.formats.clear();
                match format {
                    None => Some(Error::NoFormat),
                    Some(format) => {
                        let width: u32 = self.state.constraint_width;
                        let height: u32 = self.state.constraint_height;
                        match BufferSpec::packed(width, height, format) {
                            Ok(spec) => {
                                self.state.spec = Some(spec);
                                None
                            },
                            Err(error) => Some(Error::Pixels(error)),
                        }
                    },
                }
            },
            SessionEvent::Stopped => Some(Error::SourceGone),
        }
    }

    /// An event of the slot's ext frame; an error ends the capture.
    pub fn frame_event(&mut self, event: FrameEvent, now: u64) -> (r: Option<Error>)
        requires
            old(self).wf(),
            old(self).state.session,
            old(self).state.frame,
        ensures
            final(self).wf(),
            old(self).synced() ==> final(self).synced(),
            final(self).formats@ == old(self).formats@,
            final(self).last == old(self).last,
            final(self).contents == old(self).contents,
            final(self).state == after_frame_event(old(self).state, event, now),
            final(self).damage@ == match event {
                FrameEvent::Damage { damage } => old(self).damage@.push(damage),
                _ => old(self).damage@,
            },
            r == match event {
                FrameEvent::Transform { transform } => if transform is Other {
                    Some(Error::UnknownTransform)
                } else {
                    None
                },
                FrameEvent::Failed { reason } => if reason is BufferConstraints && one_more(
                    old(self).state.retries,
                ) <= MAX_RETRIES {
                    None
                } else {
                    Some(Error::Failed(reason))
                },
                _ => None,
            },
    {
        match event {
            FrameEvent::Transform { transform } => {
                if matches!(transform, Transform::Other(_)) {
                    return Some(Error::UnknownTransform);
                }
                self.state.transform = transform;
                None
            },
            FrameEvent::Damage { damage } => {
                self.damage.push(damage);
                None
            },
            FrameEvent::Ready => {
                self.state.ready = true;
                self.state.frame = false;
                if let Some(held) = self.state.buffer {
                    self.state.buffer = Some(Held { spec: held.spec, captured: true });
                }
                None
            },
            FrameEvent::Failed { reason } => {
                self.state.frame = false;
                self.state.retries = retry(self.state.retries);
                if matches!(reason, FailureReason::BufferConstraints) && self.state.retries
                    <= MAX_RETRIES {
                    self.state.buffer = None;
                    self.state.await_constraints = self.state.requested_epoch
                        == self.state.constraints_epoch;
                    self.state.await_since = Some(now);
                    None
                } else {
                    Some(Error::Failed(reason))
                }
            },
        }
    }
}

impl Slot {
    /// An event of wlr frame `id`, whose object has protocol version
    /// `version`: what to send, and an error that ends the capture.
    #[verifier::spinoff_prover]
    pub fn wlr_event(&mut self, id: u64, event: WlrEvent, version: u32) -> (r: (
        WlrReply,
        Option<Error>,
    ))
        requires
            old(self).wf(),
            !old(self).state.session,
        ensures
            final(self).wf(),
            old(self).synced() ==> final(self).synced(),
            final(self).formats@ == old(self).formats@,
            final(self).damage@ == old(self).damage@,
            final(self).last == old(self).last,
            (final(self).state, r.0, r.1) == after_wlr_event(old(self).state, id, event, version),
            r.0 matches WlrReply::Copy { fresh, spec, .. } ==> if fresh {
                final(self).contents.unread(spec.size()->Ok_0 as nat)
            } else {
                final(self).contents == old(self).contents
            },
            !(r.0 is Copy) ==> final(self).contents == old(self).contents,
    {
        let ours = match self.state.wlr_frame {
            Some(current) => current == id,
            None => false,
        };
        if !ours {
            return (WlrReply::Nothing, None);
        }
        match event {
            WlrEvent::Buffer { spec } => {
                match spec.byte_len() {
                    Ok(_) => {},
                    Err(error) => return (WlrReply::Nothing, Some(Error::Pixels(error))),
                }
                self.state.spec = Some(spec);
                if version < 3 {
                    self.copy_wlr_buffer(version)
                } else {
                    (WlrReply::Nothing, None)
                }
            },
            WlrEvent::BufferDone => self.copy_wlr_buffer(version),
            WlrEvent::Flags { y_invert } => {
                self.state.inverted = y_invert;
                (WlrReply::Nothing, None)
            },
            WlrEvent::Ready => {
                self.finish_wlr_frame();
                (WlrReply::Destroy, None)
            },
            WlrEvent::Failed => {
                let error = self.fail_wlr_frame();
                (WlrReply::Destroy, error)
            },
        }
    }

    /// The current wlr frame is complete.
    fn finish_wlr_frame(&mut self)
        requires
            old(self).wf(),
            !old(self).state.session,
        ensures
            final(self).wf(),
            old(self).synced() ==> final(self).synced(),
            final(self).keeps_data(*old(self)),
            final(self).state == (SlotState {
                ready: true,
                wlr_frame: None,
                waiting_for_damage: false,
                buffer: marked_captured(old(self).state.buffer),
                ..old(self).state
            }),
    {
        self.state.ready = true;
        self.state.wlr_frame = None;
        self.state.waiting_for_damage = false;
        if let Some(held) = self.state.buffer {
            self.state.buffer = Some(Held { spec: held.spec, captured: true });
        }
    }

    /// The current wlr frame failed; tells whether that ends the capture.
    fn fail_wlr_frame(&mut self) -> (error: Option<Error>)
        requires
            old(self).wf(),
            !old(self).state.session,
        ensures
            final(self).wf(),
            old(self).synced() ==> final(self).synced(),
            final(self).keeps_data(*old(self)),
            final(self).state == (SlotState {
                wlr_frame: None,
                waiting_for_damage: false,
                retries: one_more(old(self).state.retries),
                ..old(self).state
            }),
            error == if one_more(old(self).state.retries) > MAX_RETRIES {
                Some(Error::Rejected)
            } else {
                None
            },
    {
        self.state.wlr_frame = None;
        self.state.waiting_for_damage = false;
        // A frame waiting for damage can outlive an output change, which fails
        // it. Retry with a plain copy; only repeated failure stops the capture.
        self.state.retries = retry(self.state.retries);
        if self.state.retries > MAX_RETRIES {
            Some(Error::Rejected)
        } else {
            None
        }
    }

    /// Makes the slot's buffer fit `spec`; tells whether it is a new one.
    fn fit_buffer(&mut self, spec: BufferSpec) -> (fresh: bool)
        requires
            old(self).wf(),
            spec.size() is Ok,
            !(old(self).state.session && (old(self).state.frame || old(self).state.ready)),
        ensures
            final(self).wf(),
            old(self).synced() ==> final(self).synced(),
            fresh == !holds_spec(old(self).state, spec),
            final(self).state == (SlotState {
                buffer: Some(Held { spec, captured: captured_in(old(self).state, spec) }),
                ..old(self).state
            }),
            final(self).formats@ == old(self).formats@,
            final(self).damage@ == old(self).damage@,
            final(self).last == old(self).last,
            if fresh {
                final(self).contents.unread(spec.size()->Ok_0 as nat)
            } else {
                final(self).contents == old(self).contents
            },
    {
        if let Some(held) = self.state.buffer {
            if held.spec == spec {
                return false;
            }
        }
        let size: usize = match spec.byte_len() {
            Ok(size) => size,
            Err(_) => 0,
        };
        self.contents = Contents::new(size);
        self.state.buffer = Some(Held { spec, captured: false });
        true
    }

    /// Copies into the slot's buffer. A buffer's first capture never waits for
    /// damage: a plain copy completes on a static screen too.
    fn copy_wlr_buffer(&mut self, version: u32) -> (r: (WlrReply, Option<Error>))
        requires
            old(self).wf(),
            !old(self).state.session,
            old(self).state.wlr_frame is Some,
        ensures
            final(self).wf(),
            old(self).synced() ==> final(self).synced(),
            final(self).formats@ == old(self).formats@,
            final(self).damage@ == old(self).damage@,
            final(self).last == old(self).last,
            (final(self).state, r.0, r.1) == copied(old(self).state, version),
            r.0 matches WlrReply::Copy { fresh, spec, .. } ==> if fresh {
                final(self).contents.unread(spec.size()->Ok_0 as nat)
            } else {
                final(self).contents == old(self).contents
            },
            !(r.0 is Copy) ==> final(self).contents == old(self).contents,
    {
        let spec = match self.state.spec {
            Some(spec) => spec,
            None => return (WlrReply::Nothing, Some(Error::NoFormat)),
        };
        let fresh = self.fit_buffer(spec);
        let captured = match self.state.buffer {
            Some(held) => held.captured,
            None => false,
        };
        let with_damage = captured && !self.state.refresh && version >= 2;
        self.state.waiting_for_damage = with_damage;
        (WlrReply::Copy { spec, fresh, with_damage }, None)
    }

    /// The compositor has processed a replaced frame's destruction: its buffer
    /// is idle.
    pub fn retired(&mut self)
        requires
            old(self).wf(),
        ensures
            final(self).wf(),
            old(self).synced() ==> final(self).synced(),
            final(self).keeps_data(*old(self)),
            final(self).state == (SlotState { retiring: false, ..old(self).state }),
    {
        self.state.retiring = false;
    }

    /// The slot once it was asked for its next request, and the reply. A new
    /// frame starts without damage, and a new buffer with nothing read.
    pub open spec fn asks(
        self,
        after: Slot,
        target: CaptureTarget,
        outputs: Outputs,
        settings: Settings,
        id: u64,
        now: u64,
        r: Result<Request, Error>,
    ) -> bool {
        &&& after.formats@ == self.formats@
        &&& after.last == self.last
        &&& match requested(self.state, target, outputs, settings, id, now) {
            Ok((state, request)) => {
                &&& r == Ok::<Request, Error>(request)
                &&& after.state == state
                &&& after.damage@ == if request.capture is Ext {
                    Seq::empty()
                } else {
                    self.damage@
                }
                &&& match request.capture {
                    Capture::Ext { spec, fresh, .. } if fresh => after.contents.unread(
                        spec.size()->Ok_0 as nat,
                    ),
                    _ => after.contents == self.contents,
                }
            },
            Err(error) => {
                &&& r == Err::<Request, Error>(error)
                &&& after.state == resumed(self.state, settings, now)
                &&& after.damage@ == self.damage@
                &&& after.contents == self.contents
            },
        }
    }

    /// Decides what the slot sends next, numbering a wlr frame `id`. Completed
    /// frames are consumed first.
    pub fn request(
        &mut self,
        target: &CaptureTarget,
        outputs: &Outputs,
        settings: Settings,
        id: u64,
        now: u64,
    ) -> (r: Result<Request, Error>)
        requires
            old(self).wf(),
            outputs.wf(),
            !old(self).state.ready,
        ensures
            final(self).wf(),
            old(self).synced() ==> final(self).synced(),
            old(self).asks(*final(self), *target, *outputs, settings, id, now, r),
    {
        let mut retire = false;
        if self.state.waiting_for_damage && is_due(
            self.state.refreshed,
            now,
            settings.refresh_interval,
        ) {
            // Refresh a static or under-reported screen with a plain copy. A
            // copy that waits for damage cannot be asked again, so its frame
            // goes; until the compositor has dropped it the buffer is not used.
            self.state.wlr_frame = None;
            self.state.waiting_for_damage = false;
            self.state.retiring = true;
            retire = true;
        }
        if self.state.await_constraints {
            if let Some(then) = self.state.await_since {
                if now.saturating_sub(then) >= settings.constraints_grace {
                    // No new constraints followed the rejection: retry with a
                    // fresh buffer.
                    self.state.await_constraints = false;
                }
            }
        }
        if self.pending() || self.state.await_constraints {
            return Ok(Request { retire, capture: Capture::Nothing });
        }
        if self.state.session {
            let spec = match self.state.spec {
                Some(spec) => spec,
                None => return Ok(Request { retire, capture: Capture::Nothing }),
            };
            let fresh = self.fit_buffer(spec);
            let captured = match self.state.buffer {
                Some(held) => held.captured,
                None => false,
            };
            self.state.requested_epoch = self.state.constraints_epoch;
            // The client never writes to its buffer, so the protocol asks for
            // whole-buffer damage only on first use. Asking again now and then
            // makes a compositor that under-reports damage copy everything.
            let refresh = settings.full_damage || !captured || is_due(
                self.state.refreshed,
                now,
                settings.refresh_interval,
            );
            self.state.refresh = refresh;
            self.damage.clear();
            self.state.frame = true;
            Ok(Request { retire, capture: Capture::Ext { spec, fresh, refresh } })
        } else {
            let at: usize = match self.state.output {
                Some(output) => match outputs.find(output) {
                    Some(at) => at,
                    None => return Err(Error::OutputDisconnected),
                },
                None => return Err(Error::OutputDisconnected),
            };
            let geometry = match WlrGeometry::of(&outputs.list[at].1, target) {
                Ok(geometry) => geometry,
                Err(error) => return Err(error),
            };
            self.state.wlr_geometry = Some(geometry);
            self.state.transform = geometry.transform;
            self.state.inverted = false;
            self.state.spec = None;
            self.state.refresh = settings.full_damage || self.state.retries > 0 || is_due(
                self.state.refreshed,
                now,
                settings.refresh_interval,
            );
            self.state.wlr_frame = Some(id);
            Ok(Request { retire, capture: Capture::Wlr { region: geometry.region } })
        }
    }
}

fn retry(retries: u8) -> (r: u8)
    ensures
        r == one_more(retries),
{
    if retries < 255 {
        retries + 1
    } else {
        255
    }
}

/// A rejected buffer is retried three times in a row; the fourth rejection
/// ends the capture.
pub proof fn repeated_rejection_ends_the_capture(s: SlotState, now: u64)
    requires
        s.retries == 0,
    ensures
        ({
            let rejected = FrameEvent::Failed { reason: FailureReason::BufferConstraints };
            let once = after_frame_event(s, rejected, now);
            let twice = after_frame_event(once, rejected, now);
            let thrice = after_frame_event(twice, rejected, now);
            &&& one_more(s.retries) <= MAX_RETRIES
            &&& one_more(once.retries) <= MAX_RETRIES
            &&& one_more(twice.retries) <= MAX_RETRIES
            &&& one_more(thrice.retries) > MAX_RETRIES
        }),
{
}

/// Until new constraints arrive or the grace is over, a slot whose buffer was
/// rejected sends nothing.
pub proof fn a_rejected_buffer_waits_for_constraints(
    s: SlotState,
    target: CaptureTarget,
    outputs: Outputs,
    settings: Settings,
    id: u64,
    then: u64,
    now: u64,
)
    requires
        s.session,
        one_more(s.retries) <= MAX_RETRIES,
        s.requested_epoch == s.constraints_epoch,
        elapsed(now, then) < settings.constraints_grace,
    ensures
        ({
            let rejected = after_frame_event(
                s,
                FrameEvent::Failed { reason: FailureReason::BufferConstraints },
                then,
            );
            let asked = requested(rejected, target, outputs, settings, id, now);
            asked is Ok && (asked->Ok_0).1.capture == Capture::Nothing
        }),
{
}

/// Events of a frame that was replaced, or of none at all, change nothing and
/// send nothing.
pub proof fn a_replaced_frame_delivers_nothing(
    s: SlotState,
    id: u64,
    event: WlrEvent,
    version: u32,
)
    requires
        s.wlr_frame != Some(id),
    ensures
        after_wlr_event(s, id, event, version) == (s, WlrReply::Nothing, None::<Error>),
{
}

/// A buffer's first wlr capture never waits for damage, so it arrives on a
/// static screen too.
pub proof fn a_first_capture_never_waits_for_damage(s: SlotState, version: u32)
    requires
        s.spec is Some,
        !captured_in(s, s.spec->0),
    ensures
        copied(s, version).1 == (WlrReply::Copy {
            spec: s.spec->0,
            fresh: !holds_spec(s, s.spec->0),
            with_damage: false,
        }),
{
}

/// A frame given up for its refresh keeps the slot silent until the compositor
/// has dropped it; then the next frame is a plain copy.
pub proof fn a_refresh_waits_for_the_old_frame_and_then_copies_plainly(
    s: SlotState,
    target: CaptureTarget,
    outputs: Outputs,
    settings: Settings,
    id: u64,
    now: u64,
    later: u64,
)
    requires
        !s.session,
        !s.frame,
        !s.await_constraints,
        s.waiting_for_damage,
        due(s.refreshed, now, settings.refresh_interval),
        now <= later,
        s.output is Some,
        outputs.has(s.output->0),
        WlrGeometry::matching(outputs.output(s.output->0), target) is Some,
    ensures
        ({
            let first = requested(s, target, outputs, settings, id, now);
            let given_up = (first->Ok_0).0;
            let again = requested(given_up, target, outputs, settings, id, later);
            let idle = SlotState { retiring: false, ..given_up };
            let next = requested(idle, target, outputs, settings, id, later);
            &&& first is Ok
            &&& (first->Ok_0).1 == (Request { retire: true, capture: Capture::Nothing })
            &&& again is Ok && (again->Ok_0).1.capture == Capture::Nothing
            &&& next is Ok
            &&& (next->Ok_0).1.capture is Wlr
            &&& (next->Ok_0).0.refresh
        }),
{
}

/// The state after the events of wlr frame `id`, in order.
pub open spec fn after_wlr_events(
    s: SlotState,
    id: u64,
    events: Seq<WlrEvent>,
    version: u32,
) -> SlotState
    decreases events.len(),
{
    if events.len() == 0 {
        s
    } else {
        let before = after_wlr_events(s, id, events.drop_last(), version);
        after_wlr_event(before, id, events.last(), version).0
    }
}

/// What the last flags among the events say; without any, nothing is inverted.
pub open spec fn flagged(events: Seq<WlrEvent>) -> bool
    decreases events.len(),
{
    if events.len() == 0 {
        false
    } else {
        match events.last() {
            WlrEvent::Flags { y_invert } => y_invert,
            _ => flagged(events.drop_last()),
        }
    }
}

/// The buffer that the last offer among the events describes.
pub open spec fn offered(events: Seq<WlrEvent>) -> Option<BufferSpec>
    decreases events.len(),
{
    if events.len() == 0 {
        None
    } else {
        match events.last() {
            WlrEvent::Buffer { spec } => if spec.size() is Ok {
                Some(spec)
            } else {
                offered(events.drop_last())
            },
            _ => offered(events.drop_last()),
        }
    }
}

/// The frame has not come to its end.
pub open spec fn unfinished(events: Seq<WlrEvent>) -> bool {
    forall|i: int|
        0 <= i < events.len() ==> !((#[trigger] events[i]) is Ready) && !(events[i] is Failed)
}

/// A frame in flight goes by its own flags and offers, from its request on.
pub proof fn lemma_wlr_run(
    s: SlotState,
    geometry: WlrGeometry,
    id: u64,
    settings: Settings,
    now: u64,
    events: Seq<WlrEvent>,
    version: u32,
)
    requires
        unfinished(events),
    ensures
        ({
            let after = after_wlr_events(
                started_wlr(s, geometry, id, settings, now),
                id,
                events,
                version,
            );
            &&& after.wlr_frame == Some(id)
            &&& after.session == s.session
            &&& after.output == s.output
            &&& after.ready == s.ready
            &&& after.inverted == flagged(events)
            &&& after.transform == geometry.transform
            &&& after.wlr_geometry == Some(geometry)
            &&& after.spec == offered(events)
        }),
    decreases events.len(),
{
    if events.len() > 0 {
        let rest = events.drop_last();
        assert(unfinished(rest)) by {
            assert forall|i: int| 0 <= i < rest.len() implies !((#[trigger] rest[i]) is Ready)
                && !(rest[i] is Failed) by {
                assert(rest[i] == events[i]);
            }
        }
        lemma_wlr_run(s, geometry, id, settings, now, rest, version);
        assert(events.last() == events[events.len() - 1]);
    }
}

/// The compositor is asked to copy into the buffer that it offered last, and
/// only once it offered one.
pub proof fn copies_go_into_the_offered_buffer(
    s: SlotState,
    geometry: WlrGeometry,
    id: u64,
    settings: Settings,
    now: u64,
    events: Seq<WlrEvent>,
    event: WlrEvent,
    version: u32,
)
    requires
        unfinished(events),
    ensures
        ({
            let waiting = after_wlr_events(
                started_wlr(s, geometry, id, settings, now),
                id,
                events,
                version,
            );
            match after_wlr_event(waiting, id, event, version).1 {
                WlrReply::Copy { spec, .. } => Some(spec) == offered(events.push(event)),
                WlrReply::Destroy => event is Ready || event is Failed,
                WlrReply::Nothing => true,
            }
        }),
{
    lemma_wlr_run(s, geometry, id, settings, now, events, version);
    assert(events.push(event).drop_last() =~= events);
}

/// The state after the events of an ext frame, in order.
pub open spec fn after_frame_events(s: SlotState, events: Seq<FrameEvent>, now: u64) -> SlotState
    decreases events.len(),
{
    if events.len() == 0 {
        s
    } else {
        after_frame_event(after_frame_events(s, events.drop_last(), now), events.last(), now)
    }
}

/// The last known transform among the events; `transform` without any.
pub open spec fn told_transform(events: Seq<FrameEvent>, transform: Transform) -> Transform
    decreases events.len(),
{
    if events.len() == 0 {
        transform
    } else {
        match events.last() {
            FrameEvent::Transform { transform: t } if !(t is Other) => t,
            _ => told_transform(events.drop_last(), transform),
        }
    }
}

/// An ext frame goes by the transform that it was told last.
pub proof fn lemma_ext_run(s: SlotState, events: Seq<FrameEvent>, now: u64)
    requires
        forall|i: int|
            0 <= i < events.len() ==> !((#[trigger] events[i]) is Ready) && !(events[i] is Failed),
    ensures
        after_frame_events(s, events, now) == (SlotState {
            transform: told_transform(events, s.transform),
            ..s
        }),
    decreases events.len(),
{
    if events.len() > 0 {
        let rest = events.drop_last();
        assert forall|i: int| 0 <= i < rest.len() implies !((#[trigger] rest[i]) is Ready) && !(
        rest[i] is Failed) by {
            assert(rest[i] == events[i]);
        }
        lemma_ext_run(s, rest, now);
        assert(events.last() == events[events.len() - 1]);
    }
}

/// What the compositor has asked of a session's buffers: the size, the formats
/// of the batch that is arriving, and the buffer of the last whole batch.
pub struct Constraints {
    pub width: u32,
    pub height: u32,
    pub formats: Seq<Format>,
    pub spec: Option<BufferSpec>,
}

pub open spec fn constraining(slot: (SlotState, Seq<Format>)) -> Constraints {
    Constraints {
        width: slot.0.constraint_width,
        height: slot.0.constraint_height,
        formats: slot.1,
        spec: slot.0.spec,
    }
}

/// The constraints after an event of the session.
pub open spec fn after_session_event(c: Constraints, event: SessionEvent) -> Constraints {
    match event {
        SessionEvent::BufferSize { width, height } => Constraints { width, height, ..c },
        SessionEvent::ShmFormat { format } => if format is Other {
            c
        } else {
            Constraints { formats: c.formats.push(format), ..c }
        },
        SessionEvent::Done => Constraints {
            formats: Seq::empty(),
            spec: match constrained(c.width, c.height, c.formats) {
                Ok(spec) => Some(spec),
                Err(_) => c.spec,
            },
            ..c
        },
        SessionEvent::Stopped => c,
    }
}

/// The constraints after events in order.
pub open spec fn after_session_events(c: Constraints, events: Seq<SessionEvent>) -> Constraints
    decreases events.len(),
{
    if events.len() == 0 {
        c
    } else {
        after_session_event(after_session_events(c, events.drop_last()), events.last())
    }
}

/// One of the events offers the format.
pub open spec fn offers_format(events: Seq<SessionEvent>, format: Format) -> bool {
    exists|i: int| 0 <= i < events.len() && #[trigger] events[i] == (SessionEvent::ShmFormat {
        format,
    })
}

proof fn lemma_batch(c: Constraints, width: u32, height: u32, events: Seq<SessionEvent>)
    requires
        c.formats.len() == 0,
        forall|i: int| 0 <= i < events.len() ==> (#[trigger] events[i]) is ShmFormat,
    ensures
        ({
            let after = after_session_events(
                c,
                seq![SessionEvent::BufferSize { width, height }] + events,
            );
            &&& after.width == width
            &&& after.height == height
            &&& forall|format: Format| #[trigger]
                after.formats.contains(format) ==> offers_format(events, format) && !(
                format is Other)
            &&& forall|format: Format|
                offers_format(events, format) && !(format is Other)
                    ==> #[trigger] after.formats.contains(format)
        }),
    decreases events.len(),
{
    let size = SessionEvent::BufferSize { width, height };
    let all = seq![size] + events;
    if events.len() == 0 {
        assert(all.drop_last() =~= Seq::empty());
        assert(all.last() == size);
        assert(after_session_events(c, all.drop_last()) == c);
    } else {
        let rest = events.drop_last();
        assert forall|i: int| 0 <= i < rest.len() implies (#[trigger] rest[i]) is ShmFormat by {
            assert(rest[i] == events[i]);
        }
        lemma_batch(c, width, height, rest);
        assert(all.drop_last() =~= seq![size] + rest);
        assert(all.last() == events.last());
        let last = events[events.len() - 1];
        let before = after_session_events(c, seq![size] + rest);
        let after = after_session_events(c, all);
        assert forall|format: Format| #[trigger]
            after.formats.contains(format) implies offers_format(events, format) && !(
        format is Other) by {
            let k = choose|k: int| 0 <= k < after.formats.len() && after.formats[k] == format;
            if k < before.formats.len() {
                assert(before.formats[k] == format);
                assert(before.formats.contains(format));
                let i = choose|i: int|
                    0 <= i < rest.len() && #[trigger] rest[i] == (SessionEvent::ShmFormat {
                        format,
                    });
                assert(events[i] == rest[i]);
            } else {
                assert(last == SessionEvent::ShmFormat { format });
            }
        }
        assert forall|format: Format|
            offers_format(events, format) && !(format is Other)
                implies #[trigger] after.formats.contains(format) by {
            let i = choose|i: int|
                0 <= i < events.len() && #[trigger] events[i] == (SessionEvent::ShmFormat {
                    format,
                });
            if i < rest.len() {
                assert(rest[i] == events[i]);
                assert(before.formats.contains(format));
                let k = choose|k: int| 0 <= k < before.formats.len() && before.formats[k] == format;
                assert(after.formats[k] == format);
            } else {
                assert(after.formats[after.formats.len() - 1] == format);
            }
        }
    }
}

/// A whole batch of constraints is met: the buffer has the size that was asked
/// for and one of the formats that were offered, a plain one where there is
/// any.
pub proof fn a_batch_of_constraints_is_met(
    c: Constraints,
    width: u32,
    height: u32,
    events: Seq<SessionEvent>,
)
    requires
        c.formats.len() == 0,
        forall|i: int| 0 <= i < events.len() ==> (#[trigger] events[i]) is ShmFormat,
    ensures
        ({
            let told = after_session_events(
                c,
                seq![SessionEvent::BufferSize { width, height }] + events,
            );
            match constrained(told.width, told.height, told.formats) {
                Ok(spec) => {
                    &&& after_session_event(told, SessionEvent::Done).spec == Some(spec)
                    &&& spec.width == width
                    &&& spec.height == height
                    &&& spec.stride == width * pixels::pixel_size(spec.format)
                    &&& offers_format(events, spec.format)
                    &&& offers_format(events, Format::Xrgb8888) ==> spec.format == Format::Xrgb8888
                },
                Err(Error::NoFormat) => forall|format: Format|
                    !(format is Other) ==> !#[trigger] offers_format(events, format),
                Err(_) => true,
            }
        }),
{
    lemma_batch(c, width, height, events);
    let told = after_session_events(c, seq![SessionEvent::BufferSize { width, height }] + events);
    match preferred(told.formats) {
        Some(format) => {
            assert(told.formats.contains(format));
        },
        None => {
            assert forall|format: Format| !(format is Other) implies !#[trigger] offers_format(
                events,
                format,
            ) by {
                if offers_format(events, format) {
                    assert(told.formats.contains(format));
                }
            }
        },
    }
}

/// A wlr frame of a region copies exactly what the region holds of its output.
pub proof fn wlr_frames_copy_the_region(
    s: SlotState,
    target: CaptureTarget,
    outputs: Outputs,
    settings: Settings,
    id: u64,
    now: u64,
    x: int,
    y: int,
)
    requires
        requested(s, target, outputs, settings, id, now) matches Ok(asked)
            && asked.1.capture is Wlr,
    ensures
        ({
            let asked = requested(s, target, outputs, settings, id, now)->Ok_0;
            let area = outputs.output(s.output->0).area();
            match (asked.1.capture, target) {
                (Capture::Wlr { region: Some(part) }, CaptureTarget::Region(region)) => part.has(
                    x,
                    y,
                ) <==> region.rect.has(x, y) && 0 <= x < area.width && 0 <= y < area.height,
                (Capture::Wlr { region: Some(_) }, _) => false,
                (_, CaptureTarget::Region(_)) => false,
                _ => true,
            }
        }),
{
}

/// A wlr frame that fails is tried again three times in a row; the fourth
/// failure ends the capture.
pub proof fn repeated_wlr_failures_end_the_capture(s: SlotState, id: u64, version: u32)
    requires
        s.wlr_frame == Some(id),
    ensures
        ({
            let (after, reply, error) = after_wlr_event(s, id, WlrEvent::Failed, version);
            &&& error is Some <==> s.retries >= 3
            &&& error is Some ==> error == Some(Error::Rejected)
            &&& after.wlr_frame is None && !after.ready == !s.ready
            &&& s.retries < 255 ==> after.retries == s.retries + 1
            &&& reply == WlrReply::Destroy
        }),
{
}

/// The first ext frame into a buffer copies all of it, into the buffer that the
/// constraints ask for.
pub proof fn a_first_ext_frame_copies_everything(
    s: SlotState,
    target: CaptureTarget,
    outputs: Outputs,
    settings: Settings,
    id: u64,
    now: u64,
)
    requires
        s.session,
        requested(s, target, outputs, settings, id, now) matches Ok(asked)
            && asked.1.capture is Ext,
    ensures
        ({
            let asked = requested(s, target, outputs, settings, id, now)->Ok_0;
            match asked.1.capture {
                Capture::Ext { spec, fresh, refresh } => {
                    &&& s.spec == Some(spec)
                    &&& !captured_in(s, spec) ==> refresh
                    &&& fresh ==> refresh
                    &&& asked.0.refresh == refresh
                    &&& asked.0.frame
                    &&& asked.0.buffer matches Some(held) && held.spec == spec
                    &&& s.refreshed is None ==> refresh
                },
                _ => false,
            }
        }),
{
}

} // verus!
