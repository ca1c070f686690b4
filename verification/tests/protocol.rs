//! A compositor played by the test: it answers what a capture session asks for
//! with events, copies only what the protocols oblige it to, and time passes
//! only while nothing is queued.

use omabeam::capture::{sources, Abilities, CaptureSession, StillCapturer, Step, Work};
use omabeam::compose::compose;
use omabeam::damage::DamageBox;
use omabeam::decode::decode;
use omabeam::frame::{crop, CapturedFrame};
use omabeam::output::{row_spans, write_span, Contents, Output, OutputEvent, Outputs};
use omabeam::pixels::{self, AlphaMode, BufferSpec, Format, Transform};
use omabeam::raster::{Rgba, RgbaImage};
use omabeam::rect::{CaptureTarget, Rect, Region};
use omabeam::session::{
    Capture, CaptureOptions, Error, FailureReason, FrameEvent, Request, SessionEvent, Settings,
    WlrEvent, WlrReply,
};
use std::collections::VecDeque;

const MILLIS: u64 = 1_000;
const SECONDS: u64 = 1_000_000;
const NEVER: u64 = 3600 * SECONDS;

// Xrgb8888 colors; they decode to opaque red, green and blue.
const RED: u32 = 0x00ff0000;
const GREEN: u32 = 0x0000ff00;
const BLUE: u32 = 0x000000ff;

const LEFT: Rect = Rect {
    x: -100,
    y: 50,
    width: 100,
    height: 80,
};
const RIGHT: Rect = Rect {
    x: 0,
    y: 50,
    width: 100,
    height: 80,
};
const SIZE: (u32, u32) = (100, 80);
/// A whole 100x80 buffer (packed rows).
const WHOLE: usize = 100 * 80 * 4;
const ROW: usize = 100 * 4;
const NORMAL: Transform = Transform::Normal;

#[derive(Clone, Copy)]
struct Config {
    ext: bool,
    idle: bool,
    unsupported: bool,
    /// ext frames describe their damage (a compositor may send none).
    damage_events: bool,
    /// Every capture fails: ext as not matching the buffer constraints.
    reject: bool,
    /// The transform ext frames report.
    transform: Transform,
    wlr_version: u32,
    /// The format of capture buffers. Colors are pixels of this format.
    format: Format,
}

fn plain() -> Config {
    Config {
        ext: true,
        idle: false,
        unsupported: false,
        damage_events: true,
        reject: false,
        transform: NORMAL,
        wlr_version: 3,
        format: Format::Xrgb8888,
    }
}

fn idle() -> Config {
    Config {
        idle: true,
        ..plain()
    }
}

#[derive(Default)]
struct Stats {
    sessions: usize,
    buffers: usize,
    frames: usize,
    window_sources: usize,
    /// ext captures into a buffer's first use, each checked for full damage.
    fresh_captures: usize,
    /// ext captures into a captured buffer that the client still damaged.
    redamaged: usize,
    copies: usize,
    damage_copies: usize,
    wlr_regions: Vec<[i32; 4]>,
    /// wlr frames the client destroyed while they waited for damage.
    replaced: usize,
    /// Whether the session or the last wlr frame asked for the cursor.
    cursor: Option<bool>,
}

enum Event {
    Output(u32, OutputEvent),
    Session(usize, SessionEvent),
    Frame(usize, FrameEvent),
    Wlr(usize, u64, WlrEvent),
    Retired(usize),
}

/// The compositor's side of a slot.
struct Served {
    spec: Option<BufferSpec>,
    memory: Vec<u8>,
    /// An ext capture has filled the buffer.
    filled: bool,
    /// Screen changes since the session's last ready: the next frame's damage.
    damage: Vec<[i32; 4]>,
    /// A frame was ready, so later captures may wait for damage.
    captured: bool,
    /// The client damaged its buffer in full.
    client_damage: bool,
    /// An ext frame waits for damage.
    pending: bool,
    /// The wlr frame being served: its number and place on the screen.
    wlr: Option<(u64, [i32; 4])>,
    /// That frame waits for damage.
    waiting: bool,
}

fn inside([x, y, width, height]: [i32; 4], px: i32, py: i32) -> bool {
    px >= x && py >= y && px < x.saturating_add(width) && py < y.saturating_add(height)
}

struct Fixture {
    config: Config,
    stats: Stats,
    size: (u32, u32),
    color: u32,
    /// Rectangles painted over `color`, last on top, in buffer pixels.
    painted: Vec<([i32; 4], u32)>,
    /// Bytes of padding after each wlr buffer row.
    wlr_padding: u32,
    windows: Vec<String>,
    served: Vec<Served>,
    queue: VecDeque<Event>,
    now: u64,
    session: CaptureSession,
    error: Option<Error>,
}

fn output(name: &str, rect: Rect) -> Output {
    let mut output = Output::new();
    output.event(OutputEvent::Name { name: name.into() });
    output.event(OutputEvent::Geometry {
        x: rect.x,
        y: rect.y,
        transform: NORMAL,
    });
    output.event(OutputEvent::Mode {
        current: true,
        width: rect.width as i32,
        height: rect.height as i32,
    });
    output.event(OutputEvent::LogicalPosition {
        x: rect.x,
        y: rect.y,
    });
    output.event(OutputEvent::LogicalSize {
        width: rect.width as i32,
        height: rect.height as i32,
    });
    output
}

fn outputs() -> Outputs {
    let mut outputs = Outputs::new();
    outputs.insert(1, output("LEFT", LEFT));
    outputs.insert(2, output("RIGHT", RIGHT));
    outputs
}

impl Fixture {
    /// A compositor and a session that captures nothing yet.
    fn new(config: Config) -> Fixture {
        Fixture::with_options(config, CaptureOptions::default())
    }

    fn with_options(config: Config, options: CaptureOptions) -> Fixture {
        let target = CaptureTarget::Output("LEFT".into());
        Fixture {
            config,
            stats: Stats::default(),
            size: SIZE,
            color: RED,
            painted: Vec::new(),
            wlr_padding: 16,
            windows: vec!["stable-window".into()],
            served: Vec::new(),
            queue: VecDeque::new(),
            now: SECONDS,
            session: CaptureSession::new(target, Settings::new(options), outputs()),
            error: None,
        }
    }

    fn abilities(&self) -> Abilities {
        Abilities {
            copy: self.config.ext,
            output_source: self.config.ext,
            top_source: self.config.ext,
            wlr_copy: !self.config.ext,
        }
    }

    /// Captures `target` from now on; events of what was captured before are
    /// dropped with its objects.
    fn start(&mut self, target: CaptureTarget) -> Result<(), Error> {
        self.queue.retain(|event| matches!(event, Event::Output(..)));
        self.served.clear();
        self.session.retarget(target);
        let found = sources(
            &self.session.target,
            &self.session.outputs,
            &self.windows,
            self.abilities(),
        )?;
        self.session.add_slots(&found);
        for (i, source) in found.iter().enumerate() {
            self.served.push(Served {
                spec: None,
                memory: Vec::new(),
                filled: false,
                damage: vec![self.whole()],
                captured: false,
                client_damage: false,
                pending: false,
                wlr: None,
                waiting: false,
            });
            if source.session {
                self.stats.sessions += 1;
                self.stats.cursor = Some(self.session.settings.cursor);
                if source.output.is_none() {
                    self.stats.window_sources += 1;
                }
                self.constraints(i);
            }
        }
        self.dispatch()
    }

    fn capturing(config: Config, target: CaptureTarget) -> Fixture {
        let mut fixture = Fixture::new(config);
        fixture.start(target).unwrap();
        fixture
    }

    fn whole(&self) -> [i32; 4] {
        [0, 0, self.size.0 as i32, self.size.1 as i32]
    }

    fn constraints(&mut self, i: usize) {
        let (width, height) = self.size;
        let format = if self.config.unsupported {
            Format::Other(0x3231564e)
        } else {
            self.config.format
        };
        let events = [
            SessionEvent::BufferSize { width, height },
            SessionEvent::ShmFormat { format },
            SessionEvent::Done,
        ];
        for event in events {
            self.queue.push_back(Event::Session(i, event));
        }
    }

    fn pixel(&self, x: i32, y: i32) -> u32 {
        let painted = self.painted.iter().rev().find(|(r, _)| inside(*r, x, y));
        painted.map_or(self.color, |(_, color)| *color)
    }

    /// Writes the screen inside `rects` (buffer pixels, clipped to the buffer)
    /// and nothing else. The buffer's top left shows screen point `origin`;
    /// `invert` stores rows bottom-up.
    fn write_buffer(&mut self, i: usize, origin: (i32, i32), invert: bool, rects: &[[i32; 4]]) {
        let spec = self.served[i].spec.unwrap();
        let (width, height) = (spec.width as i32, spec.height as i32);
        for &[x, y, w, h] in rects {
            for by in y.max(0)..y.saturating_add(h).min(height) {
                let sy = origin.1 + if invert { height - 1 - by } else { by };
                for bx in x.max(0)..x.saturating_add(w).min(width) {
                    let at = by as usize * spec.stride as usize + bx as usize * 4;
                    let pixel = self.pixel(origin.0 + bx, sy).to_ne_bytes();
                    self.served[i].memory[at..at + 4].copy_from_slice(&pixel);
                }
            }
        }
    }

    fn frame(&mut self, i: usize, event: FrameEvent) {
        self.queue.push_back(Event::Frame(i, event));
    }

    fn complete(&mut self, i: usize) {
        let spec = self.served[i].spec.unwrap();
        if (spec.width, spec.height) != self.size {
            // Constraints may race a client's in-flight request. A compositor
            // rejects that buffer and permits retry after renegotiation.
            let reason = FailureReason::BufferConstraints;
            return self.frame(i, FrameEvent::Failed { reason });
        }
        let whole = self.whole();
        let served = &mut self.served[i];
        if served.filled {
            self.stats.redamaged += usize::from(served.client_damage);
        } else {
            assert!(served.client_damage, "a new buffer is damaged in full");
            self.stats.fresh_captures += 1;
        }
        served.filled = true;
        served.captured = true;
        // Only what the protocol requires is copied: client and frame damage.
        // Anything else that is shown must come from earlier frames.
        let damage = std::mem::take(&mut served.damage);
        let mut rects = damage.clone();
        if std::mem::take(&mut served.client_damage) {
            rects.push(whole);
        }
        self.write_buffer(i, (0, 0), false, &rects);
        let transform = self.config.transform;
        self.frame(i, FrameEvent::Transform { transform });
        if self.config.damage_events {
            for [x, y, width, height] in damage {
                let damage = DamageBox {
                    x,
                    y,
                    width,
                    height,
                };
                self.frame(i, FrameEvent::Damage { damage });
            }
        }
        self.frame(i, FrameEvent::Ready);
    }

    fn wlr(&mut self, i: usize, event: WlrEvent) {
        let (id, _) = self.served[i].wlr.unwrap();
        self.queue.push_back(Event::Wlr(i, id, event));
    }

    fn complete_wlr(&mut self, i: usize) {
        let (_, [x, y, width, height]) = self.served[i].wlr.unwrap();
        let spec = self.served[i].spec.unwrap();
        assert_eq!((spec.width as i32, spec.height as i32), (width, height));
        self.write_buffer(i, (x, y), true, &[[0, 0, width, height]]);
        self.served[i].waiting = false;
        self.wlr(i, WlrEvent::Flags { y_invert: true });
        self.wlr(i, WlrEvent::Ready);
    }

    fn perform(&mut self, requests: Vec<Request>) {
        for (i, request) in requests.into_iter().enumerate() {
            if request.retire {
                if self.served[i].waiting {
                    self.stats.replaced += 1;
                    self.served[i].waiting = false;
                }
                self.queue.push_back(Event::Retired(i));
            }
            match request.capture {
                Capture::Nothing => {}
                Capture::Ext {
                    spec,
                    fresh,
                    refresh,
                } => {
                    self.stats.frames += 1;
                    let served = &mut self.served[i];
                    if fresh {
                        self.stats.buffers += 1;
                        served.spec = Some(spec);
                        served.memory = vec![0; spec.byte_len().unwrap()];
                        served.filled = false;
                    }
                    assert_eq!(served.spec, Some(spec));
                    served.client_damage = fresh || refresh;
                    if self.config.reject {
                        let reason = FailureReason::BufferConstraints;
                        self.frame(i, FrameEvent::Failed { reason });
                    } else if self.config.idle && served.captured {
                        // Only a session's first frame must complete without
                        // damage.
                        served.pending = true;
                    } else {
                        self.complete(i);
                    }
                }
                Capture::Wlr { region } => {
                    self.stats.frames += 1;
                    self.stats.cursor = Some(self.session.settings.cursor);
                    let whole = self.whole();
                    let place = match region {
                        Some(r) => {
                            let region = [r.x, r.y, r.width as i32, r.height as i32];
                            self.stats.wlr_regions.push(region);
                            region
                        }
                        None => whole,
                    };
                    let [x, y, width, height] = place;
                    assert!(width > 0 && height > 0 && inside(whole, x, y));
                    assert!(x + width <= whole[2] && y + height <= whole[3]);
                    let id = self.session.slots[i].state.wlr_frame.unwrap();
                    self.served[i].wlr = Some((id, place));
                    let spec = BufferSpec {
                        width: width as u32,
                        height: height as u32,
                        // Padding, as compositors choose their stride.
                        stride: width as u32 * 4 + self.wlr_padding,
                        format: self.config.format,
                    };
                    self.wlr(i, WlrEvent::Buffer { spec });
                    if self.config.wlr_version >= 3 {
                        self.wlr(i, WlrEvent::BufferDone);
                    }
                }
            }
        }
    }

    fn copy(&mut self, i: usize, spec: BufferSpec, fresh: bool, with_damage: bool) {
        if self.config.reject {
            return self.wlr(i, WlrEvent::Failed);
        }
        assert!(!self.served[i].waiting, "a waiting frame holds the buffer");
        if fresh {
            self.stats.buffers += 1;
            self.served[i].spec = Some(spec);
            self.served[i].memory = vec![0; spec.byte_len().unwrap()];
        }
        assert_eq!(self.served[i].spec, Some(spec));
        if with_damage {
            self.stats.damage_copies += 1;
        } else {
            self.stats.copies += 1;
        }
        if with_damage && self.config.idle {
            self.served[i].waiting = true;
        } else {
            self.complete_wlr(i);
        }
    }

    fn dispatch(&mut self) -> Result<(), Error> {
        while let Some(event) = self.queue.pop_front() {
            let error = match event {
                Event::Output(id, event) => {
                    let at = self.session.outputs.find(id).unwrap();
                    self.session.outputs.list[at].1.event(event);
                    None
                }
                Event::Session(i, event) => self.session.slots[i].session_event(event),
                Event::Frame(i, event) => self.session.slots[i].frame_event(event, self.now),
                Event::Wlr(i, id, event) => {
                    let version = self.config.wlr_version;
                    let (reply, error) = self.session.slots[i].wlr_event(id, event, version);
                    if let WlrReply::Copy {
                        spec,
                        fresh,
                        with_damage,
                    } = reply
                    {
                        self.copy(i, spec, fresh, with_damage);
                    }
                    error
                }
                Event::Retired(i) => {
                    self.session.slots[i].retired();
                    None
                }
            };
            if self.error.is_none() {
                self.error = error;
            }
        }
        match self.error {
            Some(error) => Err(error),
            None => Ok(()),
        }
    }

    fn consume_ready(&mut self) -> Result<bool, Error> {
        let mut changed = false;
        for i in 0..self.session.slots.len() {
            let session = &mut self.session;
            let settings = session.settings;
            let work = session.slots[i].plan(&session.target, &session.outputs, settings);
            let slot = &mut session.slots[i];
            let work = match work {
                Ok(work) => work,
                Err(error) => {
                    slot.give_up();
                    return Err(error);
                }
            };
            match work {
                Work::Idle => {}
                Work::Stale => slot.drop_stale(),
                Work::Unchanged { keep } => slot.skip(keep, self.now),
                Work::Rows { rows, keep } => {
                    let spec = self.served[i].spec.unwrap();
                    let read: Vec<Vec<u8>> = row_spans(spec, &rows)
                        .unwrap()
                        .into_iter()
                        .map(|(start, end)| self.served[i].memory[start..end].to_vec())
                        .collect();
                    slot.update_rows(&rows, &read, keep, self.now);
                    changed = true;
                }
                Work::Whole { key, keep } => {
                    slot.update_whole(key, self.served[i].memory.clone(), keep, self.now)?;
                    changed = true;
                }
            }
        }
        Ok(changed)
    }

    fn next_frame(&mut self, timeout: u64) -> Result<Option<CapturedFrame>, Error> {
        let deadline = self.now + timeout;
        for _ in 0..100_000 {
            self.dispatch()?;
            let changed = self.consume_ready()?;
            if matches!(self.session.step(changed), Step::Render) {
                return self.session.render().map(Some);
            }
            let requests = self.session.request_frames(self.now)?;
            self.perform(requests);
            if self.now >= deadline {
                return Ok(None);
            }
            if self.queue.is_empty() {
                self.now += self.session.wait(self.now, deadline);
            }
        }
        panic!("the session makes no progress");
    }

    fn capture(&mut self) -> Result<CapturedFrame, Error> {
        let frame = self.next_frame(5 * SECONDS)?;
        Ok(frame.expect("a first frame in time"))
    }

    fn nothing_within(&mut self, timeout: u64) {
        assert!(self.next_frame(timeout).unwrap().is_none());
    }

    fn soon(&mut self) -> CapturedFrame {
        self.next_frame(SECONDS).unwrap().expect("a frame in time")
    }

    fn bytes_read(&self) -> Vec<usize> {
        let slots = self.session.slots.iter();
        slots.map(|s| s.contents.bytes_read).collect()
    }

    fn kept_images(&self) -> Vec<bool> {
        self.session.slots.iter().map(|s| s.last.is_some()).collect()
    }

    /// Completes frames that wait for damage.
    fn release(&mut self) {
        for i in 0..self.served.len() {
            if std::mem::take(&mut self.served[i].pending) {
                self.complete(i);
            }
            if self.served[i].waiting {
                self.complete_wlr(i);
            }
        }
    }

    /// The whole screen turns blue.
    fn damage(&mut self) {
        self.color = BLUE;
        self.painted.clear();
        let whole = self.whole();
        for served in &mut self.served {
            served.damage.push(whole);
        }
        self.release();
    }

    /// Paints `rect` in `color`, reports it as damage and releases frames.
    fn damage_rect(&mut self, rect: [i32; 4], color: u32) {
        self.painted.push((rect, color));
        for served in &mut self.served {
            served.damage.push(rect);
        }
        self.release();
    }

    fn reject_buffer(&mut self) {
        for i in 0..self.served.len() {
            if std::mem::take(&mut self.served[i].pending) {
                let reason = FailureReason::BufferConstraints;
                self.frame(i, FrameEvent::Failed { reason });
            }
            if std::mem::take(&mut self.served[i].waiting) {
                self.wlr(i, WlrEvent::Failed);
            }
        }
    }

    fn resize(&mut self) {
        self.size = (60, 40);
        for i in 0..self.served.len() {
            self.served[i].damage = vec![self.whole()];
            if self.config.ext {
                self.constraints(i);
            }
        }
        self.reject_buffer();
    }

    fn stop(&mut self) {
        for i in 0..self.served.len() {
            self.queue.push_back(Event::Session(i, SessionEvent::Stopped));
        }
    }

    fn reconfigured(&mut self) {
        for i in 0..self.served.len() {
            if self.served[i].waiting {
                self.complete_wlr(i);
            }
        }
    }

    fn rotate(&mut self, ids: &[(u32, Rect)]) {
        for &(id, rect) in ids {
            let (x, y) = (rect.x, rect.y);
            let transform = Transform::_90;
            let (width, height) = (rect.height as i32, rect.width as i32);
            let geometry = OutputEvent::Geometry { x, y, transform };
            self.queue.push_back(Event::Output(id, geometry));
            let size = OutputEvent::LogicalSize { width, height };
            self.queue.push_back(Event::Output(id, size));
        }
        self.reconfigured();
    }

    fn grow(&mut self) {
        self.size = (120, 90);
        let (width, height) = (120, 90);
        for id in [1, 2] {
            let current = true;
            let mode = OutputEvent::Mode {
                current,
                width,
                height,
            };
            self.queue.push_back(Event::Output(id, mode));
            let size = OutputEvent::LogicalSize { width, height };
            self.queue.push_back(Event::Output(id, size));
        }
        self.reconfigured();
    }

    fn scale(&mut self) {
        for id in [1, 2] {
            let scale = OutputEvent::Scale { factor: 2 };
            self.queue.push_back(Event::Output(id, scale));
            let (width, height) = (50, 40);
            let size = OutputEvent::LogicalSize { width, height };
            self.queue.push_back(Event::Output(id, size));
        }
        self.reconfigured();
    }
}

/// The screen as a client decodes it: `background` with `painted` on top,
/// stored with `transform` applied.
fn expected(
    (width, height): (u32, u32),
    background: u32,
    painted: &[([i32; 4], u32)],
    transform: Transform,
) -> RgbaImage {
    let spec = BufferSpec::packed(width, height, Format::Xrgb8888).unwrap();
    let mut bytes = Vec::new();
    for y in 0..height as i32 {
        for x in 0..width as i32 {
            let top = painted.iter().rev().find(|(r, _)| inside(*r, x, y));
            bytes.extend(top.map_or(background, |(_, color)| *color).to_ne_bytes());
        }
    }
    decode(&bytes, spec, false, transform).unwrap()
}

fn assert_image(actual: &RgbaImage, expected: &RgbaImage) {
    assert_eq!(actual.dimensions(), expected.dimensions(), "image size");
    for y in 0..actual.height {
        for x in 0..actual.width {
            let (a, e) = (actual.get_pixel(x, y), expected.get_pixel(x, y));
            assert_eq!(a, e, "pixel ({x}, {y})");
        }
    }
}

fn rgba(r: u8, g: u8, b: u8, a: u8) -> Rgba {
    Rgba { r, g, b, a }
}

fn left() -> CaptureTarget {
    CaptureTarget::Output("LEFT".into())
}

fn window() -> CaptureTarget {
    CaptureTarget::Toplevel("stable-window".into())
}

fn rect(x: i32, y: i32, width: u32, height: u32) -> Rect {
    Rect {
        x,
        y,
        width,
        height,
    }
}

fn region(output: &str, rect: Rect) -> CaptureTarget {
    CaptureTarget::Region(Region {
        output: output.into(),
        rect,
    })
}

fn desktop() -> Rect {
    rect(-25, 60, 50, 20)
}

#[test]
fn ext_capture_reuses_session_and_buffer_and_preserves_pending_idle_frame() {
    let mut fixture = Fixture::capturing(idle(), left());
    assert_eq!(
        fixture.capture().unwrap().image.get_pixel(0, 0),
        rgba(255, 0, 0, 255)
    );
    fixture.nothing_within(20 * MILLIS);
    fixture.nothing_within(20 * MILLIS);
    assert_eq!(fixture.stats.sessions, 1);
    assert_eq!(fixture.stats.buffers, 1);
    assert_eq!(fixture.stats.frames, 2);
    fixture.damage();
    assert_eq!(
        fixture.soon().image.get_pixel(0, 0),
        rgba(0, 0, 255, 255)
    );
}

#[test]
fn captures_true_window_and_reallocates_on_resize() {
    let mut fixture = Fixture::capturing(plain(), window());
    assert_eq!(fixture.capture().unwrap().image.dimensions(), (100, 80));
    fixture.resize();
    assert_eq!(fixture.soon().image.dimensions(), (60, 40));
    assert_eq!(fixture.stats.window_sources, 1);
    assert_eq!(fixture.stats.buffers, 2);
}

#[test]
fn capture_source_stop_returns_error_without_fallback() {
    let mut fixture = Fixture::capturing(plain(), window());
    fixture.capture().unwrap();
    fixture.stop();
    let error = fixture.next_frame(SECONDS).unwrap_err();
    assert!(error.message("").contains("no longer available"));
    assert_eq!(fixture.stats.sessions, 1);
}

#[test]
fn wlr_fallback_captures_region_and_reuses_buffer() {
    let config = Config {
        ext: false,
        ..plain()
    };
    let mut fixture = Fixture::capturing(config, region("LEFT", rect(10, 20, 30, 40)));
    for _ in 0..3 {
        assert_eq!(fixture.capture().unwrap().image.dimensions(), (30, 40));
    }
    assert_eq!(fixture.stats.buffers, 1);
}

#[test]
fn unsupported_window_and_pixel_formats_fail_explicitly() {
    let mut fixture = Fixture::new(Config {
        ext: false,
        ..plain()
    });
    assert_eq!(fixture.start(window()), Err(Error::NoWindowCapture));
    let mut fixture = Fixture::new(Config {
        unsupported: true,
        ..plain()
    });
    assert_eq!(fixture.start(left()), Err(Error::NoFormat));
}

#[test]
fn composes_a_desktop_rectangle_across_two_ext_output_sessions() {
    let mut fixture = Fixture::capturing(plain(), CaptureTarget::DesktopRect(desktop()));
    let frame = fixture.capture().unwrap();
    assert_eq!(frame.image.dimensions(), (50, 20));
    for y in 0..20 {
        for x in 0..50 {
            assert_eq!(frame.image.get_pixel(x, y), rgba(255, 0, 0, 255));
        }
    }
    assert_eq!(fixture.stats.sessions, 2);
}

#[test]
fn buffer_rejection_waits_for_new_constraints_before_retrying() {
    let mut fixture = Fixture::capturing(idle(), window());
    fixture.capture().unwrap();
    fixture.nothing_within(20 * MILLIS);
    fixture.reject_buffer();
    fixture.nothing_within(20 * MILLIS);
    assert_eq!(fixture.stats.frames, 2, "no stale-buffer retries");
    fixture.resize();
    fixture.config.idle = false;
    assert_eq!(fixture.soon().image.dimensions(), (60, 40));
    assert_eq!(fixture.stats.buffers, 2);
}

#[test]
fn stalled_buffer_constraints_retry_with_a_fresh_buffer_after_the_grace() {
    let mut fixture = Fixture::capturing(idle(), left());
    fixture.session.settings.constraints_grace = 250 * MILLIS;
    fixture.capture().unwrap();
    fixture.nothing_within(20 * MILLIS);
    // The waiting frame's buffer is rejected, but no new constraints follow.
    fixture.reject_buffer();
    fixture.nothing_within(20 * MILLIS);
    assert_eq!(
        (fixture.stats.frames, fixture.stats.buffers),
        (2, 1),
        "no retry yet"
    );
    fixture.config.idle = false;
    let frame = fixture
        .next_frame(2 * SECONDS)
        .unwrap()
        .expect("a retry after the grace");
    assert_image(&frame.image, &expected(SIZE, RED, &[], NORMAL));
    assert_eq!(
        (fixture.stats.frames, fixture.stats.buffers),
        (3, 2),
        "one fresh buffer"
    );
}

#[test]
fn repeated_buffer_rejection_fails_the_capture_instead_of_freezing() {
    let config = Config {
        reject: true,
        ..plain()
    };
    let mut fixture = Fixture::capturing(config, left());
    fixture.session.settings.constraints_grace = 20 * MILLIS;
    let started = fixture.now;
    let error = fixture.capture().unwrap_err();
    assert!(error.message("").contains("BufferConstraints"));
    assert!(fixture.now - started < 2 * SECONDS);
    // The first attempt and three retries, each with a fresh buffer.
    assert_eq!((fixture.stats.frames, fixture.stats.buffers), (4, 4));
}

#[test]
fn ext_damage_updates_only_the_damaged_rows_of_a_reused_buffer() {
    let mut fixture = Fixture::capturing(idle(), left());
    fixture.session.settings.refresh_interval = NEVER;
    assert_image(
        &fixture.capture().unwrap().image,
        &expected(SIZE, RED, &[], NORMAL),
    );
    assert_eq!(fixture.bytes_read(), [WHOLE]);
    fixture.nothing_within(20 * MILLIS);
    let spot = [20, 30, 10, 5];
    fixture.damage_rect(spot, GREEN);
    let frame = fixture.soon();
    // Only the damage was copied: old pixels outside came from the client.
    assert_image(&frame.image, &expected(SIZE, RED, &[(spot, GREEN)], NORMAL));
    assert_eq!(fixture.bytes_read(), [WHOLE + 5 * ROW], "rows 30..35");
    assert_eq!(fixture.kept_images(), [true], "for the next row update");
    assert_eq!(
        (fixture.stats.fresh_captures, fixture.stats.redamaged),
        (1, 0),
        "full buffer damage only on first use"
    );
}

#[test]
fn ext_whole_frame_damage_hands_the_image_out_instead_of_copying_it() {
    let mut fixture = Fixture::capturing(idle(), left());
    fixture.session.settings.refresh_interval = NEVER;
    fixture.capture().unwrap();
    // The first frame's full damage is required, so it says nothing yet.
    assert_eq!(fixture.kept_images(), [true]);
    fixture.nothing_within(20 * MILLIS);
    fixture.damage();
    let frame = fixture.soon();
    assert_image(&frame.image, &expected(SIZE, BLUE, &[], NORMAL));
    assert_eq!(fixture.kept_images(), [false], "no copy per frame");
}

#[test]
fn ext_damage_reaching_outside_the_buffer_is_clipped() {
    let mut fixture = Fixture::capturing(idle(), left());
    fixture.session.settings.refresh_interval = NEVER;
    fixture.capture().unwrap();
    fixture.nothing_within(20 * MILLIS);
    // Over-reported damage: columns -10..20 and rows 70..120 of a 100x80 buffer.
    let spot = [-10, 70, 30, 50];
    fixture.damage_rect(spot, GREEN);
    let frame = fixture.soon();
    assert_image(&frame.image, &expected(SIZE, RED, &[(spot, GREEN)], NORMAL));
    assert_eq!(fixture.bytes_read(), [WHOLE + 10 * ROW], "rows 70..80");
}

#[test]
fn ext_ready_without_damage_events_refreshes_the_whole_frame() {
    let config = Config {
        damage_events: false,
        ..idle()
    };
    let mut fixture = Fixture::capturing(config, left());
    fixture.session.settings.refresh_interval = NEVER;
    fixture.capture().unwrap();
    fixture.nothing_within(20 * MILLIS);
    let spot = [20, 30, 10, 5];
    fixture.damage_rect(spot, GREEN);
    let frame = fixture.soon();
    assert_image(&frame.image, &expected(SIZE, RED, &[(spot, GREEN)], NORMAL));
    assert_eq!(fixture.bytes_read(), [2 * WHOLE]);
    assert_eq!(fixture.stats.redamaged, 0);
}

#[test]
fn ext_region_and_desktop_rect_skip_damage_they_do_not_show() {
    let part = rect(10, 20, 30, 40);
    for (of_desktop, sessions) in [(false, 1), (true, 2)] {
        let target = if of_desktop {
            CaptureTarget::DesktopRect(desktop())
        } else {
            region("LEFT", part)
        };
        let mut fixture = Fixture::capturing(idle(), target);
        fixture.session.settings.refresh_interval = NEVER;
        fixture.capture().unwrap();
        fixture.nothing_within(20 * MILLIS);
        let read = fixture.bytes_read();
        // In rows the target shows, but in columns outside the region and
        // outside both outputs' parts of the rectangle.
        let outside = [60, 25, 10, 10];
        fixture.damage_rect(outside, GREEN);
        fixture.nothing_within(100 * MILLIS);
        assert_eq!(fixture.bytes_read(), read, "desktop {of_desktop}");
        assert_eq!(
            fixture.stats.frames,
            3 * sessions,
            "desktop {of_desktop} requested the next frame"
        );
        let shown = [15, 25, 5, 5];
        fixture.damage_rect(shown, BLUE);
        let frame = fixture.soon();
        let full = expected(SIZE, RED, &[(outside, GREEN), (shown, BLUE)], NORMAL);
        let want = if of_desktop {
            compose(&[(&full, LEFT), (&full, RIGHT)], desktop())
        } else {
            crop(&full, LEFT, part)
        };
        assert_image(&frame.image, &want.unwrap().image);
    }
}

#[test]
fn ext_rotated_frames_with_partial_damage_match_a_full_decode() {
    let transform = Transform::_90;
    let config = Config {
        transform,
        ..idle()
    };
    let mut fixture = Fixture::capturing(config, left());
    fixture.session.settings.refresh_interval = NEVER;
    let first = fixture.capture().unwrap();
    assert_image(&first.image, &expected(SIZE, RED, &[], transform));
    fixture.nothing_within(20 * MILLIS);
    let spot = [20, 30, 10, 5];
    fixture.damage_rect(spot, GREEN);
    let frame = fixture.soon();
    assert_image(
        &frame.image,
        &expected(SIZE, RED, &[(spot, GREEN)], transform),
    );
    // Only untransformed buffers are updated row by row.
    assert_eq!(fixture.bytes_read(), [2 * WHOLE]);
}

#[test]
fn ext_transform_change_at_the_same_size_decodes_in_full() {
    let flipped = Transform::Flipped180;
    let part = rect(10, 20, 30, 40);
    // Regions keep their image, so a change into Normal with partial damage
    // reaches the decode key.
    for of_region in [false, true] {
        for (before, after) in [(NORMAL, flipped), (flipped, NORMAL)] {
            let mut fixture = Fixture::new(Config {
                transform: before,
                ..idle()
            });
            // Asymmetric content inside the region's rows either way up, so
            // a stale orientation cannot pass unnoticed.
            let band = [0, 22, 100, 4];
            fixture.damage_rect(band, BLUE);
            let target = if of_region {
                region("LEFT", part)
            } else {
                left()
            };
            fixture.start(target).unwrap();
            fixture.session.settings.refresh_interval = NEVER;
            let shown = |full: RgbaImage| {
                if of_region {
                    crop(&full, LEFT, part).unwrap().image
                } else {
                    full
                }
            };
            let first = fixture.capture().unwrap();
            let want = shown(expected(SIZE, RED, &[(band, BLUE)], before));
            assert_image(&first.image, &want);
            fixture.nothing_within(20 * MILLIS);
            fixture.config.transform = after;
            let spot = [20, 30, 10, 5];
            fixture.damage_rect(spot, GREEN);
            let frame = fixture.soon();
            let painted = [(band, BLUE), (spot, GREEN)];
            let want = shown(expected(SIZE, RED, &painted, after));
            assert_image(&frame.image, &want);
        }
    }
}

#[test]
fn ext_new_buffer_after_resize_gets_full_damage_then_partial_updates() {
    let mut fixture = Fixture::capturing(idle(), window());
    fixture.session.settings.refresh_interval = NEVER;
    fixture.capture().unwrap();
    fixture.nothing_within(20 * MILLIS);
    fixture.resize();
    fixture.nothing_within(50 * MILLIS);
    let size = (60, 40);
    let first = [0, 0, 10, 10];
    fixture.damage_rect(first, GREEN);
    let frame = fixture.soon();
    assert_image(
        &frame.image,
        &expected(size, RED, &[(first, GREEN)], NORMAL),
    );
    fixture.nothing_within(20 * MILLIS);
    let second = [5, 20, 10, 5];
    fixture.damage_rect(second, BLUE);
    let frame = fixture.soon();
    let painted = [(first, GREEN), (second, BLUE)];
    assert_image(&frame.image, &expected(size, RED, &painted, NORMAL));
    // The new buffer was read in full once, then only rows 20..25.
    assert_eq!(fixture.bytes_read(), [60 * 40 * 4 + 5 * 60 * 4]);
    assert_eq!(fixture.stats.buffers, 2);
    assert_eq!(
        (fixture.stats.fresh_captures, fixture.stats.redamaged),
        (2, 0)
    );
}

#[test]
fn ext_safety_refresh_and_escape_hatch_recopy_and_reread_whole_frames() {
    for escape in [false, true] {
        let mut fixture = Fixture::capturing(idle(), left());
        if escape {
            fixture.session.settings.full_damage = true;
        } else {
            fixture.session.settings.refresh_interval = 0;
        }
        fixture.capture().unwrap();
        fixture.nothing_within(20 * MILLIS);
        let spot = [20, 30, 10, 5];
        fixture.damage_rect(spot, GREEN);
        let frame = fixture.soon();
        assert_image(&frame.image, &expected(SIZE, RED, &[(spot, GREEN)], NORMAL));
        assert_eq!(fixture.bytes_read(), [2 * WHOLE], "escape {escape}");
        // Whole frames every time need no image kept for row updates.
        assert_eq!(fixture.kept_images(), [!escape], "escape {escape}");
        // The reused buffer was damaged in full again, so all of it was copied.
        assert_eq!(fixture.stats.redamaged, 1, "escape {escape}");
    }
}

fn wlr() -> Config {
    Config {
        ext: false,
        ..idle()
    }
}

#[test]
fn wlr_regions_capture_only_the_clipped_rectangle_without_cropping() {
    let spot = [10, 20, 5, 5];
    for (part, clipped) in [
        (rect(10, 20, 30, 40), [10, 20, 30, 40]),
        (rect(90, 70, 30, 40), [90, 70, 10, 10]),
    ] {
        let mut fixture = Fixture::new(Config {
            ext: false,
            ..plain()
        });
        fixture.damage_rect(spot, GREEN);
        fixture.start(region("LEFT", part)).unwrap();
        let frame = fixture.capture().unwrap();
        assert_eq!(fixture.stats.wlr_regions, [clipped]);
        let full = expected(SIZE, RED, &[(spot, GREEN)], NORMAL);
        let want = crop(&full, LEFT, part).unwrap();
        assert_eq!(
            (frame.logical_width, frame.logical_height),
            (want.logical_width, want.logical_height)
        );
        assert_image(&frame.image, &want.image);
    }
}

#[test]
fn wlr_copy_with_damage_waits_for_damage_after_a_prompt_first_frame() {
    let part = rect(10, 20, 30, 40);
    let mut fixture = Fixture::capturing(wlr(), region("LEFT", part));
    // The refresh (tested separately) must not replace the waiting frame.
    fixture.session.settings.refresh_interval = NEVER;
    // A plain copy completes the first frame of a static screen.
    fixture.capture().unwrap();
    for _ in 0..2 {
        fixture.nothing_within(20 * MILLIS);
    }
    let stats = &fixture.stats;
    assert_eq!(
        (stats.frames, stats.copies, stats.damage_copies),
        (2, 1, 1),
        "one frame waits for damage"
    );
    let spot = [15, 25, 5, 5];
    fixture.damage_rect(spot, GREEN);
    let frame = fixture.soon();
    let full = expected(SIZE, RED, &[(spot, GREEN)], NORMAL);
    assert_image(&frame.image, &crop(&full, LEFT, part).unwrap().image);
}

#[test]
fn wlr_without_copy_with_damage_or_with_the_escape_hatch_keeps_plain_copy() {
    for (version, escape) in [(1, false), (2, false), (3, false), (3, true)] {
        let config = Config {
            wlr_version: version,
            ..wlr()
        };
        let mut fixture = Fixture::capturing(config, left());
        fixture.session.settings.full_damage = escape;
        fixture.session.settings.refresh_interval = NEVER;
        fixture.capture().unwrap();
        let second = fixture.next_frame(50 * MILLIS).unwrap();
        let stats = &fixture.stats;
        let case = format!("version {version}, escape {escape}");
        if version == 1 || escape {
            assert!(second.is_some(), "{case}: a plain copy completes at once");
            assert_eq!((stats.copies, stats.damage_copies), (2, 0), "{case}");
        } else {
            assert!(second.is_none(), "{case}: waits for damage");
            assert_eq!((stats.copies, stats.damage_copies), (1, 1), "{case}");
        }
    }
}

#[test]
fn wlr_frames_failed_while_waiting_retry_with_a_plain_copy() {
    // For example a smaller mode or a rotation while the screen is static.
    for resize in [false, true] {
        let mut fixture = Fixture::capturing(wlr(), left());
        fixture.session.settings.refresh_interval = NEVER;
        fixture.capture().unwrap();
        fixture.nothing_within(20 * MILLIS);
        if resize {
            fixture.resize();
        } else {
            fixture.reject_buffer();
        }
        // A plain copy completes without new damage.
        let frame = fixture.soon();
        let size = if resize { (60, 40) } else { SIZE };
        assert_image(&frame.image, &expected(size, RED, &[], NORMAL));
        let stats = &fixture.stats;
        assert_eq!((stats.frames, stats.copies, stats.damage_copies), (3, 2, 1));
    }
    // A compositor that keeps failing frames still stops the capture.
    let config = Config {
        ext: false,
        reject: true,
        ..plain()
    };
    let mut fixture = Fixture::capturing(config, left());
    let error = fixture.capture().unwrap_err();
    assert!(error.message("").contains("compositor rejected the frame"));
    assert_eq!(fixture.stats.frames, 4);
}

#[test]
fn wlr_new_buffers_start_with_a_plain_copy() {
    let mut fixture = Fixture::capturing(wlr(), left());
    // Not the refresh: a new buffer alone must not wait for damage.
    fixture.session.settings.refresh_interval = NEVER;
    fixture.capture().unwrap();
    fixture.nothing_within(20 * MILLIS);
    // Same picture and configuration, but later frames need a new buffer.
    fixture.wlr_padding = 32;
    let spot = [15, 25, 5, 5];
    fixture.damage_rect(spot, GREEN);
    let want = expected(SIZE, RED, &[(spot, GREEN)], NORMAL);
    assert_image(&fixture.soon().image, &want);
    // The static screen's next frame goes into the new buffer: a plain copy.
    assert_image(&fixture.soon().image, &want);
    assert_eq!(fixture.stats.buffers, 2);
    assert_eq!((fixture.stats.copies, fixture.stats.damage_copies), (2, 1));
}

#[test]
fn wlr_frames_that_waited_across_an_output_change_are_dropped() {
    for rotate in [true, false] {
        let mut fixture = Fixture::new(wlr());
        // Asymmetric content shows the orientation.
        let spot = [0, 0, 10, 10];
        fixture.damage_rect(spot, BLUE);
        fixture.start(left()).unwrap();
        fixture.session.settings.refresh_interval = NEVER;
        fixture.capture().unwrap();
        fixture.nothing_within(20 * MILLIS);
        if rotate {
            fixture.rotate(&[(1, LEFT), (2, RIGHT)]);
        } else {
            fixture.grow();
        }
        // The waiting frame completes with the area it was requested for; it
        // must not be published as the new configuration.
        let frame = fixture.soon();
        let (size, transform, logical) = if rotate {
            (SIZE, Transform::_90, (80, 100))
        } else {
            ((120, 90), NORMAL, (120, 90))
        };
        let want = expected(size, RED, &[(spot, BLUE)], transform);
        assert_image(&frame.image, &want);
        let frame_logical = (frame.logical_width, frame.logical_height);
        assert_eq!(frame_logical, logical, "rotate {rotate}");
        // The dropped frame, then a plain copy right away.
        assert_eq!(
            (fixture.stats.copies, fixture.stats.damage_copies),
            (2, 1),
            "rotate {rotate}"
        );
    }
}

#[test]
fn wlr_region_frames_that_waited_across_a_scale_change_are_dropped() {
    // At scale 2 the output is 50x40 logical pixels. The first region stays
    // inside it but covers other buffer pixels (the waiting frame's area is
    // stale); the second is also clipped to 30x20.
    for ((x, y, width, height), clipped) in [
        ((10, 10, 20, 20), [10, 10, 20, 20]),
        ((10, 20, 30, 40), [10, 20, 30, 20]),
    ] {
        let requested = [x, y, width as i32, height as i32];
        let part = rect(x, y, width, height);
        let mut fixture = Fixture::capturing(wlr(), region("LEFT", part));
        fixture.session.settings.refresh_interval = NEVER;
        fixture.capture().unwrap();
        fixture.nothing_within(20 * MILLIS);
        fixture.scale();
        let frame = fixture.soon();
        let logical = (clipped[2] as u32, clipped[3] as u32);
        assert_eq!((frame.logical_width, frame.logical_height), logical);
        // The waiting frame was dropped: a new region capture, a plain copy.
        assert_eq!(fixture.stats.wlr_regions, [requested, requested, clipped]);
        assert_eq!((fixture.stats.copies, fixture.stats.damage_copies), (2, 1));
    }
}

#[test]
fn ext_desktop_rect_after_an_output_move_decodes_in_full() {
    // Only LEFT: its columns 40..70 and rows 10..30.
    let part = rect(-60, 60, 30, 20);
    let mut fixture = Fixture::capturing(idle(), CaptureTarget::DesktopRect(part));
    fixture.session.settings.refresh_interval = NEVER;
    fixture.capture().unwrap();
    fixture.nothing_within(20 * MILLIS);
    // Damage in the shown rows but beyond the shown columns is skipped.
    let hidden = [75, 12, 10, 5];
    fixture.damage_rect(hidden, GREEN);
    fixture.nothing_within(100 * MILLIS);
    // LEFT moves 20 px left: the rectangle now shows its columns 60..90,
    // including the skipped damage, at the same buffer size.
    let x = -120;
    let position = OutputEvent::LogicalPosition { x, y: 50 };
    fixture.queue.push_back(Event::Output(1, position));
    let shown = [62, 20, 3, 3];
    fixture.damage_rect(shown, BLUE);
    let frame = fixture.soon();
    let full = expected(SIZE, RED, &[(hidden, GREEN), (shown, BLUE)], NORMAL);
    let moved = Rect { x, ..LEFT };
    let want = compose(&[(&full, moved)], part).unwrap();
    assert_image(&frame.image, &want.image);
}

#[test]
fn wlr_idle_sessions_refresh_with_a_plain_copy_at_the_interval() {
    let mut fixture = Fixture::capturing(wlr(), left());
    let interval = 200 * MILLIS;
    fixture.session.settings.refresh_interval = interval;
    fixture.capture().unwrap();
    let last = fixture.now;
    // Between refreshes the next frame waits for damage.
    fixture.nothing_within(50 * MILLIS);
    {
        let stats = &fixture.stats;
        assert_eq!((stats.frames, stats.copies, stats.damage_copies), (2, 1, 1));
    }
    // Then the waiting frame gives way to a plain copy of the static screen.
    let frame = fixture
        .next_frame(2 * SECONDS)
        .unwrap()
        .expect("a refresh");
    assert_eq!(fixture.now - last, interval);
    assert_image(&frame.image, &expected(SIZE, RED, &[], NORMAL));
    {
        let stats = &fixture.stats;
        let counts = (stats.frames, stats.copies, stats.damage_copies);
        assert_eq!((counts, stats.replaced), ((3, 2, 1), 1));
        assert_eq!(stats.buffers, 1, "the buffer is reused");
    }
    // After which frames wait for damage again.
    fixture.nothing_within(50 * MILLIS);
    assert_eq!((fixture.stats.frames, fixture.stats.damage_copies), (4, 2));
}

#[test]
fn wlr_damage_before_the_refresh_arrives_at_once() {
    let mut fixture = Fixture::capturing(wlr(), left());
    let interval = 400 * MILLIS;
    fixture.session.settings.refresh_interval = interval;
    fixture.capture().unwrap();
    fixture.nothing_within(200 * MILLIS);
    let spot = [15, 25, 5, 5];
    fixture.damage_rect(spot, GREEN);
    let started = fixture.now;
    let frame = fixture.next_frame(3 * SECONDS).unwrap().unwrap();
    assert!(fixture.now - started < 150 * MILLIS);
    assert_image(&frame.image, &expected(SIZE, RED, &[(spot, GREEN)], NORMAL));
    // The refresh counts from the latest frame, so the next one waits for
    // damage although the first frame is older than the interval by then.
    fixture.nothing_within(interval * 5 / 8);
    let stats = &fixture.stats;
    let counts = (stats.copies, stats.damage_copies, stats.replaced);
    assert_eq!(counts, (1, 2, 0), "delivered by copy_with_damage");
}

#[test]
fn wlr_replaced_frames_never_deliver_into_their_successor() {
    for ready in [true, false] {
        let mut fixture = Fixture::capturing(wlr(), left());
        let interval = 100 * MILLIS;
        fixture.session.settings.refresh_interval = interval;
        fixture.capture().unwrap();
        fixture.nothing_within(20 * MILLIS);
        assert_eq!(fixture.stats.damage_copies, 1);
        // The refresh destroys the waiting frame. What the compositor did
        // with it (a marker instead of the screen, or a failure) is read only
        // after that.
        fixture.now += interval * 2;
        let (id, _) = fixture.served[0].wlr.unwrap();
        fixture.served[0].waiting = false;
        if ready {
            let marker = BLUE.to_ne_bytes().repeat(fixture.served[0].memory.len() / 4);
            fixture.served[0].memory = marker;
        }
        let requests = fixture.session.request_frames(fixture.now).unwrap();
        assert!(requests[0].retire);
        let late = if ready {
            WlrEvent::Ready
        } else {
            WlrEvent::Failed
        };
        fixture.queue.push_back(Event::Wlr(0, id, late));
        fixture.perform(requests);
        let frame = fixture.soon();
        assert_image(&frame.image, &expected(SIZE, RED, &[], NORMAL));
        {
            let stats = &fixture.stats;
            let counts = (stats.frames, stats.copies, stats.damage_copies);
            assert_eq!(counts, (3, 2, 1), "ready {ready}: one replacement");
        }
        // The session carries on: waiting for damage, which then arrives.
        fixture.nothing_within(20 * MILLIS);
        let spot = [15, 25, 5, 5];
        fixture.damage_rect(spot, GREEN);
        let frame = fixture.soon();
        assert_image(&frame.image, &expected(SIZE, RED, &[(spot, GREEN)], NORMAL));
    }
}

#[test]
fn overlay_buffers_take_only_whole_rows_inside_the_buffer() {
    // 3x4 pixels: 12-byte rows, 48 bytes.
    let spec = BufferSpec::packed(3, 4, Format::Argb8888).unwrap();
    let mut bytes = vec![0; 48];
    let (start, end) = write_span(spec, 1, 24).unwrap();
    bytes[start..end].copy_from_slice(&[7; 24]);
    assert_eq!(write_span(spec, 4, 0), Ok((48, 48)));
    for (row, len) in [(0, 11), (0, 13), (2, 36), (3, 24), (4, 12), (u32::MAX, 12)] {
        assert!(
            write_span(spec, row, len).is_err(),
            "{len} bytes at row {row}"
        );
    }
    assert_eq!(bytes[..12], [0; 12]);
    assert_eq!(bytes[12..36], [7; 24]);
    assert_eq!(bytes[36..], [0; 12]);
}

#[test]
fn buffer_row_reads_fetch_only_the_requested_rows() {
    // Four rows of two pixels, padded to a 12-byte stride.
    let spec = BufferSpec {
        width: 2,
        height: 4,
        stride: 12,
        format: Format::Xrgb8888,
    };
    let bytes: Vec<u8> = (1..=48).collect();
    let mut contents = Contents::new(48);
    for (start, end) in row_spans(spec, &[1..2, 3..4]).unwrap() {
        contents.fill(start, &bytes[start..end]);
    }
    let mut want = vec![0; 48];
    want[12..24].copy_from_slice(&bytes[12..24]);
    want[36..].copy_from_slice(&bytes[36..]);
    assert_eq!(
        contents.bytes, want,
        "other rows keep what was read before"
    );
    assert_eq!(contents.bytes_read, 24);
    let reversed = std::ops::Range { start: 2, end: 1 };
    for rows in [3..5, 4..5, reversed] {
        assert!(row_spans(spec, &[rows.clone()]).is_err(), "{rows:?}");
    }
    for (start, end) in row_spans(spec, &[2..2, 4..4]).unwrap() {
        assert_eq!(start, end, "empty");
        contents.fill(start, &bytes[start..end]);
    }
    assert_eq!(contents.bytes, want, "empty");
    contents.fill(0, &bytes);
    assert_eq!(contents.bytes, bytes);
}

#[test]
fn hidpi_logical_size_without_xdg_output_rounds() {
    let mut output = output("LEFT", LEFT);
    output.logical_size = None;
    for (mode, scale, logical) in [
        ((3840, 2160), 2, (1920, 1080)),
        ((2561, 1441), 2, (1281, 721)),
        ((3841, 2161), 3, (1280, 720)),
        ((3842, 2162), 3, (1281, 721)),
    ] {
        output.mode = mode;
        output.scale = scale;
        let rect = output.rect();
        assert_eq!((rect.width, rect.height), logical, "{mode:?} at {scale}");
    }
    output.transform = Transform::_90;
    let rect = output.rect();
    assert_eq!((rect.width, rect.height), (721, 1281));
}

#[test]
fn wlr_desktop_rect_frames_never_compose_a_tile_dropped_after_rotation() {
    let mut fixture = Fixture::new(wlr());
    // Asymmetric content inside rotated LEFT's part of the rectangle.
    let spot = [15, 0, 10, 3];
    fixture.damage_rect(spot, BLUE);
    fixture
        .start(CaptureTarget::DesktopRect(desktop()))
        .unwrap();
    fixture.session.settings.refresh_interval = NEVER;
    fixture.capture().unwrap();
    fixture.nothing_within(20 * MILLIS);
    // Only LEFT rotates. Both waiting frames complete in the same batch:
    // LEFT's with the area it was requested for, RIGHT's still current.
    fixture.rotate(&[(1, LEFT)]);
    let frame = fixture.soon();
    // LEFT's pre-rotation tile must not be composed with its new rectangle.
    let left = expected(SIZE, RED, &[(spot, BLUE)], Transform::_90);
    let rotated = Rect {
        width: LEFT.height,
        height: LEFT.width,
        ..LEFT
    };
    let right = expected(SIZE, RED, &[(spot, BLUE)], NORMAL);
    let want = compose(&[(&left, rotated), (&right, RIGHT)], desktop()).unwrap();
    assert_image(&frame.image, &want.image);
    // LEFT was copied again; RIGHT went on waiting for damage.
    assert_eq!((fixture.stats.copies, fixture.stats.damage_copies), (3, 3));
}

/// Premultiplied Argb8888: alpha 0x80 over color 0x60, 0x40, 0x20, and
/// alpha 0x40 over 0x10, 0x20, 0x30.
const HALF: u32 = 0x8060_4020;
const QUARTER: u32 = 0x4010_2030;

#[test]
fn opaque_sessions_deliver_premultiplied_color_over_black() {
    let damage = [20, 30, 10, 5];
    for (alpha, half, quarter) in [
        // Straight color, rounded as screenshots always have been.
        (
            AlphaMode::Straight,
            rgba(191, 128, 64, 128),
            rgba(64, 128, 191, 64),
        ),
        (
            AlphaMode::Opaque,
            rgba(96, 64, 32, 255),
            rgba(16, 32, 48, 255),
        ),
    ] {
        for ext in [true, false] {
            let case = format!("{alpha:?}, ext {ext}");
            let config = Config {
                ext,
                format: Format::Argb8888,
                ..idle()
            };
            let options = CaptureOptions {
                cursor: false,
                alpha,
            };
            let mut fixture = Fixture::with_options(config, options);
            fixture.damage_rect([0, 0, SIZE.0 as i32, SIZE.1 as i32], HALF);
            fixture.start(left()).unwrap();
            fixture.session.settings.refresh_interval = NEVER;
            let frame = fixture.capture().unwrap();
            for y in 0..SIZE.1 {
                for x in 0..SIZE.0 {
                    assert_eq!(frame.image.get_pixel(x, y), half, "{case}: first frame");
                }
            }
            fixture.nothing_within(20 * MILLIS);
            fixture.damage_rect(damage, QUARTER);
            let frame = fixture.soon();
            for y in 0..SIZE.1 {
                for x in 0..SIZE.0 {
                    let damaged = inside(damage, x as i32, y as i32);
                    let want = if damaged { quarter } else { half };
                    assert_eq!(frame.image.get_pixel(x, y), want, "{case}: second frame");
                }
            }
            if ext {
                // An update of the damaged rows alone.
                assert_eq!(fixture.bytes_read(), [WHOLE + 5 * ROW], "{case}");
            }
        }
    }
}

#[test]
fn still_sessions_hand_their_image_out() {
    for still in [false, true] {
        let mut fixture = Fixture::capturing(plain(), left());
        fixture.session.settings.still = still;
        fixture.capture().unwrap();
        // A stream keeps its first frame for updates in place; a still
        // capture has no next frame, so its image is handed out, not copied.
        assert_eq!(fixture.kept_images(), [!still], "still {still}");
    }
}

#[test]
fn retargeting_ignores_events_of_the_old_target() {
    let mut fixture = Fixture::capturing(plain(), window());
    fixture.capture().unwrap();
    // The window closes after its capture; that session's stop is unread.
    fixture.stop();
    fixture.start(left()).unwrap();
    assert_eq!(fixture.capture().unwrap().image.dimensions(), SIZE);
}

#[test]
fn retargeting_ignores_the_sync_of_a_replaced_wlr_frame() {
    let mut fixture = Fixture::capturing(wlr(), left());
    let interval = 200 * MILLIS;
    fixture.session.settings.refresh_interval = interval;
    fixture.capture().unwrap();
    // The next frame waits for damage until the refresh replaces it.
    fixture.nothing_within(20 * MILLIS);
    fixture.now += interval + 50 * MILLIS;
    // That destroys the frame and sends a sync, whose reply is still unread.
    fixture.nothing_within(0);
    fixture
        .start(region("RIGHT", rect(10, 20, 30, 40)))
        .unwrap();
    assert_eq!(fixture.capture().unwrap().image.dimensions(), (30, 40));
    assert_eq!(fixture.stats.replaced, 1);
}

/// Still captures over compositor connections, each a fixture of its own.
struct Stills {
    capturer: StillCapturer,
    config: Config,
    connection: Option<Fixture>,
    opened: usize,
}

impl Stills {
    fn new(config: Config) -> Stills {
        Stills {
            capturer: StillCapturer::new(),
            config,
            connection: None,
            opened: 0,
        }
    }

    /// Captures `target`; `closed` tells whether the compositor has closed the
    /// idle connection.
    fn capture(&mut self, target: CaptureTarget, closed: bool) -> Result<CapturedFrame, Error> {
        if !self.capturer.begin(closed) {
            let mut fixture = Fixture::new(self.config);
            fixture.session.settings.still = true;
            fixture.session.settings.constraints_grace = 20 * MILLIS;
            self.connection = Some(fixture);
            self.opened += 1;
        }
        let fixture = self.connection.as_mut().unwrap();
        let result = match fixture.start(target) {
            Ok(()) => fixture.capture(),
            Err(error) => Err(error),
        };
        // Nothing is kept between captures.
        fixture.session.slots.clear();
        self.capturer.end(result.is_ok());
        result
    }

    fn size(&mut self, target: CaptureTarget) -> (u32, u32) {
        let frame = self.capture(target, false).unwrap();
        (frame.image.width, frame.image.height)
    }
}

#[test]
fn still_captures_share_one_connection_and_keep_nothing_between_them() {
    let mut stills = Stills::new(plain());
    assert_eq!(stills.size(window()), SIZE);
    // That window closes after its capture, and a new one maps.
    let fixture = stills.connection.as_mut().unwrap();
    fixture.stop();
    fixture.windows.push("late-window".into());
    let late = CaptureTarget::Toplevel("late-window".into());
    assert_eq!(stills.size(late), SIZE);
    assert_eq!(stills.size(region("LEFT", rect(10, 20, 30, 40))), (30, 40));
    let desktop = CaptureTarget::DesktopRect(rect(-25, 60, 50, 20));
    assert_eq!(stills.size(desktop), (50, 20));
    assert_eq!(stills.opened, 1, "one connection");
    let stats = &stills.connection.as_ref().unwrap().stats;
    assert_eq!((stats.window_sources, stats.sessions), (2, 5));
    // A missing window fails once, without trying another connection...
    let gone = CaptureTarget::Toplevel("closed-window".into());
    let error = stills.capture(gone, false).unwrap_err();
    assert!(error.message("").contains("no longer available"));
    assert_eq!(stills.opened, 1);
    // ...and the error drops the connection: the next capture opens another.
    assert_eq!(stills.size(window()), SIZE);
    assert_eq!(stills.opened, 2, "a new connection");
}

#[test]
fn still_captures_replace_a_connection_the_compositor_closed() {
    let mut stills = Stills::new(plain());
    stills.capture(window(), false).unwrap();
    // The compositor closes the idle connection.
    let frame = stills.capture(window(), true).unwrap();
    assert_eq!((frame.image.width, frame.image.height), SIZE);
    assert_eq!(stills.opened, 2);
}

#[test]
fn a_failed_still_capture_drops_its_connection() {
    // Every frame is rejected, so each capture fails after its retries.
    let mut stills = Stills::new(Config {
        reject: true,
        ..plain()
    });
    for connections in [1, 2] {
        let error = stills.capture(window(), false).unwrap_err();
        assert!(error.message("").contains("BufferConstraints"));
        assert_eq!(stills.opened, connections);
    }
}

#[test]
fn cursor_setting_reaches_ext_and_wlr_capture_protocols() {
    for ext in [true, false] {
        for cursor in [true, false] {
            let options = CaptureOptions {
                cursor,
                ..CaptureOptions::default()
            };
            let mut fixture = Fixture::with_options(Config { ext, ..plain() }, options);
            fixture.start(left()).unwrap();
            fixture.capture().unwrap();
            assert_eq!(fixture.stats.cursor, Some(cursor));
        }
    }
}

#[test]
fn a_window_that_closed_cannot_be_captured() {
    let mut fixture = Fixture::new(plain());
    let gone = CaptureTarget::Toplevel("closed-window".into());
    assert_eq!(fixture.start(gone), Err(Error::WindowGone));
    assert!(Error::WindowGone.message("").contains("no longer available"));
    let unnamed = CaptureTarget::Toplevel(String::new());
    assert_eq!(fixture.start(unnamed), Err(Error::NoIdentifier));
}

#[test]
fn targets_outside_the_layout_are_refused() {
    let mut fixture = Fixture::new(plain());
    assert_eq!(
        fixture.start(CaptureTarget::Output("MIDDLE".into())),
        Err(Error::OutputUnavailable)
    );
    assert_eq!(
        fixture.start(region("LEFT", rect(0, 0, 0, 5))),
        Err(Error::EmptyRegion)
    );
    assert_eq!(
        fixture.start(CaptureTarget::DesktopRect(rect(900, 0, 5, 5))),
        Err(Error::OutsideAllOutputs)
    );
    fixture.start(left()).unwrap();
    assert_eq!(
        fixture.session.output_removed(1),
        Some(Error::SelectedDisconnected)
    );
}

#[test]
fn an_unknown_transform_ends_the_capture() {
    let config = Config {
        transform: Transform::Other(9),
        ..plain()
    };
    let mut fixture = Fixture::capturing(config, left());
    assert_eq!(fixture.capture().unwrap_err(), Error::UnknownTransform);
}

#[test]
fn a_frame_that_cannot_be_shown_is_given_up_once() {
    let mut fixture = Fixture::capturing(idle(), region("LEFT", rect(60, 10, 20, 20)));
    assert_eq!(fixture.capture().unwrap().image.dimensions(), (20, 20));
    // The output shrinks: the region lies outside it.
    let (width, height) = (50, 40);
    let size = OutputEvent::LogicalSize { width, height };
    fixture.queue.push_back(Event::Output(1, size));
    fixture.nothing_within(0);
    fixture.session.slots[0].state.retries = 1;
    fixture.damage_rect([60, 12, 20, 2], GREEN);
    assert_eq!(
        fixture.next_frame(SECONDS).unwrap_err(),
        Error::OutsideOutput
    );
    let slot = &fixture.session.slots[0];
    assert!(!slot.state.ready && slot.last.is_some());
    assert_eq!(slot.state.retries, 0);
    // Nothing is left to plan for.
    let session = &fixture.session;
    let settings = session.settings;
    let work = slot.plan(&session.target, &session.outputs, settings);
    assert!(matches!(work, Ok(Work::Idle)));
}

#[test]
fn a_frame_that_cannot_be_decoded_is_taken_in() {
    let mut fixture = Fixture::capturing(idle(), left());
    fixture.capture().unwrap();
    let now = fixture.now + 7;
    let slot = &mut fixture.session.slots[0];
    slot.state.ready = true;
    slot.state.retries = 2;
    slot.state.refresh = true;
    let known = slot.state.key;
    let mut key = known.unwrap();
    key.transform = Transform::Other(9);
    let result = slot.update_whole(key, vec![0; WHOLE], true, now);
    assert_eq!(
        result,
        Err(Error::Pixels(pixels::Error::UnsupportedTransform))
    );
    assert!(!slot.state.ready && slot.last.is_none());
    assert_eq!(slot.state.retries, 0);
    assert_eq!(slot.state.refreshed, Some(now));
    assert!(slot.state.keep);
    assert_eq!(slot.state.key, known);
}
