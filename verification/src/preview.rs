//! Previews of the selected source and thumbnails of the windows. Two workers
//! capture them, so that a slow window cannot hold up the preview, and a
//! result is only shown for its exact key. Images are known by numbers; times
//! are in microseconds.

use vstd::prelude::*;

use crate::pixels;
use crate::frame::CapturedFrame;
use crate::frame::PixelMode;
use crate::pixels::AlphaMode;
use crate::rect::CaptureTarget;
use crate::rect::Rect;
use crate::session::CaptureOptions;
use crate::text;

verus! {

/// Thumbnails are requested one at a time and at most this often.
pub const THUMBNAIL_PACE: u64 = 750_000;

/// A window's thumbnail is requested at most this often.
pub const THUMBNAIL_RETRY: u64 = 10_000_000;

/// How often a preview is captured.
pub const PREVIEW_INTERVAL: u64 = 750_000;

/// How often a preview that failed is tried again.
pub const ERROR_INTERVAL: u64 = 5_000_000;

/// How many windows have thumbnails.
pub const MAX_THUMBNAILS: usize = 48;

/// A source and how it is shown.
#[derive(Debug, Clone, PartialEq, Eq)]
pub struct PreviewKey {
    pub target: CaptureTarget,
    pub cursor: bool,
    pub quality: u8,
    pub max_width: Option<u32>,
    pub pixel_mode: PixelMode,
    pub screenshot: bool,
}

/// What a target stands for.
pub enum TargetView {
    Output(Seq<char>),
    Toplevel(Seq<char>),
    Region(Seq<char>, Rect),
    DesktopRect(Rect),
}

/// What a key stands for.
pub struct KeyView {
    pub target: TargetView,
    pub cursor: bool,
    pub quality: u8,
    pub max_width: Option<u32>,
    pub pixel_mode: PixelMode,
    pub screenshot: bool,
}

pub open spec fn target_view(target: CaptureTarget) -> TargetView {
    match target {
        CaptureTarget::Output(name) => TargetView::Output(name@),
        CaptureTarget::Toplevel(id) => TargetView::Toplevel(id@),
        CaptureTarget::Region(region) => TargetView::Region(region.output@, region.rect),
        CaptureTarget::DesktopRect(rect) => TargetView::DesktopRect(rect),
    }
}

impl View for PreviewKey {
    type V = KeyView;

    open spec fn view(&self) -> KeyView {
        KeyView {
            target: target_view(self.target),
            cursor: self.cursor,
            quality: self.quality,
            max_width: self.max_width,
            pixel_mode: self.pixel_mode,
            screenshot: self.screenshot,
        }
    }
}

/// What a key stands for, if there is one.
pub open spec fn key_view(key: Option<PreviewKey>) -> Option<KeyView> {
    match key {
        Some(key) => Some(key@),
        None => None,
    }
}

fn same_target(a: &CaptureTarget, b: &CaptureTarget) -> (r: bool)
    ensures
        r == (target_view(*a) == target_view(*b)),
{
    match (a, b) {
        (CaptureTarget::Output(a), CaptureTarget::Output(b)) => text::same(a.as_str(), b.as_str()),
        (CaptureTarget::Toplevel(a), CaptureTarget::Toplevel(b)) => text::same(
            a.as_str(),
            b.as_str(),
        ),
        (CaptureTarget::Region(a), CaptureTarget::Region(b)) => text::same(
            a.output.as_str(),
            b.output.as_str(),
        ) && a.rect == b.rect,
        (CaptureTarget::DesktopRect(a), CaptureTarget::DesktopRect(b)) => *a == *b,
        _ => false,
    }
}

impl PreviewKey {
    /// Whether two keys ask for the same preview.
    pub fn same(&self, other: &PreviewKey) -> (r: bool)
        ensures
            r == (self@ == other@),
    {
        same_target(&self.target, &other.target) && self.cursor == other.cursor && self.quality
            == other.quality && self.max_width == other.max_width && self.pixel_mode
            == other.pixel_mode && self.screenshot == other.screenshot
    }

    fn copy(&self) -> (r: PreviewKey)
        ensures
            r@ == self@,
    {
        let target = match &self.target {
            CaptureTarget::Output(name) => CaptureTarget::Output(name.clone()),
            CaptureTarget::Toplevel(id) => CaptureTarget::Toplevel(id.clone()),
            CaptureTarget::Region(region) => CaptureTarget::Region(
                crate::rect::Region { output: region.output.clone(), rect: region.rect },
            ),
            CaptureTarget::DesktopRect(rect) => CaptureTarget::DesktopRect(*rect),
        };
        PreviewKey {
            target,
            cursor: self.cursor,
            quality: self.quality,
            max_width: self.max_width,
            pixel_mode: self.pixel_mode,
            screenshot: self.screenshot,
        }
    }
}

/// Whether two choices of a preview are the same.
pub fn same_key(a: &Option<PreviewKey>, b: &Option<PreviewKey>) -> (r: bool)
    ensures
        r == (key_view(*a) == key_view(*b)),
{
    match (a, b) {
        (Some(a), Some(b)) => a.same(b),
        (None, None) => true,
        _ => false,
    }
}

/// A copy of the choice of a preview.
pub fn copy_key(key: &Option<PreviewKey>) -> (r: Option<PreviewKey>)
    ensures
        key_view(r) == key_view(*key),
{
    match key {
        Some(key) => Some(key.copy()),
        None => None,
    }
}

/// An image file for a preview.
#[derive(Debug)]
pub struct Encoded {
    pub png: bool,
    pub bytes: Vec<u8>,
    pub width: u32,
    pub height: u32,
}

/// A frame as its key wants it: screenshots as they were captured, streams as
/// viewers would see them.
pub fn encode(frame: &CapturedFrame, key: &PreviewKey) -> (r: Result<Encoded, pixels::Error>)
    requires
        frame.image.wf(),
        !key.screenshot ==> frame.can_stream(key.max_width, key.pixel_mode),
    ensures
        if key.screenshot {
            match r {
                Ok(encoded) => {
                    &&& encoded.png
                    &&& frame.image.width > 0 && frame.image.height > 0
                    &&& encoded.width == frame.image.width
                    &&& encoded.height == frame.image.height
                    &&& encoded.bytes@ == crate::codec::png_file(
                        frame.image.data@,
                        frame.image.width as int,
                        frame.image.height as int,
                    )
                },
                Err(error) => (frame.image.width == 0 || frame.image.height == 0) && error
                    == if frame.image.width == 0 {
                    pixels::Error::PngWidth
                } else {
                    pixels::Error::PngHeight
                },
            }
        } else {
            match r {
                Ok(encoded) => {
                    &&& !encoded.png
                    &&& frame.jpeg_refused(key.quality, key.max_width, key.pixel_mode) is None
                    &&& frame.stream_size(key.max_width, key.pixel_mode) == Ok::<
                        (u32, u32),
                        pixels::Error,
                    >((encoded.width, encoded.height))
                    &&& encoded.bytes@ == frame.stream_jpeg(
                        key.quality,
                        encoded.width,
                        encoded.height,
                    )
                },
                Err(error) => frame.jpeg_refused(key.quality, key.max_width, key.pixel_mode)
                    == Some(error),
            }
        },
{
    if key.screenshot {
        match frame.png() {
            Ok(bytes) => Ok(
                Encoded {
                    png: true,
                    bytes,
                    width: frame.image.width,
                    height: frame.image.height,
                },
            ),
            Err(error) => Err(error),
        }
    } else {
        match frame.jpeg_with_mode(key.quality, key.max_width, key.pixel_mode) {
            Ok((bytes, width, height)) => Ok(Encoded { png: false, bytes, width, height }),
            Err(error) => Err(error),
        }
    }
}

/// A thumbnail is a small stream preview of a window, without the cursor.
pub fn thumbnail_key(id: String) -> (r: PreviewKey)
    ensures
        r.target == CaptureTarget::Toplevel(id),
        !r.cursor,
        r.quality == 55,
        r.max_width == Some(256u32),
        r.pixel_mode == PixelMode::Logical,
        !r.screenshot,
{
    PreviewKey {
        target: CaptureTarget::Toplevel(id),
        cursor: false,
        quality: 55,
        max_width: Some(256),
        pixel_mode: PixelMode::Logical,
        screenshot: false,
    }
}

/// How every thumbnail is captured.
pub fn thumbnail_options() -> (r: CaptureOptions)
    ensures
        r == (CaptureOptions { cursor: false, alpha: AlphaMode::Opaque }),
{
    CaptureOptions { cursor: false, alpha: AlphaMode::Opaque }
}

/// How a preview is captured. Screenshots keep transparency; streams composite
/// over black anyway.
pub fn capture_options(key: &PreviewKey) -> (r: CaptureOptions)
    ensures
        r.cursor == key.cursor,
        r.alpha == if key.screenshot {
            AlphaMode::Straight
        } else {
            AlphaMode::Opaque
        },
{
    CaptureOptions {
        cursor: key.cursor,
        alpha: if key.screenshot {
            AlphaMode::Straight
        } else {
            AlphaMode::Opaque
        },
    }
}

/// The bytes added up.
pub open spec fn sum(bytes: Seq<u8>) -> int
    decreases bytes.len(),
{
    if bytes.len() == 0 {
        0
    } else {
        sum(bytes.drop_last()) + bytes.last()
    }
}

/// Which made-up picture stands for a window's thumbnail.
pub fn demo_number(id: &str) -> (r: u32)
    requires
        vstd::utf8::encode_utf8(id@).len() * 255 <= u32::MAX,
    ensures
        r == sum(vstd::utf8::encode_utf8(id@)),
{
    let bytes = id.as_bytes();
    let mut total: u32 = 0;
    let mut i: usize = 0;
    assert(bytes@.take(0) =~= Seq::empty());
    while i < bytes.len()
        invariant
            i <= bytes@.len(),
            bytes@.len() * 255 <= u32::MAX,
            total == sum(bytes@.take(i as int)),
            total <= i * 255,
        decreases bytes@.len() - i,
    {
        assert(bytes@.take(i + 1).drop_last() =~= bytes@.take(i as int));
        assert(bytes@.take(i + 1).last() == bytes@[i as int]);
        total = total + bytes[i] as u32;
        i = i + 1;
    }
    assert(bytes@.take(i as int) =~= bytes@);
    total
}

/// What the preview's worker does for a job.
#[derive(Debug, Clone, Copy, PartialEq, Eq, Structural)]
pub enum PreviewWork {
    /// Give the session up.
    Release,
    /// Show a made-up picture.
    Demo,
    /// Start a new session and wait for its first frame.
    Open,
    /// Wait a little for the next frame of the session.
    Next,
}

/// How the preview's worker answers a job. A session is kept while its key is
/// unchanged.
pub fn preview_work(current: &Option<PreviewKey>, job: &Option<PreviewKey>, demo: bool) -> (r:
    PreviewWork)
    ensures
        r == if job is None {
            PreviewWork::Release
        } else if demo {
            PreviewWork::Demo
        } else if key_view(*current) == key_view(*job) {
            PreviewWork::Next
        } else {
            PreviewWork::Open
        },
{
    if job.is_none() {
        PreviewWork::Release
    } else if demo {
        PreviewWork::Demo
    } else if same_key(current, job) {
        PreviewWork::Next
    } else {
        PreviewWork::Open
    }
}

/// What happened to a job that was handed to a worker's thread.
#[derive(Debug)]
pub enum Handed {
    /// The thread took it.
    Taken,
    /// A job is already waiting for the thread.
    Full,
    /// The thread is gone.
    Disconnected,
    /// No thread could be started.
    Failed(String),
}

/// What happened to a job that was offered to a worker.
#[derive(Debug, PartialEq, Eq)]
pub enum Offer {
    /// The worker took the job.
    Taken,
    /// A job is already waiting for the worker.
    Busy,
    /// The worker had stopped; the next offer starts a new one.
    Stopped,
    /// A new worker could not be started.
    Failed(String),
}

/// A worker, which is started on demand and again after it stops, and the jobs
/// that it has taken but not answered.
#[derive(Debug)]
pub struct Worker<J> {
    pub running: bool,
    pub outstanding: usize,
    /// The last job that the running worker took.
    pub last: Option<J>,
}

impl<J> Worker<J> {
    /// The worker does not run and has no jobs.
    pub open spec fn idle(self) -> bool {
        !self.running && self.outstanding == 0 && self.last is None
    }

    pub fn new() -> (r: Self)
        ensures
            r.idle(),
    {
        Worker { running: false, outstanding: 0, last: None }
    }

    /// Whether a job that the worker took is still unanswered.
    pub fn pending(&self) -> (r: bool)
        ensures
            r == (self.outstanding > 0),
    {
        self.outstanding > 0
    }

    /// Takes note of what became of a job. A job that stops the worker is
    /// forgotten with all others.
    pub fn offer(&mut self, job: J, handed: Handed) -> (r: Offer)
        requires
            old(self).outstanding < usize::MAX,
        ensures
            match handed {
                Handed::Taken => {
                    &&& r == Offer::Taken
                    &&& final(self).running
                    &&& final(self).outstanding == old(self).outstanding + 1
                    &&& final(self).last == Some(job)
                },
                Handed::Full => {
                    &&& r == Offer::Busy
                    &&& final(self).running
                    &&& final(self).outstanding == old(self).outstanding
                    &&& final(self).last == old(self).last
                },
                Handed::Disconnected => {
                    &&& r == Offer::Stopped
                    &&& !final(self).running
                    &&& final(self).outstanding == 0
                    &&& final(self).last is None
                },
                Handed::Failed(error) => {
                    &&& r == Offer::Failed(error)
                    &&& *final(self) == *old(self)
                },
            },
    {
        match handed {
            Handed::Taken => {
                self.running = true;
                self.outstanding = self.outstanding + 1;
                self.last = Some(job);
                Offer::Taken
            },
            Handed::Full => {
                self.running = true;
                Offer::Busy
            },
            Handed::Disconnected => {
                self.stop();
                Offer::Stopped
            },
            Handed::Failed(error) => Offer::Failed(error),
        }
    }

    /// Takes note of the answers that were received. A stopped worker is
    /// dropped with its unanswered jobs.
    pub fn drain(&mut self, answers: usize, disconnected: bool)
        ensures
            if disconnected {
                &&& !final(self).running
                &&& final(self).outstanding == 0
                &&& final(self).last is None
            } else {
                &&& final(self).running == old(self).running
                &&& final(self).last == old(self).last
                &&& final(self).outstanding == if answers >= old(self).outstanding {
                    0
                } else {
                    old(self).outstanding - answers
                }
            },
    {
        self.outstanding = self.outstanding.saturating_sub(answers);
        if disconnected {
            self.stop();
        }
    }

    fn stop(&mut self)
        ensures
            !final(self).running,
            final(self).outstanding == 0,
            final(self).last is None,
    {
        self.running = false;
        self.outstanding = 0;
        self.last = None;
    }
}

/// The preview is given up already.
pub open spec fn released(worker: Worker<Option<PreviewKey>>, key: Option<PreviewKey>) -> bool {
    key is None && worker.last is Some && worker.last->0 is None
}

/// Whether to offer the preview's worker a job now: one at a time, every
/// interval. That nothing is selected is told once.
pub fn preview_due(
    worker: &Worker<Option<PreviewKey>>,
    key: &Option<PreviewKey>,
    waited: u64,
    interval: u64,
) -> (r: bool)
    ensures
        r == (!released(*worker, *key) && worker.outstanding == 0 && waited >= interval),
{
    let given_up = match &worker.last {
        Some(last) => last.is_none() && key.is_none(),
        None => false,
    };
    !given_up && !worker.pending() && waited >= interval
}

/// When a window's thumbnail was last asked for.
#[derive(Debug)]
pub struct Attempt {
    pub id: String,
    pub at: u64,
}

/// What an attempt stands for.
pub open spec fn attempt_view(a: Attempt) -> (Seq<char>, u64) {
    (a.id@, a.at)
}

/// How long ago.
pub open spec fn since(at: u64, now: u64) -> int {
    if now >= at {
        now - at
    } else {
        0
    }
}

/// Some thumbnail was asked for too recently.
pub open spec fn paced(attempts: Seq<Attempt>, now: u64) -> bool {
    exists|i: int|
        0 <= i < attempts.len() && since((#[trigger] attempts[i]).at, now) < THUMBNAIL_PACE
}

/// The window's thumbnail was asked for too recently.
pub open spec fn waiting(attempts: Seq<Attempt>, id: Seq<char>, now: u64) -> bool {
    exists|i: int|
        0 <= i < attempts.len() && (#[trigger] attempts[i]).id@ == id && since(attempts[i].at, now)
            <= THUMBNAIL_RETRY
}

fn is_paced(attempts: &Vec<Attempt>, now: u64) -> (r: bool)
    ensures
        r == paced(attempts@, now),
{
    let mut i: usize = 0;
    while i < attempts.len()
        invariant
            i <= attempts@.len(),
            forall|j: int|
                0 <= j < i ==> since((#[trigger] attempts@[j]).at, now) >= THUMBNAIL_PACE,
        decreases attempts@.len() - i,
    {
        if now.saturating_sub(attempts[i].at) < THUMBNAIL_PACE {
            assert(since(attempts@[i as int].at, now) < THUMBNAIL_PACE);
            return true;
        }
        i = i + 1;
    }
    false
}

fn is_waiting(attempts: &Vec<Attempt>, id: &str, now: u64) -> (r: bool)
    ensures
        r == waiting(attempts@, id@, now),
{
    let mut i: usize = 0;
    while i < attempts.len()
        invariant
            i <= attempts@.len(),
            forall|j: int|
                0 <= j < i ==> (#[trigger] attempts@[j]).id@ != id@ || since(attempts@[j].at, now)
                    > THUMBNAIL_RETRY,
        decreases attempts@.len() - i,
    {
        if text::same(attempts[i].id.as_str(), id) && now.saturating_sub(attempts[i].at)
            <= THUMBNAIL_RETRY {
            assert(attempts@[i as int].id@ == id@);
            return true;
        }
        i = i + 1;
    }
    false
}

/// The turn passes to the next window.
pub open spec fn next_turn(turn: usize) -> usize {
    if turn == usize::MAX {
        0
    } else {
        (turn + 1) as usize
    }
}

/// The pick from a list of windows: the one whose turn it is, unless it was
/// asked for recently.
pub open spec fn picks(
    list: Seq<String>,
    turn: usize,
    attempts: Seq<Attempt>,
    now: u64,
    r: Option<String>,
) -> bool {
    if list.len() == 0 {
        r is None
    } else {
        let id = list[turn as int % list.len() as int]@;
        if waiting(attempts, id, now) {
            r is None
        } else {
            r is Some && r->0@ == id
        }
    }
}

/// The next window to capture a thumbnail of, if one is due. Windows take
/// turns. Most calls fall within the pace, so the windows are listed only after
/// that check.
pub fn pick_thumbnail<F: FnOnce() -> Vec<String>>(
    candidates: F,
    turn: &mut usize,
    attempts: &Vec<Attempt>,
    now: u64,
) -> (r: Option<String>)
    requires
        call_requires(candidates, ()),
    ensures
        if paced(attempts@, now) {
            r is None && *final(turn) == *old(turn)
        } else {
            exists|list: Vec<String>| #[trigger]
                call_ensures(candidates, (), list) && picks(
                    list@,
                    *old(turn),
                    attempts@,
                    now,
                    r,
                ) && *final(turn) == if list@.len() == 0 {
                    *old(turn)
                } else {
                    next_turn(*old(turn))
                }
        },
{
    if is_paced(attempts, now) {
        return None;
    }
    let list = candidates();
    assert(call_ensures(candidates, (), list));
    if list.len() == 0 {
        return None;
    }
    let at: usize = *turn % list.len();
    *turn = turn.wrapping_add(1);
    let id = &list[at];
    if is_waiting(attempts, id.as_str(), now) {
        None
    } else {
        Some(id.clone())
    }
}

} // verus!
