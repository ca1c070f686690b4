//! A capture session as a whole: its sources, what completed frames change,
//! and the image that the target shows.

use core::ops::Range;
use vstd::prelude::*;

use crate::compose;
use crate::damage;
use crate::damage::DamageBox;
use crate::decode;
use crate::frame;
use crate::frame::{CapturedFrame, PixelRect};
use crate::output;
use crate::output::{Contents, Output, Outputs};
use crate::pixels;
use crate::pixels::{BufferSpec, Transform};
use crate::raster::RgbaImage;
use crate::rect::{CaptureTarget, Rect};
use crate::session;
use crate::session::{
    DecodeKey, Error, FrameEvent, Held, Request, Settings, Slot, SlotState, WlrEvent, WlrGeometry,
};
use crate::text;

verus! {

/// An output's overlap with a rectangle starts within a signed integer of the
/// output's corner.
pub open spec fn near(rect: Rect, logical: Rect) -> bool {
    match rect.overlap(logical) {
        Some(overlap) => overlap.x - logical.x <= i32::MAX && overlap.y - logical.y <= i32::MAX,
        None => true,
    }
}

/// A desktop rectangle lies near the output.
pub open spec fn near_target(target: CaptureTarget, output: Option<Output>) -> bool {
    match (target, output) {
        (CaptureTarget::DesktopRect(rect), Some(output)) => near(rect, output.area()),
        _ => true,
    }
}

/// The part of a desktop rectangle on an output, relative to the output.
pub open spec fn local_part(overlap: Rect, logical: Rect) -> Rect {
    Rect { x: (overlap.x - logical.x) as i32, y: (overlap.y - logical.y) as i32, ..overlap }
}

/// Pixels of an untransformed buffer, `whole`, that the target shows from its
/// output, as cropping and composing pick them; none when the output shows
/// none of a desktop rectangle.
pub open spec fn shown_pixels(target: CaptureTarget, output: Option<Output>, whole: PixelRect) -> Result<
    Option<PixelRect>,
    Error,
> {
    let size = (whole.width, whole.height);
    match target {
        CaptureTarget::Output(_) | CaptureTarget::Toplevel(_) => Ok(Some(whole)),
        CaptureTarget::Region(region) => match output {
            None => Err(Error::OutputDisconnected),
            Some(output) => match frame::touched_pixels(size, output.area(), region.rect) {
                None => Err(Error::OutsideOutput),
                Some((area, _)) => Ok(Some(area)),
            },
        },
        CaptureTarget::DesktopRect(rect) => match output {
            None => Err(Error::OutputDisconnected),
            Some(output) => match rect.overlap(output.area()) {
                None => Ok(None),
                Some(overlap) => {
                    let local = local_part(overlap, output.area());
                    Ok(Some((frame::touched_pixels(size, output.area(), local)->0).0))
                },
            },
        },
    }
}

/// A reference as an owned option, for specifications.
pub open spec fn seen(output: Option<&Output>) -> Option<Output> {
    match output {
        Some(output) => Some(*output),
        None => None,
    }
}

pub fn shown_area(target: &CaptureTarget, output: Option<&Output>, whole: PixelRect) -> (r: Result<
    Option<PixelRect>,
    Error,
>)
    requires
        near_target(*target, seen(output)),
    ensures
        r == shown_pixels(*target, seen(output), whole),
        r matches Ok(Some(area)) ==> area == whole || area.y + area.height <= whole.height,
{
    let local = match target {
        CaptureTarget::Output(_) | CaptureTarget::Toplevel(_) => return Ok(Some(whole)),
        CaptureTarget::Region(region) => region.rect,
        CaptureTarget::DesktopRect(rect) => {
            let logical = match output {
                Some(output) => output.rect(),
                None => return Err(Error::OutputDisconnected),
            };
            let overlap = match rect.intersect(logical) {
                Some(overlap) => overlap,
                None => return Ok(None),
            };
            let local = Rect {
                x: (overlap.x as i64 - logical.x as i64) as i32,
                y: (overlap.y as i64 - logical.y as i64) as i32,
                width: overlap.width,
                height: overlap.height,
            };
            assert(local == local_part(overlap, logical));
            assert(local.overlap(Rect { x: 0, y: 0, ..logical }) == Some(local));
            local
        },
    };
    let logical = match output {
        Some(output) => output.rect(),
        None => return Err(Error::OutputDisconnected),
    };
    proof {
        frame::lemma_touched_pixels_fit((whole.width, whole.height), logical, local);
    }
    match frame::pixel_rect((whole.width, whole.height), logical, local) {
        Ok(found) => Ok(Some(found.0)),
        Err(_) => Err(Error::OutsideOutput),
    }
}

/// What a completed frame calls for.
#[derive(Debug)]
pub enum Work {
    /// No frame has completed.
    Idle,
    /// The frame was copied for another output configuration: drop it.
    Stale,
    /// Nothing the target shows changed: keep waiting.
    Unchanged { keep: bool },
    /// Read and convert these buffer rows.
    Rows { rows: Vec<Range<u32>>, keep: bool },
    /// Read and decode the whole buffer.
    Whole { key: DecodeKey, keep: bool },
}

/// All of a buffer's pixels.
pub open spec fn whole_of(spec: BufferSpec) -> PixelRect {
    PixelRect { x: 0, y: 0, width: spec.width, height: spec.height }
}

/// The slot's output, while it is connected.
pub open spec fn output_of(s: SlotState, outputs: Outputs) -> Option<Output> {
    match s.output {
        Some(id) => if outputs.has(id) {
            Some(outputs.output(id))
        } else {
            None
        },
        None => None,
    }
}

/// A wlr frame that no longer matches its output.
pub open spec fn stale(s: SlotState, target: CaptureTarget, outputs: Outputs) -> bool {
    !s.session && s.wlr_geometry != match output_of(s, outputs) {
        Some(output) => WlrGeometry::matching(output, target),
        None => None,
    }
}

/// What the target shows of the slot's buffer, where frames can be updated in
/// place.
pub open spec fn shown_now(s: SlotState, target: CaptureTarget, outputs: Outputs) -> Result<
    Option<PixelRect>,
    Error,
> {
    if s.session && s.transform is Normal {
        shown_pixels(target, output_of(s, outputs), whole_of(s.buffer->0.spec))
    } else {
        Ok(None)
    }
}

/// What a full decode would be made from.
pub open spec fn key_now(s: SlotState, settings: Settings, shown: Option<PixelRect>) -> DecodeKey {
    DecodeKey {
        spec: s.buffer->0.spec,
        inverted: s.inverted,
        transform: s.transform,
        alpha: settings.alpha,
        shown,
    }
}

/// Damage limits the work only on untransformed ext frames that report any.
pub open spec fn limited(slot: Slot, settings: Settings) -> bool {
    slot.state.session && !settings.full_damage && slot.state.transform is Normal
        && slot.damage@.len() > 0
}

/// The damage covers every row of the buffer.
pub open spec fn all_damaged(damage: Seq<DamageBox>, spec: BufferSpec) -> bool {
    forall|y: int| 0 <= y < spec.height ==> #[trigger] damage::damaged(damage, whole_of(spec), y)
}

/// Whether to keep the image for in-place updates: unless an ordinary frame's
/// damage covers every row, which suggests that the compositor always reports
/// whole frames. A refresh says nothing about that, and a still has no next
/// frame.
pub open spec fn kept(slot: Slot, settings: Settings) -> bool {
    limited(slot, settings) && !settings.still && (slot.state.refresh || !all_damaged(
        slot.damage@,
        slot.state.buffer->0.spec,
    ))
}

/// The image was decoded from the same kind of buffer and may be updated.
pub open spec fn reusable(slot: Slot, key: DecodeKey) -> bool {
    slot.last is Some && slot.state.key == Some(key) && !slot.state.refresh
}

/// The state once a completed frame was taken in.
pub open spec fn consumed(s: SlotState, keep: bool, now: u64) -> SlotState {
    SlotState {
        ready: false,
        retries: 0,
        refreshed: if s.refresh || !s.session { Some(now) } else { s.refreshed },
        keep,
        ..s
    }
}

/// The image after some rows of it were converted anew from `bytes`.
pub open spec fn rows_updated(
    before: RgbaImage,
    after: RgbaImage,
    bytes: Seq<u8>,
    key: DecodeKey,
    rows: Seq<Range<u32>>,
) -> bool {
    &&& after.wf()
    &&& after.width == before.width
    &&& after.height == before.height
    &&& forall|x: int, y: int|
        after.has(x, y) ==> #[trigger] after.pixel(x, y) == if damage::covered(
            rows,
            decode::origin(key.spec, key.inverted, key.transform, x, y).1,
        ) {
            decode::decoded(bytes, key.spec, key.inverted, key.transform, key.alpha, x, y)
        } else {
            before.pixel(x, y)
        }
}

/// The damaged rows of what the target shows.
pub open spec fn shown_damage(damage: Seq<DamageBox>, shown: Option<PixelRect>, y: int) -> bool {
    match shown {
        Some(area) => damage::damaged(damage, area, y),
        None => false,
    }
}

impl Slot {
    /// Decides what a completed frame calls for. On untransformed ext frames
    /// only the damaged rows the target shows are read and converted, and
    /// damage the target does not show is skipped. After an error the frame is
    /// to be given up.
    pub fn plan(&self, target: &CaptureTarget, outputs: &Outputs, settings: Settings) -> (r: Result<
        Work,
        Error,
    >)
        requires
            self.wf(),
            outputs.wf(),
            near_target(*target, output_of(self.state, *outputs)),
        ensures
            ({
                let s = self.state;
                let shown = shown_now(s, *target, *outputs);
                if !s.ready {
                    r matches Ok(work) && work is Idle
                } else if s.buffer is None {
                    r == Err::<Work, Error>(Error::NoBuffer)
                } else if stale(s, *target, *outputs) {
                    r matches Ok(work) && work is Stale
                } else if shown is Err {
                    r == Err::<Work, Error>(shown->Err_0)
                } else {
                    let key = key_now(s, settings, shown->Ok_0);
                    let keep = kept(*self, settings);
                    if limited(*self, settings) && reusable(*self, key) {
                        if exists|y: int| shown_damage(self.damage@, shown->Ok_0, y) {
                            &&& r matches Ok(Work::Rows { rows, keep: k })
                            &&& k == keep
                            &&& self.tracks()
                            &&& rows@.len() > 0
                            &&& damage::separate(rows@)
                            &&& forall|y: int|
                                #[trigger] damage::covered(rows@, y) <==> shown_damage(
                                    self.damage@,
                                    shown->Ok_0,
                                    y,
                                )
                            &&& forall|i: int|
                                0 <= i < rows@.len() ==> output::rows_inside(
                                    s.buffer->0.spec,
                                    #[trigger] rows@[i],
                                )
                        } else {
                            r matches Ok(Work::Unchanged { keep: k }) && k == keep
                        }
                    } else {
                        r matches Ok(Work::Whole { key: made, keep: k }) && made == key && k == keep
                    }
                }
            }),
    {
        if !self.state.ready {
            return Ok(Work::Idle);
        }
        let spec = match self.state.buffer {
            Some(held) => held.spec,
            None => return Err(Error::NoBuffer),
        };
        let output: Option<&Output> = match self.state.output {
            Some(id) => match outputs.find(id) {
                Some(at) => Some(&outputs.list[at].1),
                None => None,
            },
            None => None,
        };
        assert(seen(output) == output_of(self.state, *outputs));
        if !self.state.session {
            let geometry = match output {
                Some(output) => match WlrGeometry::of(output, target) {
                    Ok(geometry) => Some(geometry),
                    Err(_) => None,
                },
                None => None,
            };
            if !same_geometry(geometry, self.state.wlr_geometry) {
                // Not counted as a retry: a reconfiguration in several steps
                // must not end the share.
                return Ok(Work::Stale);
            }
        }
        let whole = PixelRect { x: 0, y: 0, width: spec.width, height: spec.height };
        let normal = matches!(self.state.transform, Transform::Normal);
        let shown = if self.state.session && normal {
            match shown_area(target, output, whole) {
                Ok(shown) => shown,
                Err(error) => return Err(error),
            }
        } else {
            None
        };
        let key = DecodeKey {
            spec,
            inverted: self.state.inverted,
            transform: self.state.transform,
            alpha: settings.alpha,
            shown,
        };
        let reuse = self.last.is_some() && same_key(self.state.key, key) && !self.state.refresh;
        if !(self.state.session && !settings.full_damage && normal && self.damage.len() > 0) {
            return Ok(Work::Whole { key, keep: false });
        }
        let keep = !settings.still && (self.state.refresh || !covers_all(&self.damage, spec));
        if !reuse {
            return Ok(Work::Whole { key, keep });
        }
        let rows: Vec<Range<u32>> = match shown {
            Some(area) => damage::damage_rows(&self.damage, area),
            None => Vec::new(),
        };
        assert forall|y: int| #[trigger] damage::covered(rows@, y) <==> shown_damage(
            self.damage@,
            shown,
            y,
        ) by {}
        if rows.len() == 0 {
            assert forall|y: int| !shown_damage(self.damage@, shown, y) by {
                assert(!damage::covered(rows@, y));
            }
            return Ok(Work::Unchanged { keep });
        }
        proof {
            let first = rows@[0].start as int;
            assert(damage::in_band(rows@[0], first));
            assert(damage::covered(rows@, first));
            assert(shown_damage(self.damage@, shown, first));
            assert forall|i: int| 0 <= i < rows@.len() implies output::rows_inside(
                spec,
                #[trigger] rows@[i],
            ) by {
                let end = rows@[i].end - 1;
                assert(damage::in_band(rows@[i], end));
                assert(damage::covered(rows@, end));
                assert(damage::damaged(self.damage@, shown->0, end));
            }
        }
        Ok(Work::Rows { rows, keep })
    }

    /// Drops a frame that no longer matches its output; the next request is a
    /// plain copy.
    pub fn drop_stale(&mut self)
        requires
            old(self).wf(),
        ensures
            final(self).wf(),
            final(self).synced(),
            final(self).last is None,
            final(self).formats@ == old(self).formats@,
            final(self).damage@ == old(self).damage@,
            final(self).contents == old(self).contents,
            final(self).state == (SlotState {
                ready: false,
                retries: 0,
                refreshed: None,
                ..old(self).state
            }),
    {
        self.state.ready = false;
        self.state.retries = 0;
        self.state.refreshed = None;
        self.last = None;
    }

    /// Gives up a completed frame that cannot be planned for: it is no longer
    /// ready, and it was no failed attempt. A whole copy given up undecoded
    /// leaves the older image.
    pub fn give_up(&mut self)
        requires
            old(self).wf(),
        ensures
            final(self).wf(),
            old(self).synced() && !(old(self).state.session && old(self).state.refresh)
                ==> final(self).synced(),
            final(self).keeps_data(*old(self)),
            final(self).state == (SlotState { ready: false, retries: 0, ..old(self).state }),
    {
        self.state.ready = false;
        self.state.retries = 0;
    }

    /// Takes in a frame that changed nothing the target shows.
    pub fn skip(&mut self, keep: bool, now: u64)
        requires
            old(self).wf(),
            !old(self).state.refresh,
        ensures
            final(self).wf(),
            old(self).synced() ==> final(self).synced(),
            final(self).keeps_data(*old(self)),
            final(self).state == consumed(old(self).state, keep, now),
    {
        self.take_in(keep, now);
    }

    fn take_in(&mut self, keep: bool, now: u64)
        requires
            old(self).wf(),
        ensures
            final(self).wf(),
            old(self).last is None || old(self).in_step() ==> final(self).synced(),
            old(self).synced() && !old(self).state.refresh ==> final(self).synced(),
            final(self).keeps_data(*old(self)),
            final(self).state == consumed(old(self).state, keep, now),
    {
        self.state.ready = false;
        self.state.retries = 0;
        if self.state.refresh || !self.state.session {
            self.state.refreshed = Some(now);
        }
        self.state.keep = keep;
    }

    /// Takes in the whole buffer's bytes and decodes them.
    pub fn update_whole(&mut self, key: DecodeKey, bytes: Vec<u8>, keep: bool, now: u64) -> (r: Result<
        (),
        Error,
    >)
        requires
            old(self).wf(),
            old(self).state.buffer is Some,
            old(self).state.buffer->0.spec == key.spec,
            bytes@.len() == key.spec.size()->Ok_0,
        ensures
            final(self).wf(),
            final(self).synced(),
            final(self).formats@ == old(self).formats@,
            final(self).damage@ == old(self).damage@,
            final(self).contents.bytes@ == bytes@,
            final(self).contents.bytes_read == output::counted(
                old(self).contents.bytes_read as int,
                bytes@.len() as int,
            ),
            match r {
                Ok(()) => {
                    &&& !(key.transform is Other)
                    &&& final(self).last is Some
                    &&& session::decoded_from(final(self).last->0, bytes@, key)
                    &&& final(self).state == consumed(
                        SlotState { key: Some(key), ..old(self).state },
                        keep,
                        now,
                    )
                },
                Err(error) => {
                    &&& key.transform is Other
                    &&& error == Error::Pixels(pixels::Error::UnsupportedTransform)
                    &&& final(self).last is None
                    &&& final(self).state == consumed(old(self).state, keep, now)
                },
            },
    {
        let mut image = match self.last.take() {
            Some(image) => image,
            None => RgbaImage::new(0, 0),
        };
        let count: usize = self.contents.bytes_read.saturating_add(bytes.len());
        let done = decode::decode_into(
            &bytes,
            key.spec,
            key.inverted,
            key.transform,
            key.alpha,
            &mut image,
        );
        self.contents = Contents { bytes, bytes_read: count };
        match done {
            Ok(()) => {
                proof {
                    reveal(session::decoded_from);
                }
                self.last = Some(image);
                self.state.key = Some(key);
                assert(self.in_step());
                self.take_in(keep, now);
                Ok(())
            },
            Err(error) => {
                self.take_in(keep, now);
                Err(Error::Pixels(error))
            },
        }
    }

    /// Takes in the bytes read for some rows and converts only those. An image
    /// that was what the buffer's bytes decode to is so again.
    pub fn update_rows(&mut self, rows: &Vec<Range<u32>>, read: &Vec<Vec<u8>>, keep: bool, now: u64)
        requires
            old(self).wf(),
            old(self).last is Some,
            old(self).state.key is Some,
            old(self).state.buffer is Some,
            old(self).state.buffer->0.spec == old(self).state.key->0.spec,
            !old(self).state.refresh,
            read@.len() == rows@.len(),
            forall|i: int|
                0 <= i < rows@.len() ==> output::rows_inside(
                    old(self).state.key->0.spec,
                    #[trigger] rows@[i],
                ) && read@[i]@.len() == output::row_bytes(
                    old(self).state.key->0.spec,
                    rows@[i],
                ).1 - output::row_bytes(old(self).state.key->0.spec, rows@[i]).0,
        ensures
            final(self).wf(),
            final(self).last is Some,
            rows_updated(
                old(self).last->0,
                final(self).last->0,
                final(self).contents.bytes@,
                old(self).state.key->0,
                rows@,
            ),
            old(self).in_step() ==> final(self).in_step(),
            old(self).synced() ==> final(self).synced(),
            final(self).formats@ == old(self).formats@,
            final(self).damage@ == old(self).damage@,
            final(self).state == consumed(old(self).state, keep, now),
            final(self).contents.bytes@ == filled(
                old(self).contents.bytes@,
                old(self).state.key->0.spec,
                rows@,
                read@,
                rows@.len() as int,
            ),
            final(self).contents.bytes_read == counted(
                old(self).contents.bytes_read as int,
                read@,
                rows@.len() as int,
            ),
    {
        let key = match self.state.key {
            Some(key) => key,
            None => return ,
        };
        let spec = key.spec;
        let mut image = match self.last.take() {
            Some(image) => image,
            None => return ,
        };
        let ghost first = self.contents.bytes@;
        let ghost shown = image;
        assert(rows_updated(shown, image, first, key, rows@.take(0)));
        let mut i: usize = 0;
        while i < rows.len()
            invariant
                i <= rows@.len() == read@.len(),
                spec == key.spec,
                spec.size() is Ok,
                !(key.transform is Other),
                self.state == old(self).state,
                self.last is None,
                self.formats@ == old(self).formats@,
                self.damage@ == old(self).damage@,
                self.contents.bytes@.len() == spec.size()->Ok_0,
                self.contents.bytes@ == filled(first, spec, rows@, read@, i as int),
                self.contents.bytes_read == counted(
                    old(self).contents.bytes_read as int,
                    read@,
                    i as int,
                ),
                forall|k: int|
                    0 <= k < rows@.len() ==> output::rows_inside(spec, #[trigger] rows@[k])
                        && read@[k]@.len() == output::row_bytes(spec, rows@[k]).1
                        - output::row_bytes(spec, rows@[k]).0,
                Some(shown) == old(self).last,
                old(self).state.key == Some(key),
                session::shaped(image, key),
                rows_updated(shown, image, self.contents.bytes@, key, rows@.take(i as int)),
                old(self).in_step() ==> session::decoded_from(image, self.contents.bytes@, key),
            decreases rows@.len() - i,
        {
            let band = Range { start: rows[i].start, end: rows[i].end };
            let ghost before = image;
            let ghost old_bytes = self.contents.bytes@;
            proof {
                reveal(session::decoded_from);
            }
            assert(output::rows_inside(spec, rows@[i as int]));
            assert(output::rows_inside(spec, band));
            assert(output::row_bytes(spec, band) == output::row_bytes(spec, rows@[i as int]));
            let at: usize = match output::row_span(spec, Range { start: band.start, end: band.end }) {
                Ok(span) => span.0,
                Err(_) => 0,
            };
            proof {
                let again = Range { start: band.start, end: band.end };
                assert(output::rows_inside(spec, again));
                assert(at == output::row_bytes(spec, rows@[i as int]).0);
                let e = band.end as int;
                let h = spec.height as int;
                let stride = spec.stride as int;
                assert(e * stride <= stride * h) by (nonlinear_arith)
                    requires
                        e <= h,
                        0 <= stride,
                ;
            }
            self.contents.fill(at, &read[i]);
            let ghost start = band.start;
            let ghost end = band.end;
            let done = decode::decode_rows_into(
                &self.contents.bytes,
                spec,
                key.inverted,
                key.transform,
                key.alpha,
                band,
                &mut image,
            );
            proof {
                assert(done is Ok);
                let new_bytes = self.contents.bytes@;
                let touched = |y: int| start <= y < end;
                assert forall|x: int, y: int|
                    0 <= x < spec.width && 0 <= y < spec.height && !touched(y) implies
                    #[trigger] spec.stored_pixel(old_bytes, x, y) == spec.stored_pixel(
                    new_bytes,
                    x,
                    y,
                ) by {
                    lemma_other_rows_stay(spec, x, y, start as int, end as int);
                    pixels::lemma_buffer_bounds(spec, x, y);
                    assert(spec.stored_pixel(old_bytes, x, y) =~= spec.stored_pixel(
                        new_bytes,
                        x,
                        y,
                    ));
                }
                if old(self).in_step() {
                    decode::damage_limited_updates_match_a_full_decode(
                        before,
                        image,
                        old_bytes,
                        new_bytes,
                        spec,
                        key.inverted,
                        key.transform,
                        key.alpha,
                        touched,
                    );
                }
                assert(rows@.take(i + 1).drop_last() =~= rows@.take(i as int));
                lemma_more_rows_updated(
                    shown,
                    before,
                    image,
                    old_bytes,
                    new_bytes,
                    key,
                    rows@.take(i + 1),
                );
            }
            i = i + 1;
        }
        assert(rows@.take(i as int) =~= rows@);
        self.last = Some(image);
        self.take_in(keep, now);
    }
}

/// Converting one more band of rows.
proof fn lemma_more_rows_updated(
    first: RgbaImage,
    before: RgbaImage,
    after: RgbaImage,
    old_bytes: Seq<u8>,
    new_bytes: Seq<u8>,
    key: DecodeKey,
    rows: Seq<Range<u32>>,
)
    requires
        rows.len() > 0,
        session::shaped(first, key),
        rows_updated(first, before, old_bytes, key, rows.drop_last()),
        after.wf(),
        after.width == before.width,
        after.height == before.height,
        forall|x: int, y: int|
            after.has(x, y) ==> #[trigger] after.pixel(x, y) == if damage::in_band(
                rows.last(),
                decode::origin(key.spec, key.inverted, key.transform, x, y).1,
            ) {
                decode::decoded(
                    new_bytes,
                    key.spec,
                    key.inverted,
                    key.transform,
                    key.alpha,
                    x,
                    y,
                )
            } else {
                before.pixel(x, y)
            },
        forall|x: int, y: int|
            0 <= x < key.spec.width && 0 <= y < key.spec.height && !damage::in_band(rows.last(), y)
                ==> #[trigger] key.spec.stored_pixel(old_bytes, x, y) == key.spec.stored_pixel(
                new_bytes,
                x,
                y,
            ),
    ensures
        rows_updated(first, after, new_bytes, key, rows),
{
    assert forall|x: int, y: int| after.has(x, y) implies #[trigger] after.pixel(x, y)
        == if damage::covered(
        rows,
        decode::origin(key.spec, key.inverted, key.transform, x, y).1,
    ) {
        decode::decoded(new_bytes, key.spec, key.inverted, key.transform, key.alpha, x, y)
    } else {
        first.pixel(x, y)
    } by {
        let from = decode::origin(key.spec, key.inverted, key.transform, x, y);
        assert(before.has(x, y));
        assert(0 <= from.0 < key.spec.width && 0 <= from.1 < key.spec.height);
        let rest = rows.drop_last();
        if damage::in_band(rows.last(), from.1) {
            assert(damage::in_band(rows[rows.len() - 1], from.1));
        } else {
            assert(key.spec.stored_pixel(old_bytes, from.0, from.1) == key.spec.stored_pixel(
                new_bytes,
                from.0,
                from.1,
            ));
            if damage::covered(rows, from.1) {
                let i = choose|i: int|
                    0 <= i < rows.len() && damage::in_band(#[trigger] rows[i], from.1);
                assert(damage::in_band(rest[i], from.1));
            }
            if damage::covered(rest, from.1) {
                let i = choose|i: int|
                    0 <= i < rest.len() && damage::in_band(#[trigger] rest[i], from.1);
                assert(damage::in_band(rows[i], from.1));
            }
        }
    }
}

/// A buffer's bytes once the first `count` bands of rows were read.
pub open spec fn filled(
    bytes: Seq<u8>,
    spec: BufferSpec,
    rows: Seq<Range<u32>>,
    read: Seq<Vec<u8>>,
    count: int,
) -> Seq<u8>
    decreases count,
{
    if count <= 0 {
        bytes
    } else {
        let before = filled(bytes, spec, rows, read, count - 1);
        let at = output::row_bytes(spec, rows[count - 1]).0;
        let found = read[count - 1]@;
        Seq::new(
            before.len(),
            |i: int|
                if at <= i < at + found.len() {
                    found[i - at]
                } else {
                    before[i]
                },
        )
    }
}

/// The count of bytes read once the first `count` bands of rows were read.
pub open spec fn counted(before: int, read: Seq<Vec<u8>>, count: int) -> int
    decreases count,
{
    if count <= 0 {
        before
    } else {
        output::counted(counted(before, read, count - 1), read[count - 1]@.len() as int)
    }
}

/// A pixel outside some rows does not share bytes with them.
proof fn lemma_other_rows_stay(spec: BufferSpec, x: int, y: int, start: int, end: int)
    requires
        spec.size() is Ok,
        0 <= x < spec.width,
        0 <= y < spec.height,
        !(start <= y < end),
        0 <= start <= end,
    ensures
        ({
            let at = y * spec.stride + x * pixels::pixel_size(spec.format);
            let n = pixels::pixel_size(spec.format);
            at + n <= start * spec.stride || at >= end * spec.stride
        }),
{
    let n = pixels::pixel_size(spec.format);
    let w = spec.width as int;
    let stride = spec.stride as int;
    assert(0 <= x * n && x * n + n <= w * n) by (nonlinear_arith)
        requires
            0 <= x < w,
            0 <= n,
    ;
    if y < start {
        assert(y * stride + stride <= start * stride) by (nonlinear_arith)
            requires
                y < start,
                0 <= stride,
        ;
    } else {
        assert(y * stride >= end * stride) by (nonlinear_arith)
            requires
                y >= end,
                0 <= stride,
        ;
    }
}

fn same_geometry(a: Option<WlrGeometry>, b: Option<WlrGeometry>) -> (r: bool)
    ensures
        r == (a == b),
{
    match (a, b) {
        (Some(a), Some(b)) => a == b,
        (None, None) => true,
        _ => false,
    }
}

fn same_key(held: Option<DecodeKey>, key: DecodeKey) -> (r: bool)
    ensures
        r == (held == Some(key)),
{
    match held {
        Some(held) => held == key,
        None => false,
    }
}

/// Whether the damage covers every row: merged bands do so only as the single
/// band of all rows.
fn covers_all(damage: &Vec<DamageBox>, spec: BufferSpec) -> (r: bool)
    requires
        spec.height > 0,
    ensures
        r == all_damaged(damage@, spec),
{
    let whole = PixelRect { x: 0, y: 0, width: spec.width, height: spec.height };
    let bands = damage::damage_rows(damage, whole);
    proof {
        if all_damaged(damage@, spec) {
            assert forall|y: int| #[trigger] damage::covered(bands@, y) <==> 0 <= y < spec.height by {
                if damage::covered(bands@, y) {
                    assert(damage::damaged(damage@, whole, y));
                }
                if 0 <= y < spec.height {
                    assert(damage::damaged(damage@, whole_of(spec), y));
                }
            }
            damage::covering_every_row_is_one_band(bands@, spec.height);
        }
    }
    if bands.len() > 0 && bands[0].start == 0 && bands[0].end == spec.height {
        assert forall|y: int| 0 <= y < spec.height implies #[trigger] damage::damaged(
            damage@,
            whole_of(spec),
            y,
        ) by {
            assert(damage::in_band(bands@[0], y));
            assert(damage::covered(bands@, y));
        }
        true
    } else {
        false
    }
}

/// What the compositor offers for capturing.
#[derive(Debug, Clone, Copy, PartialEq, Eq, Structural)]
pub struct Abilities {
    /// Ext capture sessions.
    pub copy: bool,
    /// Ext sources of outputs.
    pub output_source: bool,
    /// Ext sources of windows.
    pub top_source: bool,
    /// Wlr frames.
    pub wlr_copy: bool,
}

/// A source to add: an output or, without one, the window.
#[derive(Debug, Clone, Copy, PartialEq, Eq, Structural)]
pub struct Source {
    pub output: Option<u32>,
    /// Through an ext session.
    pub session: bool,
}

/// Whether one of the windows has that identifier.
pub open spec fn listed(toplevels: Seq<String>, identifier: Seq<char>) -> bool {
    exists|i: int| 0 <= i < toplevels.len() && (#[trigger] toplevels[i])@ == identifier
}

/// The outputs that share some area with a rectangle, in order.
pub open spec fn reached(outputs: Seq<(u32, Output)>, rect: Rect) -> Seq<u32>
    decreases outputs.len(),
{
    if outputs.len() == 0 {
        Seq::empty()
    } else {
        let fewer = reached(outputs.drop_last(), rect);
        if outputs.last().1.area().overlap(rect) is Some {
            fewer.push(outputs.last().0)
        } else {
            fewer
        }
    }
}

/// A single output as a source, or why it cannot be one.
pub open spec fn output_source(entry: (u32, Output), abilities: Abilities) -> Result<Source, Error> {
    let session = abilities.copy && abilities.output_source;
    if entry.1.area().width == 0 || entry.1.area().height == 0 {
        Err(Error::NoGeometry)
    } else if !session && !abilities.wlr_copy {
        Err(Error::NoCapture)
    } else {
        Ok(Source { output: Some(entry.0), session })
    }
}

/// The target names an output of the list.
pub open spec fn target_output(target: CaptureTarget) -> Option<Seq<char>> {
    match target {
        CaptureTarget::Output(name) => Some(name@),
        CaptureTarget::Region(region) => Some(region.output@),
        _ => None,
    }
}

/// The target is empty or has no identifier.
pub open spec fn invalid(target: CaptureTarget) -> Option<Error> {
    match target {
        CaptureTarget::Region(region) => if region.rect.width == 0 || region.rect.height == 0 {
            Some(Error::EmptyRegion)
        } else {
            None
        },
        CaptureTarget::DesktopRect(rect) => if rect.width == 0 || rect.height == 0 {
            Some(Error::EmptyRegion)
        } else {
            None
        },
        CaptureTarget::Toplevel(identifier) => if identifier@.len() == 0 {
            Some(Error::NoIdentifier)
        } else {
            None
        },
        CaptureTarget::Output(_) => None,
    }
}

/// A source for every output that the rectangle reaches.
fn reached_sources(outputs: &Outputs, rect: Rect, session: bool) -> (found: Vec<Source>)
    ensures
        found@ == reached(outputs.list@, rect).map_values(
            |id: u32| Source { output: Some(id), session },
        ),
        found@.len() == reached(outputs.list@, rect).len(),
{
    let mut found: Vec<Source> = Vec::new();
    let mut i: usize = 0;
    while i < outputs.list.len()
        invariant
            i <= outputs.list@.len(),
            found@ == reached(outputs.list@.take(i as int), rect).map_values(
                |id: u32| Source { output: Some(id), session },
            ),
        decreases outputs.list@.len() - i,
    {
        let entry = &outputs.list[i];
        let ghost part = outputs.list@.take(i + 1);
        assert(part.drop_last() =~= outputs.list@.take(i as int));
        if entry.1.rect().intersect(rect).is_some() {
            found.push(Source { output: Some(entry.0), session });
        }
        assert(found@ =~= reached(part, rect).map_values(
            |id: u32| Source { output: Some(id), session },
        ));
        i = i + 1;
    }
    assert(outputs.list@.take(i as int) =~= outputs.list@);
    found
}

/// The sources a target needs: its window, its output, or every output that a
/// desktop rectangle reaches. Ext sessions are used where the compositor has
/// them.
pub fn sources(
    target: &CaptureTarget,
    outputs: &Outputs,
    toplevels: &Vec<String>,
    abilities: Abilities,
) -> (r: Result<Vec<Source>, Error>)
    requires
        outputs.wf(),
    ensures
        match invalid(*target) {
            Some(error) => r == Err::<Vec<Source>, Error>(error),
            None => match *target {
                CaptureTarget::Toplevel(identifier) => {
                    if !abilities.copy {
                        r == Err::<Vec<Source>, Error>(Error::NoWindowCapture)
                    } else if !abilities.top_source {
                        r == Err::<Vec<Source>, Error>(Error::NoWindowSource)
                    } else if !listed(toplevels@, identifier@) {
                        r == Err::<Vec<Source>, Error>(Error::WindowGone)
                    } else {
                        r matches Ok(found) && found@ == seq![Source { output: None, session: true }]
                    }
                },
                CaptureTarget::DesktopRect(rect) => {
                    let ids = reached(outputs.list@, rect);
                    let session = abilities.copy && abilities.output_source;
                    if ids.len() == 0 {
                        r == Err::<Vec<Source>, Error>(Error::OutsideAllOutputs)
                    } else if !session && !abilities.wlr_copy {
                        r == Err::<Vec<Source>, Error>(Error::NoCapture)
                    } else {
                        r matches Ok(found) && found@ == ids.map_values(
                            |id: u32| Source { output: Some(id), session },
                        )
                    }
                },
                _ => {
                    let name = target_output(*target)->0;
                    ||| outputs.nameless(name) && r == Err::<Vec<Source>, Error>(
                        Error::OutputUnavailable,
                    )
                    ||| exists|i: int|
                        #[trigger] outputs.first_named(name, i) && match output_source(
                            outputs.list@[i],
                            abilities,
                        ) {
                            Ok(source) => r matches Ok(found) && found@ == seq![source],
                            Err(error) => r == Err::<Vec<Source>, Error>(error),
                        }
                },
            },
        },
{
    let session = abilities.copy && abilities.output_source;
    match target {
        CaptureTarget::Toplevel(identifier) => {
            if identifier.as_str().is_empty() {
                return Err(Error::NoIdentifier);
            }
            if !abilities.copy {
                return Err(Error::NoWindowCapture);
            }
            if !abilities.top_source {
                return Err(Error::NoWindowSource);
            }
            if !is_listed(toplevels, identifier.as_str()) {
                return Err(Error::WindowGone);
            }
            let found = vec![Source { output: None, session: true }];
            assert(found@ =~= seq![Source { output: None, session: true }]);
            Ok(found)
        },
        CaptureTarget::Output(name) => named_source(outputs, name.as_str(), abilities),
        CaptureTarget::Region(region) => {
            if region.rect.width == 0 || region.rect.height == 0 {
                return Err(Error::EmptyRegion);
            }
            named_source(outputs, region.output.as_str(), abilities)
        },
        CaptureTarget::DesktopRect(rect) => {
            if rect.width == 0 || rect.height == 0 {
                return Err(Error::EmptyRegion);
            }
            let found = reached_sources(outputs, *rect, session);
            if found.len() == 0 {
                return Err(Error::OutsideAllOutputs);
            }
            if !session && !abilities.wlr_copy {
                return Err(Error::NoCapture);
            }
            Ok(found)
        },
    }
}

fn is_listed(toplevels: &Vec<String>, identifier: &str) -> (r: bool)
    ensures
        r == listed(toplevels@, identifier@),
{
    let mut i: usize = 0;
    while i < toplevels.len()
        invariant
            i <= toplevels@.len(),
            forall|j: int| 0 <= j < i ==> (#[trigger] toplevels@[j])@ != identifier@,
        decreases toplevels@.len() - i,
    {
        if text::same(toplevels[i].as_str(), identifier) {
            return true;
        }
        i = i + 1;
    }
    false
}

fn named_source(outputs: &Outputs, name: &str, abilities: Abilities) -> (r: Result<
    Vec<Source>,
    Error,
>)
    ensures
        outputs.nameless(name@) && r == Err::<Vec<Source>, Error>(Error::OutputUnavailable)
            || exists|i: int|
            #[trigger] outputs.first_named(name@, i) && match output_source(
                outputs.list@[i],
                abilities,
            ) {
                Ok(source) => r matches Ok(found) && found@ == seq![source],
                Err(error) => r == Err::<Vec<Source>, Error>(error),
            },
{
    let at: usize = match outputs.find_named(name) {
        Some(at) => at,
        None => return Err(Error::OutputUnavailable),
    };
    assert(outputs.first_named(name@, at as int));
    let rect = outputs.list[at].1.rect();
    if rect.width == 0 || rect.height == 0 {
        return Err(Error::NoGeometry);
    }
    let session = abilities.copy && abilities.output_source;
    if !session && !abilities.wlr_copy {
        return Err(Error::NoCapture);
    }
    let source = Source { output: Some(outputs.list[at].0), session };
    let found = vec![source];
    assert(found@ =~= seq![source]);
    Ok(found)
}

/// When a slot needs to go on without an event: a rejected buffer after its
/// grace, a wlr frame that waits for damage at its refresh.
pub open spec fn alarm(s: SlotState, settings: Settings) -> Option<u64> {
    let at = if s.await_constraints {
        match s.await_since {
            Some(then) => Some(then + settings.constraints_grace),
            None => None,
        }
    } else if s.waiting_for_damage {
        match s.refreshed {
            Some(then) => Some(then + settings.refresh_interval),
            None => None,
        }
    } else {
        None
    };
    match at {
        Some(at) if at <= u64::MAX => Some(at as u64),
        _ => None,
    }
}

fn alarm_of(s: SlotState, settings: Settings) -> (r: Option<u64>)
    ensures
        r == alarm(s, settings),
{
    if s.await_constraints {
        match s.await_since {
            Some(then) => then.checked_add(settings.constraints_grace),
            None => None,
        }
    } else if s.waiting_for_damage {
        match s.refreshed {
            Some(then) => then.checked_add(settings.refresh_interval),
            None => None,
        }
    } else {
        None
    }
}

/// How a call for the next frame goes on.
#[derive(Debug, Clone, Copy, PartialEq, Eq, Structural)]
pub enum Step {
    /// Everything the target shows is there: render it.
    Render,
    /// Request frames and wait.
    Request,
}

/// A session's target with its sources. The connection and the shared-memory
/// buffers live outside; times are microseconds on one clock.
#[derive(Debug)]
pub struct CaptureSession {
    pub target: CaptureTarget,
    pub settings: Settings,
    pub slots: Vec<Slot>,
    pub outputs: Outputs,
    /// The number the next wlr frame gets.
    pub next_frame: u64,
}

impl CaptureSession {
    pub open spec fn wf(self) -> bool {
        &&& self.outputs.wf()
        &&& forall|i: int| 0 <= i < self.slots@.len() ==> (#[trigger] self.slots@[i]).wf()
    }

    /// The images are the decoded buffers, except while whole-buffer copies
    /// wait to be decoded.
    pub open spec fn synced(self) -> bool {
        forall|i: int| 0 <= i < self.slots@.len() ==> (#[trigger] self.slots@[i]).synced()
    }

    /// Every source has an image.
    pub open spec fn complete(self) -> bool {
        forall|i: int| 0 <= i < self.slots@.len() ==> (#[trigger] self.slots@[i]).last is Some
    }

    /// A session without sources.
    pub fn new(target: CaptureTarget, settings: Settings, outputs: Outputs) -> (r: CaptureSession)
        requires
            outputs.wf(),
        ensures
            r.wf(),
            r.target == target,
            r.settings == settings,
            r.outputs == outputs,
            r.slots@.len() == 0,
            r.next_frame == 0,
    {
        CaptureSession { target, settings, slots: Vec::new(), outputs, next_frame: 0 }
    }

    /// Adds a slot for each source.
    pub fn add_slots(&mut self, found: &Vec<Source>)
        requires
            old(self).wf(),
            forall|i: int|
                0 <= i < found@.len() ==> (#[trigger] found@[i]).session || found@[i].output is Some,
        ensures
            final(self).wf(),
            old(self).synced() ==> final(self).synced(),
            final(self).target == old(self).target,
            final(self).settings == old(self).settings,
            final(self).outputs == old(self).outputs,
            final(self).next_frame == old(self).next_frame,
            final(self).slots@.len() == old(self).slots@.len() + found@.len(),
            forall|i: int|
                0 <= i < old(self).slots@.len() ==> final(self).slots@[i] == old(self).slots@[i],
            forall|i: int|
                0 <= i < found@.len() ==> final(self).slots@[old(self).slots@.len() + i].blank(
                    (#[trigger] found@[i]).output,
                    found@[i].session,
                ),
    {
        let ghost before = self.slots@;
        let mut i: usize = 0;
        while i < found.len()
            invariant
                i <= found@.len(),
                self.wf(),
                old(self).synced() ==> self.synced(),
                self.target == old(self).target,
                self.settings == old(self).settings,
                self.outputs == old(self).outputs,
                self.next_frame == old(self).next_frame,
                before == old(self).slots@,
                self.slots@.len() == before.len() + i,
                forall|k: int|
                    0 <= k < found@.len() ==> (#[trigger] found@[k]).session
                        || found@[k].output is Some,
                forall|k: int| 0 <= k < before.len() ==> self.slots@[k] == before[k],
                forall|k: int|
                    0 <= k < i ==> self.slots@[before.len() + k].blank(
                        (#[trigger] found@[k]).output,
                        found@[k].session,
                    ),
            decreases found@.len() - i,
        {
            assert(found@[i as int].session || found@[i as int].output is Some);
            let slot = Slot::new(found[i].output, found[i].session);
            self.slots.push(slot);
            i = i + 1;
        }
    }

    /// Drops the target's slots and takes the next target, keeping the outputs.
    pub fn retarget(&mut self, target: CaptureTarget)
        requires
            old(self).wf(),
        ensures
            final(self).wf(),
            old(self).synced() ==> final(self).synced(),
            final(self).slots@.len() == 0,
            final(self).target == target,
            final(self).settings == old(self).settings,
            final(self).outputs == old(self).outputs,
            final(self).next_frame == old(self).next_frame,
    {
        self.slots.clear();
        self.target = target;
    }

    /// An output is gone: an error if one of the slots captures it.
    pub fn output_removed(&mut self, id: u32) -> (r: Option<Error>)
        requires
            old(self).wf(),
        ensures
            final(self).wf(),
            old(self).synced() ==> final(self).synced(),
            final(self).slots@ == old(self).slots@,
            final(self).target == old(self).target,
            final(self).settings == old(self).settings,
            final(self).next_frame == old(self).next_frame,
            !final(self).outputs.has(id),
            forall|other: u32|
                other != id ==> (#[trigger] final(self).outputs.has(other) <==> old(self).outputs.has(other)),
            forall|other: u32|
                other != id && old(self).outputs.has(other) ==> #[trigger] final(self).outputs.output(other) == old(self).outputs.output(other),
            r == if old(self).outputs.has(id) && (exists|i: int|
                0 <= i < old(self).slots@.len() && (#[trigger] old(self).slots@[i]).state.output
                    == Some(id)) {
                Some(Error::SelectedDisconnected)
            } else {
                None
            },
    {
        let captured = self.captures(id);
        if self.outputs.remove(id) && captured {
            Some(Error::SelectedDisconnected)
        } else {
            None
        }
    }

    /// Whether one of the slots captures the output.
    fn captures(&self, id: u32) -> (r: bool)
        ensures
            r == exists|i: int|
                0 <= i < self.slots@.len() && (#[trigger] self.slots@[i]).state.output == Some(id),
    {
        let mut i: usize = 0;
        while i < self.slots.len()
            invariant
                i <= self.slots@.len(),
                forall|j: int|
                    0 <= j < i ==> (#[trigger] self.slots@[j]).state.output != Some(id),
            decreases self.slots@.len() - i,
        {
            if let Some(output) = self.slots[i].state.output {
                if output == id {
                    assert(self.slots@[i as int].state.output == Some(id));
                    return true;
                }
            }
            i = i + 1;
        }
        false
    }

    /// Whether to render: something changed and every source has an image.
    pub fn step(&self, changed: bool) -> (r: Step)
        ensures
            r == if changed && self.complete() {
                Step::Render
            } else {
                Step::Request
            },
    {
        if !changed {
            return Step::Request;
        }
        let mut i: usize = 0;
        while i < self.slots.len()
            invariant
                i <= self.slots@.len(),
                forall|j: int| 0 <= j < i ==> (#[trigger] self.slots@[j]).last is Some,
            decreases self.slots@.len() - i,
        {
            if self.slots[i].last.is_none() {
                assert(self.slots@[i as int].last is None);
                return Step::Request;
            }
            i = i + 1;
        }
        Step::Render
    }

    /// The deadline or the first alarm, whichever comes first.
    pub open spec fn wakes_at(self, wake: u64, deadline: u64) -> bool {
        &&& wake <= deadline
        &&& forall|i: int|
            0 <= i < self.slots@.len() ==> match alarm(
                (#[trigger] self.slots@[i]).state,
                self.settings,
            ) {
                Some(at) => wake <= at,
                None => true,
            }
        &&& wake == deadline || exists|i: int|
            0 <= i < self.slots@.len() && alarm(
                (#[trigger] self.slots@[i]).state,
                self.settings,
            ) == Some(wake)
    }

    /// How long to wait for events: until the deadline, or until the first
    /// slot that goes on without one.
    pub fn wait(&self, now: u64, deadline: u64) -> (r: u64)
        ensures
            exists|wake: u64| #[trigger] self.wakes_at(wake, deadline) && r == session::elapsed(
                wake,
                now,
            ),
    {
        let mut wake: u64 = deadline;
        let mut i: usize = 0;
        while i < self.slots.len()
            invariant
                i <= self.slots@.len(),
                wake <= deadline,
                forall|j: int|
                    0 <= j < i ==> match alarm((#[trigger] self.slots@[j]).state, self.settings) {
                        Some(at) => wake <= at,
                        None => true,
                    },
                wake == deadline || exists|j: int|
                    0 <= j < i && alarm((#[trigger] self.slots@[j]).state, self.settings) == Some(
                        wake,
                    ),
            decreases self.slots@.len() - i,
        {
            let ghost before = wake;
            if let Some(at) = alarm_of(self.slots[i].state, self.settings) {
                if at < wake {
                    wake = at;
                    assert(alarm(self.slots@[i as int].state, self.settings) == Some(wake));
                }
            }
            i = i + 1;
        }
        assert(self.wakes_at(wake, deadline));
        wake.saturating_sub(now)
    }

    /// Slot `i` was asked for its next request: what became of it, and the
    /// reply.
    pub open spec fn slot_asks(
        self,
        after: CaptureSession,
        i: int,
        now: u64,
        r: Result<Request, Error>,
    ) -> bool {
        &&& 0 <= i < self.slots@.len()
        &&& self.slots@[i].asks(
            after.slots@[i],
            self.target,
            self.outputs,
            self.settings,
            (self.next_frame + i) as u64,
            now,
            r,
        )
    }

    /// Slot `i` was asked for its next request and had one.
    pub open spec fn slot_sends(self, after: CaptureSession, i: int, now: u64) -> bool {
        exists|request: Request| #[trigger] self.slot_asks(after, i, now, Ok(request))
    }

    /// The slots before slot `i` were asked, and those after it were not.
    pub open spec fn fails_first(self, after: CaptureSession, i: int, now: u64) -> bool {
        &&& after.next_frame == self.next_frame + i
        &&& forall|k: int| 0 <= k < i ==> #[trigger] self.slot_sends(after, k, now)
        &&& forall|k: int|
            i < k < self.slots@.len() ==> #[trigger] after.slots@[k] == self.slots@[k]
    }

    /// Decides what every slot sends at `now`, in order; an error ends the
    /// session.
    pub fn request_frames(&mut self, now: u64) -> (r: Result<Vec<Request>, Error>)
        requires
            old(self).wf(),
            old(self).next_frame + old(self).slots@.len() <= u64::MAX,
            forall|i: int|
                0 <= i < old(self).slots@.len() ==> !(#[trigger] old(self).slots@[i]).state.ready,
        ensures
            final(self).wf(),
            old(self).synced() ==> final(self).synced(),
            final(self).target == old(self).target,
            final(self).settings == old(self).settings,
            final(self).outputs == old(self).outputs,
            final(self).slots@.len() == old(self).slots@.len(),
            match r {
                Ok(requests) => {
                    &&& requests@.len() == old(self).slots@.len()
                    &&& final(self).next_frame == old(self).next_frame + requests@.len()
                    &&& forall|i: int|
                        0 <= i < requests@.len() ==> old(self).slot_asks(
                            *final(self),
                            i,
                            now,
                            Ok(#[trigger] requests@[i]),
                        )
                },
                Err(error) => exists|i: int| #[trigger]
                    old(self).slot_asks(*final(self), i, now, Err(error)) && old(self).fails_first(*final(self), i, now),
            },
    {
        let mut requests: Vec<Request> = Vec::new();
        let mut i: usize = 0;
        while i < self.slots.len()
            invariant
                i <= self.slots@.len(),
                self.wf(),
                old(self).synced() ==> self.synced(),
                self.target == old(self).target,
                self.settings == old(self).settings,
                self.outputs == old(self).outputs,
                self.slots@.len() == old(self).slots@.len(),
                self.next_frame == old(self).next_frame + i,
                old(self).next_frame + old(self).slots@.len() <= u64::MAX,
                requests@.len() == i,
                forall|k: int|
                    i <= k < self.slots@.len() ==> (#[trigger] self.slots@[k]) == old(self).slots@[k]
                        && !self.slots@[k].state.ready,
                forall|k: int|
                    0 <= k < i ==> old(self).slot_asks(*self, k, now, Ok(#[trigger] requests@[k])),
            decreases self.slots@.len() - i,
        {
            let id: u64 = self.next_frame;
            let ghost before = self.slots@;
            assert(before[i as int] == old(self).slots@[i as int]);
            let asked = self.slots[i].request(
                &self.target,
                &self.outputs,
                self.settings,
                id,
                now,
            );
            match asked {
                Ok(request) => requests.push(request),
                Err(error) => {
                    assert(old(self).slot_asks(*self, i as int, now, Err(error)));
                    assert forall|k: int| 0 <= k < i implies #[trigger] old(self).slot_sends(
                        *self,
                        k,
                        now,
                    ) by {
                        assert(old(self).slot_asks(*self, k, now, Ok(requests@[k])));
                    }
                    return Err(error);
                },
            }
            self.next_frame = id + 1;
            assert(old(self).slot_asks(*self, i as int, now, Ok(requests@[i as int])));
            i = i + 1;
        }
        Ok(requests)
    }
}

/// The frame shows an image unchanged, at some logical size.
pub open spec fn shows_image(frame: CapturedFrame, image: RgbaImage, width: u32, height: u32) -> bool {
    &&& frame.image.wf()
    &&& frame.image.width == image.width
    &&& frame.image.height == image.height
    &&& frame.image.data@ == image.data@
    &&& frame.logical_width == width
    &&& frame.logical_height == height
}

/// Each slot's image with its output's rectangle.
pub open spec fn tiles<'a>(slots: Seq<Slot>, outputs: Outputs) -> Seq<(&'a RgbaImage, Rect)> {
    Seq::new(
        slots.len(),
        |i: int| (&slots[i].last->0, outputs.output(slots[i].state.output->0).area()),
    )
}

impl CaptureSession {
    /// What the target shows can be rendered: every slot has its image and its
    /// output, and a desktop rectangle's tiles fit the machine.
    pub open spec fn renderable(self) -> bool {
        &&& self.slots@.len() > 0
        &&& self.complete()
        &&& !(self.target is Toplevel) ==> forall|i: int|
            0 <= i < self.slots@.len() ==> (#[trigger] self.slots@[i]).state.output is Some
                && self.outputs.has(self.slots@[i].state.output->0)
        &&& self.target matches CaptureTarget::DesktopRect(region) ==> forall|i: int|
            0 <= i < self.slots@.len() ==> compose::usable(
                #[trigger] tiles(self.slots@, self.outputs)[i],
                region,
            )
    }

    /// The target shows the image of its source as it is.
    pub open spec fn hands_out(self) -> bool {
        match self.target {
            CaptureTarget::Region(_) => self.slots@[0].state.wlr_geometry matches Some(geometry)
                && geometry.region is Some,
            CaptureTarget::DesktopRect(_) => false,
            _ => true,
        }
    }

    /// The result is the image that the target shows, or why there is none.
    pub open spec fn renders(self, r: Result<CapturedFrame, Error>) -> bool {
        let slot = self.slots@[0];
        let image = slot.last->0;
        let area = self.outputs.output(slot.state.output->0).area();
        match self.target {
            CaptureTarget::Toplevel(_) => {
                r matches Ok(frame) && shows_image(frame, image, image.width, image.height)
            },
            CaptureTarget::Output(_) => {
                r matches Ok(frame) && shows_image(frame, image, area.width, area.height)
            },
            CaptureTarget::Region(region) => match slot.state.wlr_geometry {
                Some(geometry) if geometry.region is Some => {
                    let rect = geometry.region->0;
                    r matches Ok(frame) && shows_image(
                        frame,
                        image,
                        rect.width,
                        rect.height,
                    )
                },
                _ => match frame::touched_pixels(
                    (image.width, image.height),
                    area,
                    region.rect,
                ) {
                    Some((rect, clipped)) => r matches Ok(shown) && frame::shows(
                        shown,
                        |x: int, y: int| image.pixel(x, y),
                        rect,
                        clipped,
                    ),
                    None => r == Err::<CapturedFrame, Error>(
                        Error::Pixels(pixels::Error::OutsideOutput),
                    ),
                },
            },
            CaptureTarget::DesktopRect(region) => {
                let tiles = tiles(self.slots@, self.outputs);
                let scale = compose::canvas_scale(tiles);
                match compose::refused(tiles, region) {
                    Some(error) => r == Err::<CapturedFrame, Error>(Error::Pixels(error)),
                    None => {
                        &&& r matches Ok(shown)
                        &&& shown.image.wf()
                        &&& shown.image.width == compose::canvas_side(region.width, scale)
                        &&& shown.image.height == compose::canvas_side(region.height, scale)
                        &&& shown.logical_width == region.width
                        &&& shown.logical_height == region.height
                        &&& forall|x: int, y: int|
                            shown.image.has(x, y) ==> #[trigger] shown.image.pixel(x, y)
                                == compose::painted(
                                tiles,
                                region,
                                scale,
                                tiles.len() as int,
                                x,
                                y,
                            )
                    },
                }
            },
        }
    }

    /// The image that the target shows. A single source hands its image out,
    /// or a copy while later frames can update it in place.
    pub fn render(&mut self) -> (r: Result<CapturedFrame, Error>)
        requires
            old(self).wf(),
            old(self).renderable(),
        ensures
            final(self).wf(),
            old(self).synced() ==> final(self).synced(),
            final(self).target == old(self).target,
            final(self).settings == old(self).settings,
            final(self).outputs == old(self).outputs,
            final(self).next_frame == old(self).next_frame,
            final(self).slots@.len() == old(self).slots@.len(),
            forall|i: int|
                1 <= i < old(self).slots@.len() ==> #[trigger] final(self).slots@[i]
                    == old(self).slots@[i],
            if old(self).hands_out() {
                old(self).slots@[0].handed_out(final(self).slots@[0])
            } else {
                final(self).slots@[0] == old(self).slots@[0]
            },
            old(self).renders(r),
    {
        match &self.target {
            CaptureTarget::Toplevel(_) => {
                let image = self.slots[0].image();
                let (width, height): (u32, u32) = (image.width, image.height);
                Ok(CapturedFrame { image, logical_width: width, logical_height: height })
            },
            CaptureTarget::Output(_) => {
                let rect = self.slot_rect(0);
                Ok(
                    CapturedFrame {
                        image: self.slots[0].image(),
                        logical_width: rect.width,
                        logical_height: rect.height,
                    },
                )
            },
            CaptureTarget::Region(region) => {
                let captured: Option<Rect> = match self.slots[0].state.wlr_geometry {
                    Some(geometry) => geometry.region,
                    None => None,
                };
                match captured {
                    // The frame is just the region, clipped to the output.
                    Some(rect) => Ok(
                        CapturedFrame {
                            image: self.slots[0].image(),
                            logical_width: rect.width,
                            logical_height: rect.height,
                        },
                    ),
                    None => {
                        let rect = self.slot_rect(0);
                        match &self.slots[0].last {
                            Some(image) => match frame::crop(image, rect, region.rect) {
                                Ok(shown) => Ok(shown),
                                Err(error) => Err(Error::Pixels(error)),
                            },
                            None => Err(Error::NoBuffer),
                        }
                    },
                }
            },
            CaptureTarget::DesktopRect(region) => {
                let mut parts: Vec<(&RgbaImage, Rect)> = Vec::new();
                let ghost wanted = tiles(self.slots@, self.outputs);
                let mut i: usize = 0;
                while i < self.slots.len()
                    invariant
                        i <= self.slots@.len(),
                        self.outputs.wf(),
                        self.complete(),
                        forall|k: int|
                            0 <= k < self.slots@.len() ==> (
                            #[trigger] self.slots@[k]).state.output is Some && self.outputs.has(
                                self.slots@[k].state.output->0,
                            ),
                        wanted == tiles(self.slots@, self.outputs),
                        parts@ == wanted.take(i as int),
                    decreases self.slots@.len() - i,
                {
                    assert(self.slots@[i as int].last is Some);
                    if let Some(image) = &self.slots[i].last {
                        parts.push((image, self.slot_rect(i)));
                    }
                    assert(parts@ =~= wanted.take(i + 1));
                    i = i + 1;
                }
                assert(parts@ =~= wanted);
                assert forall|k: int| 0 <= k < parts@.len() implies compose::usable(
                    #[trigger] parts@[k],
                    *region,
                ) by {
                    assert(compose::usable(tiles(self.slots@, self.outputs)[k], *region));
                }
                match compose::compose(&parts, *region) {
                    Ok(shown) => Ok(shown),
                    Err(error) => Err(Error::Pixels(error)),
                }
            },
        }
    }

    fn slot_rect(&self, i: usize) -> (r: Rect)
        requires
            self.outputs.wf(),
            i < self.slots@.len(),
            self.slots@[i as int].state.output is Some,
            self.outputs.has(self.slots@[i as int].state.output->0),
        ensures
            r == self.outputs.output(self.slots@[i as int].state.output->0).area(),
    {
        if let Some(id) = self.slots[i].state.output {
            if let Some(at) = self.outputs.find(id) {
                return self.outputs.list[at].1.rect();
            }
        }
        Rect { x: 0, y: 0, width: 0, height: 0 }
    }
}

/// Still images of one target after another over one connection. Only the
/// connection outlasts a capture. The first capture connects, and so does the
/// next one after an error or once the compositor has closed the connection.
#[derive(Debug, Clone, Copy, PartialEq, Eq, Structural)]
pub struct StillCapturer {
    pub connected: bool,
}

impl StillCapturer {
    pub fn new() -> (r: StillCapturer)
        ensures
            !r.connected,
    {
        StillCapturer { connected: false }
    }

    /// Starts a capture: whether the connection is used again. Until the
    /// capture succeeds there is none to keep.
    pub fn begin(&mut self, closed: bool) -> (reuse: bool)
        ensures
            reuse == (old(self).connected && !closed),
            !final(self).connected,
    {
        let reuse = self.connected && !closed;
        self.connected = false;
        reuse
    }

    /// Ends a capture: a connection that failed is dropped.
    pub fn end(&mut self, succeeded: bool)
        ensures
            final(self).connected == succeeded,
    {
        self.connected = succeeded;
    }
}

/// A wlr frame is decoded as the compositor flagged it: from the request to
/// its end, whatever else it sends. The upright image's first row is read from
/// the buffer's first row, or from its last one where the frame says that it is
/// inverted, and the output's transform is undone.
pub proof fn wlr_frames_are_decoded_as_flagged(
    s: SlotState,
    target: CaptureTarget,
    outputs: Outputs,
    settings: Settings,
    id: u64,
    now: u64,
    events: Seq<WlrEvent>,
    version: u32,
    bytes: Seq<u8>,
    image: RgbaImage,
    x: int,
    y: int,
)
    requires
        session::requested(s, target, outputs, settings, id, now) matches Ok(asked)
            && asked.1.capture is Wlr,
        session::unfinished(events),
        ({
            let started = (session::requested(s, target, outputs, settings, id, now)->Ok_0).0;
            let done = session::after_wlr_events(
                started,
                id,
                events.push(WlrEvent::Ready),
                version,
            );
            &&& done.buffer is Some
            &&& session::decoded_from(image, bytes, key_now(done, settings, None))
        }),
        image.has(x, y),
    ensures
        ({
            let started = (session::requested(s, target, outputs, settings, id, now)->Ok_0).0;
            let done = session::after_wlr_events(
                started,
                id,
                events.push(WlrEvent::Ready),
                version,
            );
            let spec = done.buffer->0.spec;
            let at = decode::turned(
                outputs.output(s.output->0).transform,
                image.width as int,
                image.height as int,
                x,
                y,
            );
            let row = if session::flagged(events) {
                spec.height - 1 - at.1
            } else {
                at.1
            };
            &&& done.ready
            &&& done.buffer->0.captured
            &&& image.pixel(x, y) == pixels::converted(
                spec.format,
                settings.alpha,
                spec.stored_pixel(bytes, at.0, row),
            )
        }),
{
    reveal(session::decoded_from);
    let resumed = session::resumed(s, settings, now);
    let geometry = WlrGeometry::matching(outputs.output(s.output->0), target)->0;
    session::lemma_wlr_run(resumed, geometry, id, settings, now, events, version);
    assert(events.push(WlrEvent::Ready).drop_last() =~= events);
    let started = session::started_wlr(resumed, geometry, id, settings, now);
    let done = session::after_wlr_events(started, id, events.push(WlrEvent::Ready), version);
    let spec = done.buffer->0.spec;
    if !(done.transform is Other) {
        decode::decoding_undoes_the_transform(spec, done.transform, x, y);
    }
    decode::inverting_reads_rows_from_the_end(spec, done.transform, x, y);
}

/// An ext frame is decoded by the transform that came with it.
pub proof fn ext_frames_are_decoded_as_told(
    s: SlotState,
    settings: Settings,
    shown: Option<PixelRect>,
    events: Seq<FrameEvent>,
    now: u64,
    bytes: Seq<u8>,
    image: RgbaImage,
    x: int,
    y: int,
)
    requires
        s.frame,
        !s.inverted,
        s.buffer is Some,
        !(session::told_transform(events, s.transform) is Other),
        forall|i: int|
            0 <= i < events.len() ==> !((#[trigger] events[i]) is Ready) && !(events[i] is Failed),
        session::decoded_from(
            image,
            bytes,
            key_now(
                session::after_frame_events(s, events.push(FrameEvent::Ready), now),
                settings,
                shown,
            ),
        ),
        image.has(x, y),
    ensures
        ({
            let done = session::after_frame_events(s, events.push(FrameEvent::Ready), now);
            let spec = s.buffer->0.spec;
            let at = decode::turned(
                session::told_transform(events, s.transform),
                image.width as int,
                image.height as int,
                x,
                y,
            );
            &&& done.ready && !done.frame
            &&& done.buffer == Some(Held { spec, captured: true })
            &&& image.pixel(x, y) == pixels::converted(
                spec.format,
                settings.alpha,
                spec.stored_pixel(bytes, at.0, at.1),
            )
        }),
{
    reveal(session::decoded_from);
    session::lemma_ext_run(s, events, now);
    assert(events.push(FrameEvent::Ready).drop_last() =~= events);
    decode::decoding_undoes_the_transform(
        s.buffer->0.spec,
        session::told_transform(events, s.transform),
        x,
        y,
    );
}

/// Exactly the outputs that hold a point of the rectangle are its sources.
pub proof fn reached_outputs_share_a_point(outputs: Seq<(u32, Output)>, rect: Rect, id: u32)
    ensures
        reached(outputs, rect).contains(id) <==> exists|i: int, x: int, y: int|
            #![trigger outputs[i].1.area().has(x, y)]
            0 <= i < outputs.len() && outputs[i].0 == id && outputs[i].1.area().has(x, y)
                && rect.has(x, y),
    decreases outputs.len(),
{
    if outputs.len() == 0 {
    } else {
        let rest = outputs.drop_last();
        let last = outputs.len() - 1;
        let area = outputs[last].1.area();
        let fewer = reached(rest, rect);
        let all = reached(outputs, rect);
        reached_outputs_share_a_point(rest, rect, id);
        if all.contains(id) {
            let k = choose|k: int| 0 <= k < all.len() && all[k] == id;
            if k < fewer.len() {
                assert(fewer[k] == id);
                let (i, x, y) = choose|i: int, x: int, y: int|
                    #![trigger rest[i].1.area().has(x, y)]
                    0 <= i < rest.len() && rest[i].0 == id && rest[i].1.area().has(x, y)
                        && rect.has(x, y);
                assert(outputs[i] == rest[i]);
                assert(outputs[i].1.area().has(x, y));
            } else {
                let shared = area.overlap(rect)->0;
                assert(outputs[last].1.area().has(shared.x as int, shared.y as int));
            }
        }
        if exists|i: int, x: int, y: int|
            #![trigger outputs[i].1.area().has(x, y)]
            0 <= i < outputs.len() && outputs[i].0 == id && outputs[i].1.area().has(x, y)
                && rect.has(x, y) {
            let (i, x, y) = choose|i: int, x: int, y: int|
                #![trigger outputs[i].1.area().has(x, y)]
                0 <= i < outputs.len() && outputs[i].0 == id && outputs[i].1.area().has(x, y)
                    && rect.has(x, y);
            if i < last {
                assert(rest[i] == outputs[i]);
                assert(rest[i].1.area().has(x, y));
                let k = choose|k: int| 0 <= k < fewer.len() && fewer[k] == id;
                assert(all[k] == id);
            } else {
                assert(area.overlap(rect) is Some);
                assert(all[all.len() - 1] == id);
            }
        }
    }
}

/// Pixels that the target does not show may be left stale: an image that
/// agrees with another wherever `shown_pixels` looks gives the same crop, and
/// the same tile of a desktop rectangle.
pub proof fn unshown_pixels_may_be_stale(
    target: CaptureTarget,
    output: Output,
    a: &RgbaImage,
    b: &RgbaImage,
    frame: CapturedFrame,
)
    requires
        a.wf(),
        b.wf(),
        a.width == b.width,
        a.height == b.height,
        near_target(target, Some(output)),
        match shown_pixels(
            target,
            Some(output),
            PixelRect { x: 0, y: 0, width: a.width, height: a.height },
        ) {
            Ok(Some(area)) => forall|x: int, y: int|
                area.x <= x < area.x + area.width && area.y <= y < area.y + area.height
                    ==> #[trigger] a.pixel(x, y) == b.pixel(x, y),
            _ => true,
        },
    ensures
        match target {
            CaptureTarget::Region(region) => match frame::touched_pixels(
                (a.width, a.height),
                output.area(),
                region.rect,
            ) {
                Some((part, clipped)) => frame::shows(
                    frame,
                    |x: int, y: int| a.pixel(x, y),
                    part,
                    clipped,
                ) <==> frame::shows(frame, |x: int, y: int| b.pixel(x, y), part, clipped),
                None => true,
            },
            CaptureTarget::DesktopRect(rect) => compose::alike(
                (a, output.area()),
                (b, output.area()),
                rect,
            ),
            _ => forall|x: int, y: int|
                a.has(x, y) ==> #[trigger] a.pixel(x, y) == b.pixel(x, y),
        },
{
    if let CaptureTarget::Region(region) = target {
        if let Some((part, clipped)) = frame::touched_pixels(
            (a.width, a.height),
            output.area(),
            region.rect,
        ) {
            let (p, q) = (|x: int, y: int| a.pixel(x, y), |x: int, y: int| b.pixel(x, y));
            if frame::shows(frame, p, part, clipped) {
                assert forall|x: int, y: int| frame.image.has(x, y) implies
                    #[trigger] frame.image.pixel(x, y) == q(part.x + x, part.y + y) by {
                    assert(a.pixel(part.x + x, part.y + y) == b.pixel(part.x + x, part.y + y));
                }
            }
            if frame::shows(frame, q, part, clipped) {
                assert forall|x: int, y: int| frame.image.has(x, y) implies
                    #[trigger] frame.image.pixel(x, y) == p(part.x + x, part.y + y) by {
                    assert(a.pixel(part.x + x, part.y + y) == b.pixel(part.x + x, part.y + y));
                }
            }
        }
    }
}

/// A frame has the size of what it shows: its logical points are the output's,
/// or the region's as far as they lie on the output, or the rectangle's.
pub proof fn frames_have_the_size_of_what_they_show(
    session: CaptureSession,
    frame: CapturedFrame,
    x: int,
    y: int,
)
    requires
        session.renders(Ok(frame)),
        ({
            let s = session.slots@[0].state;
            s.wlr_geometry is Some ==> s.wlr_geometry == WlrGeometry::matching(
                session.outputs.output(s.output->0),
                session.target,
            )
        }),
    ensures
        ({
            let area = session.outputs.output(session.slots@[0].state.output->0).area();
            let inside = 0 <= x < frame.logical_width && 0 <= y < frame.logical_height;
            match session.target {
                CaptureTarget::Toplevel(_) => inside <==> frame.image.has(x, y),
                CaptureTarget::Output(_) => inside <==> area.has(area.x + x, area.y + y),
                CaptureTarget::Region(region) => {
                    let left = if region.rect.x >= 0 { region.rect.x as int } else { 0 };
                    let top = if region.rect.y >= 0 { region.rect.y as int } else { 0 };
                    x >= 0 && y >= 0 ==> (inside <==> region.rect.has(left + x, top + y) && left + x
                        < area.width && top + y < area.height)
                },
                CaptureTarget::DesktopRect(rect) => inside <==> rect.has(rect.x + x, rect.y + y),
            }
        }),
{
}

/// A source that is shown whole is handed out pixel for pixel.
pub proof fn whole_sources_are_handed_out_as_they_are(
    session: CaptureSession,
    frame: CapturedFrame,
    x: int,
    y: int,
)
    requires
        session.renders(Ok(frame)),
        session.target is Toplevel || session.target is Output,
        frame.image.has(x, y),
    ensures
        session.slots@[0].last->0.has(x, y),
        frame.image.pixel(x, y) == session.slots@[0].last->0.pixel(x, y),
{
}

} // verus!
