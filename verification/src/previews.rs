//! The previews on show: what the workers' results change, what is out of date,
//! and what to ask for next.

use vstd::prelude::*;

use crate::preview;
use crate::preview::Attempt;
use crate::preview::Handed;
use crate::preview::KeyView;
use crate::preview::Offer;
use crate::preview::PreviewKey;
use crate::preview::Worker;
use crate::text;

verus! {

/// A picture on show.
#[derive(Debug, Clone, Copy, PartialEq, Eq, Structural)]
pub struct Shot {
    pub image: u64,
    pub width: u32,
    pub height: u32,
}

/// A window's thumbnail.
#[derive(Debug)]
pub struct Thumb {
    pub id: String,
    pub image: u64,
}

/// An answer of the preview's worker.
#[derive(Debug)]
pub struct PreviewResult {
    pub key: Option<PreviewKey>,
    pub frame: Result<Option<Shot>, String>,
}

/// An answer of the thumbnails' worker: the picture, if there is one.
#[derive(Debug)]
pub struct ThumbnailResult {
    pub id: String,
    pub image: Option<u64>,
}

/// The previews on show.
#[derive(Debug)]
pub struct Previews {
    pub key: Option<PreviewKey>,
    pub frame: Option<Shot>,
    pub error: Option<String>,
    /// When a preview was last asked for; nothing if one is wanted at once.
    pub updated: Option<u64>,
    pub preview: Worker<Option<PreviewKey>>,
    pub thumbnail: Worker<String>,
    pub thumbs: Vec<Thumb>,
    pub attempts: Vec<Attempt>,
    pub turn: usize,
    /// Pictures that are no longer shown.
    pub dropped: Vec<u64>,
}

/// What the previews on show stand for.
#[verifier::ext_equal]
pub struct PreviewsView {
    pub key: Option<KeyView>,
    pub frame: Option<Shot>,
    pub error: Option<Seq<char>>,
    pub updated: Option<u64>,
    pub thumbs: Seq<(Seq<char>, u64)>,
    pub attempts: Seq<(Seq<char>, u64)>,
    pub dropped: Seq<u64>,
}

pub open spec fn thumb_view(t: Thumb) -> (Seq<char>, u64) {
    (t.id@, t.image)
}

impl View for Previews {
    type V = PreviewsView;

    open spec fn view(&self) -> PreviewsView {
        PreviewsView {
            key: preview::key_view(self.key),
            frame: self.frame,
            error: text::text_of(self.error),
            updated: self.updated,
            thumbs: self.thumbs@.map_values(|t: Thumb| thumb_view(t)),
            attempts: self.attempts@.map_values(|a: Attempt| preview::attempt_view(a)),
            dropped: self.dropped@,
        }
    }
}

/// The picture goes out of show.
pub open spec fn cleared(v: PreviewsView) -> PreviewsView {
    PreviewsView {
        frame: None,
        dropped: match v.frame {
            Some(shot) => v.dropped.push(shot.image),
            None => v.dropped,
        },
        ..v
    }
}

/// The message takes the picture's place.
pub open spec fn failed(v: PreviewsView, message: Seq<char>) -> PreviewsView {
    PreviewsView { error: Some(message), ..cleared(v) }
}

/// Another source is wanted: its preview is asked for at once. Without a
/// source the reason is shown, if there is one.
pub open spec fn retargeted(
    v: PreviewsView,
    desired: Option<KeyView>,
    refusal: Option<Seq<char>>,
) -> (PreviewsView, bool) {
    let turned = if desired != v.key {
        PreviewsView { key: desired, error: None, updated: None, ..cleared(v) }
    } else {
        v
    };
    if desired is None && turned.error != refusal {
        (PreviewsView { error: refusal, ..turned }, true)
    } else {
        (turned, desired != v.key)
    }
}

/// A preview arrived. It is only shown for its exact key.
pub open spec fn answered(v: PreviewsView, result: PreviewResult) -> (PreviewsView, bool) {
    if preview::key_view(result.key) != v.key {
        (v, false)
    } else {
        match result.frame {
            Ok(Some(shot)) => (
                PreviewsView {
                    frame: Some(shot),
                    error: None,
                    dropped: match v.frame {
                        Some(old) => if old.image != shot.image {
                            v.dropped.push(old.image)
                        } else {
                            v.dropped
                        },
                        None => v.dropped,
                    },
                    ..v
                },
                true,
            ),
            Ok(None) => (v, true),
            Err(error) => (failed(v, "Preview unavailable. "@ + error@), true),
        }
    }
}

/// Previews arrived, one after the other.
pub open spec fn all_answered(v: PreviewsView, results: Seq<PreviewResult>) -> (PreviewsView, bool)
    decreases results.len(),
{
    if results.len() == 0 {
        (v, false)
    } else {
        let before = all_answered(v, results.drop_last());
        let after = answered(before.0, results.last());
        (after.0, before.1 || after.1)
    }
}

/// Which thumbnails stay.
pub enum Keep<'a> {
    Except(&'a str),
    Among(&'a Vec<String>),
}

impl<'a> Keep<'a> {
    pub open spec fn keeps(self, id: Seq<char>) -> bool {
        match self {
            Keep::Except(other) => id != other@,
            Keep::Among(alive) => contains(alive@, id),
        }
    }
}

/// The name is in the list.
pub open spec fn contains(list: Seq<String>, id: Seq<char>) -> bool {
    exists|i: int| 0 <= i < list.len() && (#[trigger] list[i])@ == id
}

/// The thumbnails that stay, and the pictures of the others.
pub open spec fn sifted(
    thumbs: Seq<(Seq<char>, u64)>,
    keep: spec_fn(Seq<char>) -> bool,
) -> (Seq<(Seq<char>, u64)>, Seq<u64>)
    decreases thumbs.len(),
{
    if thumbs.len() == 0 {
        (Seq::empty(), Seq::empty())
    } else {
        let before = sifted(thumbs.drop_last(), keep);
        if keep(thumbs.last().0) {
            (before.0.push(thumbs.last()), before.1)
        } else {
            (before.0, before.1.push(thumbs.last().1))
        }
    }
}

/// The previews with only those thumbnails that stay.
pub open spec fn thinned(v: PreviewsView, keep: spec_fn(Seq<char>) -> bool) -> PreviewsView {
    let (stay, gone) = sifted(v.thumbs, keep);
    PreviewsView { thumbs: stay, dropped: v.dropped + gone, ..v }
}

/// When the window's thumbnail was last asked for.
pub open spec fn asked_at(attempts: Seq<(Seq<char>, u64)>, id: Seq<char>) -> Option<u64>
    decreases attempts.len(),
{
    if attempts.len() == 0 {
        None
    } else if attempts[0].0 == id {
        Some(attempts[0].1)
    } else {
        asked_at(attempts.drop_first(), id)
    }
}

/// The first time comes before the second; none comes first.
pub open spec fn earlier(a: Option<u64>, b: Option<u64>) -> bool {
    match (a, b) {
        (None, Some(_)) => true,
        (Some(a), Some(b)) => a < b,
        _ => false,
    }
}

/// The first thumbnail of those that were asked for longest ago.
pub open spec fn oldest(thumbs: Seq<(Seq<char>, u64)>, attempts: Seq<(Seq<char>, u64)>) -> int
    decreases thumbs.len(),
{
    if thumbs.len() <= 1 {
        0
    } else {
        let best = oldest(thumbs.drop_last(), attempts);
        if earlier(asked_at(attempts, thumbs.last().0), asked_at(attempts, thumbs[best].0)) {
            thumbs.len() - 1
        } else {
            best
        }
    }
}

/// A thumbnail arrived. It takes the place of the window's old one; where all
/// places are taken, the oldest goes.
pub open spec fn pinned(
    v: PreviewsView,
    result: ThumbnailResult,
    alive: Seq<String>,
) -> PreviewsView {
    let id = result.id@;
    let without = thinned(v, |other: Seq<char>| other != id);
    if contains(alive, id) && result.image is Some {
        let room = if without.thumbs.len() >= preview::MAX_THUMBNAILS {
            let at = oldest(without.thumbs, without.attempts);
            PreviewsView {
                thumbs: without.thumbs.remove(at),
                dropped: without.dropped.push(without.thumbs[at].1),
                ..without
            }
        } else {
            without
        };
        PreviewsView { thumbs: room.thumbs.push((id, result.image->0)), ..room }
    } else {
        without
    }
}

/// Thumbnails arrived, one after the other.
pub open spec fn all_pinned(
    v: PreviewsView,
    results: Seq<ThumbnailResult>,
    alive: Seq<String>,
) -> PreviewsView
    decreases results.len(),
{
    if results.len() == 0 {
        v
    } else {
        pinned(all_pinned(v, results.drop_last(), alive), results.last(), alive)
    }
}

/// Windows that are gone keep neither thumbnails nor turns.
pub open spec fn expired(v: PreviewsView, alive: Seq<String>) -> PreviewsView {
    PreviewsView {
        attempts: v.attempts.filter(|a: (Seq<char>, u64)| contains(alive, a.0)),
        ..thinned(v, |id: Seq<char>| contains(alive, id))
    }
}

/// What has come in since the last time.
#[derive(Debug)]
pub struct Tick {
    pub desired: Option<PreviewKey>,
    /// Why the selected source cannot be shown.
    pub refusal: Option<String>,
    pub previews: Vec<PreviewResult>,
    pub stopped: bool,
    pub thumbnails: Vec<ThumbnailResult>,
    pub thumbnails_stopped: bool,
    /// The windows that are there.
    pub alive: Vec<String>,
}

/// The previews after a tick, and whether anything on show changed.
pub open spec fn updated(v: PreviewsView, tick: Tick) -> (PreviewsView, bool) {
    let a = retargeted(v, preview::key_view(tick.desired), text::text_of(tick.refusal));
    let b = all_answered(a.0, tick.previews@);
    let c = if tick.stopped {
        failed(b.0, "Preview stopped unexpectedly and will restart."@)
    } else {
        b.0
    };
    let d = all_pinned(c, tick.thumbnails@, tick.alive@);
    let e = expired(d, tick.alive@);
    (
        e,
        a.1 || b.1 || tick.stopped || tick.thumbnails@.len() > 0 || e.thumbs.len()
            < d.thumbs.len(),
    )
}

/// A result for another key changes nothing: no preview is ever shown for a
/// source or for settings that it was not made with.
pub proof fn stale_previews_are_not_shown(v: PreviewsView, result: PreviewResult)
    requires
        preview::key_view(result.key) != v.key,
    ensures
        answered(v, result) == (v, false),
{
}

/// A shown preview that was not there before was made for the key in force.
pub proof fn shown_previews_match_their_key(v: PreviewsView, result: PreviewResult)
    ensures
        answered(v, result).0.key == v.key,
        answered(v, result).0.frame != v.frame && answered(v, result).0.frame is Some
            ==> preview::key_view(result.key) == v.key,
{
}

/// A new key takes the old picture out of show.
pub proof fn a_new_source_shows_no_old_picture(
    v: PreviewsView,
    desired: Option<KeyView>,
    refusal: Option<Seq<char>>,
)
    requires
        desired != v.key,
    ensures
        retargeted(v, desired, refusal).0.frame is None,
        retargeted(v, desired, refusal).0.key == desired,
        retargeted(v, desired, refusal).0.updated is None,
        retargeted(v, desired, refusal).1,
{
}

proof fn lemma_sifted_len(thumbs: Seq<(Seq<char>, u64)>, keep: spec_fn(Seq<char>) -> bool)
    ensures
        sifted(thumbs, keep).0.len() <= thumbs.len(),
    decreases thumbs.len(),
{
    if thumbs.len() > 0 {
        lemma_sifted_len(thumbs.drop_last(), keep);
    }
}

proof fn lemma_oldest(thumbs: Seq<(Seq<char>, u64)>, attempts: Seq<(Seq<char>, u64)>)
    requires
        thumbs.len() > 0,
    ensures
        0 <= oldest(thumbs, attempts) < thumbs.len(),
    decreases thumbs.len(),
{
    if thumbs.len() > 1 {
        lemma_oldest(thumbs.drop_last(), attempts);
    }
}

/// There are never more thumbnails than places for them.
pub proof fn thumbnails_are_bounded(
    v: PreviewsView,
    results: Seq<ThumbnailResult>,
    alive: Seq<String>,
)
    requires
        v.thumbs.len() <= preview::MAX_THUMBNAILS,
    ensures
        all_pinned(v, results, alive).thumbs.len() <= preview::MAX_THUMBNAILS,
    decreases results.len(),
{
    if results.len() > 0 {
        thumbnails_are_bounded(v, results.drop_last(), alive);
        let before = all_pinned(v, results.drop_last(), alive);
        let id = results.last().id@;
        let keep = |other: Seq<char>| other != id;
        lemma_sifted_len(before.thumbs, keep);
        let without = thinned(before, keep);
        if without.thumbs.len() >= preview::MAX_THUMBNAILS {
            lemma_oldest(without.thumbs, without.attempts);
        }
    }
}

fn contains_id(list: &Vec<String>, id: &str) -> (r: bool)
    ensures
        r == contains(list@, id@),
{
    let mut i: usize = 0;
    while i < list.len()
        invariant
            i <= list@.len(),
            forall|j: int| 0 <= j < i ==> (#[trigger] list@[j])@ != id@,
        decreases list@.len() - i,
    {
        if text::same(list[i].as_str(), id) {
            assert(list@[i as int]@ == id@);
            return true;
        }
        i = i + 1;
    }
    false
}

fn same_text(a: &Option<String>, b: &Option<String>) -> (r: bool)
    ensures
        r == (text::text_of(*a) == text::text_of(*b)),
{
    match (a, b) {
        (Some(a), Some(b)) => text::same(a.as_str(), b.as_str()),
        (None, None) => true,
        _ => false,
    }
}

impl<'a> Keep<'a> {
    fn test(&self, id: &str) -> (r: bool)
        ensures
            r == self.keeps(id@),
    {
        match self {
            Keep::Except(other) => !text::same(id, other),
            Keep::Among(alive) => contains_id(alive, id),
        }
    }
}

/// The thumbnails as they are seen.
pub open spec fn seen(thumbs: Seq<Thumb>) -> Seq<(Seq<char>, u64)> {
    thumbs.map_values(|t: Thumb| thumb_view(t))
}

/// The attempts as they are seen.
pub open spec fn noted(attempts: Seq<Attempt>) -> Seq<(Seq<char>, u64)> {
    attempts.map_values(|a: Attempt| preview::attempt_view(a))
}

/// Takes out the thumbnails that do not stay, and notes their pictures.
fn sift(thumbs: &mut Vec<Thumb>, dropped: &mut Vec<u64>, keep: &Keep)
    ensures
        ({
            let (stay, gone) = sifted(seen(old(thumbs)@), |id: Seq<char>| keep.keeps(id));
            seen(final(thumbs)@) == stay && final(dropped)@ == old(dropped)@ + gone
        }),
{
    let ghost all = seen(thumbs@);
    let ghost test = |id: Seq<char>| keep.keeps(id);
    let ghost mut k: int = 0;
    let mut i: usize = 0;
    assert(all.take(0) =~= Seq::empty());
    assert(seen(thumbs@) =~= sifted(all.take(0), test).0 + all.skip(0));
    assert(dropped@ =~= old(dropped)@ + sifted(all.take(0), test).1);
    while i < thumbs.len()
        invariant
            0 <= k <= all.len(),
            test == (|id: Seq<char>| keep.keeps(id)),
            i == sifted(all.take(k), test).0.len(),
            seen(thumbs@) == sifted(all.take(k), test).0 + all.skip(k),
            dropped@ == old(dropped)@ + sifted(all.take(k), test).1,
        decreases all.len() - k,
    {
        proof {
            assert(all.take(k + 1).drop_last() =~= all.take(k));
            assert(all.take(k + 1).last() == all[k]);
            assert(seen(thumbs@)[i as int] == all[k]);
            assert(thumb_view(thumbs@[i as int]) == all[k]);
        }
        let ghost before = thumbs@;
        if keep.test(thumbs[i].id.as_str()) {
            i = i + 1;
            assert(seen(thumbs@) =~= sifted(all.take(k), test).0.push(all[k]) + all.skip(k + 1));
        } else {
            let gone = thumbs.remove(i);
            dropped.push(gone.image);
            assert(seen(thumbs@) =~= seen(before).remove(i as int));
            assert(seen(thumbs@) =~= sifted(all.take(k), test).0 + all.skip(k + 1));
            assert(dropped@ =~= old(dropped)@ + sifted(all.take(k), test).1.push(all[k].1));
        }
        proof {
            k = k + 1;
        }
    }
    assert(all.skip(k) =~= Seq::empty());
    assert(all.take(k) =~= all);
    assert(seen(thumbs@) =~= sifted(all, test).0);
}

/// Keeps the attempts of the windows that are there.
fn keep_alive(attempts: &mut Vec<Attempt>, alive: &Vec<String>)
    ensures
        noted(final(attempts)@) == noted(old(attempts)@).filter(
            |a: (Seq<char>, u64)| contains(alive@, a.0),
        ),
{
    let ghost all = noted(attempts@);
    let ghost test = |a: (Seq<char>, u64)| contains(alive@, a.0);
    let ghost mut k: int = 0;
    let mut i: usize = 0;
    proof {
        reveal(Seq::filter);
        assert(all.take(0) =~= Seq::empty());
        assert(noted(attempts@) =~= all.take(0).filter(test) + all.skip(0));
    }
    while i < attempts.len()
        invariant
            0 <= k <= all.len(),
            test == (|a: (Seq<char>, u64)| contains(alive@, a.0)),
            i == all.take(k).filter(test).len(),
            noted(attempts@) == all.take(k).filter(test) + all.skip(k),
        decreases all.len() - k,
    {
        proof {
            reveal(Seq::filter);
            assert(all.take(k + 1).drop_last() =~= all.take(k));
            assert(all.take(k + 1).last() == all[k]);
            assert(noted(attempts@)[i as int] == all[k]);
            assert(preview::attempt_view(attempts@[i as int]) == all[k]);
        }
        if contains_id(alive, attempts[i].id.as_str()) {
            i = i + 1;
            assert(noted(attempts@) =~= all.take(k).filter(test).push(all[k]) + all.skip(k + 1));
        } else {
            let ghost before = noted(attempts@);
            attempts.remove(i);
            assert(noted(attempts@) =~= before.remove(i as int));
            assert(noted(attempts@) =~= all.take(k).filter(test) + all.skip(k + 1));
        }
        proof {
            k = k + 1;
        }
    }
    assert(all.skip(k) =~= Seq::empty());
    assert(all.take(k) =~= all);
    assert(noted(attempts@) =~= all.filter(test));
}

fn find_attempt(attempts: &Vec<Attempt>, id: &str) -> (r: Option<u64>)
    ensures
        r == asked_at(noted(attempts@), id@),
{
    let ghost all = noted(attempts@);
    let mut i: usize = 0;
    assert(all.skip(0) =~= all);
    while i < attempts.len()
        invariant
            i <= attempts@.len(),
            all == noted(attempts@),
            asked_at(all, id@) == asked_at(all.skip(i as int), id@),
        decreases attempts@.len() - i,
    {
        proof {
            assert(all.skip(i as int)[0] == preview::attempt_view(attempts@[i as int]));
            assert(all.skip(i as int).drop_first() =~= all.skip(i + 1));
        }
        if text::same(attempts[i].id.as_str(), id) {
            return Some(attempts[i].at);
        }
        i = i + 1;
    }
    None
}

fn is_earlier(a: Option<u64>, b: Option<u64>) -> (r: bool)
    ensures
        r == earlier(a, b),
{
    match (a, b) {
        (None, Some(_)) => true,
        (Some(a), Some(b)) => a < b,
        _ => false,
    }
}

fn find_oldest(thumbs: &Vec<Thumb>, attempts: &Vec<Attempt>) -> (r: usize)
    requires
        thumbs@.len() > 0,
    ensures
        r == oldest(seen(thumbs@), noted(attempts@)),
        r < thumbs@.len(),
{
    let ghost all = seen(thumbs@);
    let ghost times = noted(attempts@);
    let mut best: usize = 0;
    let mut i: usize = 1;
    while i < thumbs.len()
        invariant
            1 <= i <= thumbs@.len(),
            best < i,
            all == seen(thumbs@),
            times == noted(attempts@),
            best == oldest(all.take(i as int), times),
        decreases thumbs@.len() - i,
    {
        proof {
            assert(all.take(i + 1).drop_last() =~= all.take(i as int));
            assert(all.take(i + 1).last() == thumb_view(thumbs@[i as int]));
            assert(all.take(i + 1)[best as int] == thumb_view(thumbs@[best as int]));
        }
        if is_earlier(
            find_attempt(attempts, thumbs[i].id.as_str()),
            find_attempt(attempts, thumbs[best].id.as_str()),
        ) {
            best = i;
        }
        i = i + 1;
    }
    assert(all.take(i as int) =~= all);
    best
}

/// The workers and the turn are as before.
pub open spec fn same_workers(a: Previews, b: Previews) -> bool {
    a.preview == b.preview && a.thumbnail == b.thumbnail && a.turn == b.turn
}

/// How a worker looks once its answers are in.
pub open spec fn drained<J>(before: Worker<J>, after: Worker<J>, answers: nat, stopped: bool) -> bool {
    if stopped {
        !after.running && after.outstanding == 0 && after.last is None
    } else {
        &&& after.running == before.running
        &&& after.last == before.last
        &&& after.outstanding == if answers >= before.outstanding {
            0
        } else {
            before.outstanding - answers
        }
    }
}

impl Previews {
    /// Nothing has been asked for yet, and nothing is shown.
    pub open spec fn blank(self) -> bool {
        &&& self.key is None
        &&& self.frame is None
        &&& self.error is None
        &&& self.updated is None
        &&& self.preview.idle()
        &&& self.thumbnail.idle()
        &&& self.thumbs@.len() == 0
        &&& self.attempts@.len() == 0
        &&& self.turn == 0
        &&& self.dropped@.len() == 0
    }

    pub fn new() -> (r: Self)
        ensures
            r.blank(),
    {
        Previews {
            key: None,
            frame: None,
            error: None,
            updated: None,
            preview: Worker::new(),
            thumbnail: Worker::new(),
            thumbs: Vec::new(),
            attempts: Vec::new(),
            turn: 0,
            dropped: Vec::new(),
        }
    }

    fn clear(&mut self)
        ensures
            final(self)@ == cleared(old(self)@),
            same_workers(*old(self), *final(self)),
    {
        if let Some(shot) = self.frame {
            self.dropped.push(shot.image);
            self.frame = None;
        }
        assert(self@ =~= cleared(old(self)@));
    }

    /// The message takes the picture's place; it is only shown without one.
    fn show_preview_error(&mut self, message: String)
        ensures
            final(self)@ == failed(old(self)@, message@),
            same_workers(*old(self), *final(self)),
    {
        self.clear();
        self.error = Some(message);
        assert(self@ =~= failed(old(self)@, message@));
    }

    fn retarget(&mut self, desired: &Option<PreviewKey>, refusal: &Option<String>) -> (r: bool)
        ensures
            (final(self)@, r) == retargeted(
                old(self)@,
                preview::key_view(*desired),
                text::text_of(*refusal),
            ),
            same_workers(*old(self), *final(self)),
    {
        let mut changed = false;
        if !preview::same_key(desired, &self.key) {
            self.clear();
            self.key = preview::copy_key(desired);
            self.error = None;
            self.updated = None;
            changed = true;
        }
        let ghost turned = self@;
        if desired.is_none() {
            if !same_text(&self.error, refusal) {
                self.error = match refusal {
                    Some(refusal) => Some(refusal.clone()),
                    None => None,
                };
                changed = true;
                assert(self@ =~= (PreviewsView { error: text::text_of(*refusal), ..turned }));
            }
        }
        changed
    }

    fn answer(&mut self, result: &PreviewResult) -> (r: bool)
        ensures
            (final(self)@, r) == answered(old(self)@, *result),
            same_workers(*old(self), *final(self)),
    {
        if !preview::same_key(&result.key, &self.key) {
            return false;
        }
        match &result.frame {
            Ok(Some(shot)) => {
                if let Some(old_shot) = self.frame {
                    if old_shot.image != shot.image {
                        self.dropped.push(old_shot.image);
                    }
                }
                self.frame = Some(*shot);
                self.error = None;
                assert(self@ =~= answered(old(self)@, *result).0);
            },
            Ok(None) => {},
            Err(error) => {
                let mut message = "Preview unavailable. ".to_owned();
                message.append(error.as_str());
                self.show_preview_error(message);
            },
        }
        true
    }

    fn pin(&mut self, result: &ThumbnailResult, alive: &Vec<String>)
        ensures
            final(self)@ == pinned(old(self)@, *result, alive@),
            same_workers(*old(self), *final(self)),
    {
        let ghost id = result.id@;
        let keep = Keep::Except(result.id.as_str());
        sift(&mut self.thumbs, &mut self.dropped, &keep);
        let ghost without = thinned(old(self)@, |other: Seq<char>| other != id);
        proof {
            let a = |other: Seq<char>| keep.keeps(other);
            let b = |other: Seq<char>| other != id;
            assert(a =~= b);
            assert(self@ =~= without);
        }
        if contains_id(alive, result.id.as_str()) {
            if let Some(image) = result.image {
                if self.thumbs.len() >= preview::MAX_THUMBNAILS {
                    let at = find_oldest(&self.thumbs, &self.attempts);
                    assert(seen(self.thumbs@)[at as int] == thumb_view(self.thumbs@[at as int]));
                    let gone = self.thumbs.remove(at);
                    self.dropped.push(gone.image);
                    assert(seen(self.thumbs@) =~= without.thumbs.remove(at as int));
                }
                let ghost room = self@;
                self.thumbs.push(Thumb { id: result.id.clone(), image });
                assert(self@.thumbs =~= room.thumbs.push((id, image)));
                assert(self@ =~= pinned(old(self)@, *result, alive@));
            }
        }
    }

    fn expire(&mut self, alive: &Vec<String>)
        ensures
            final(self)@ == expired(old(self)@, alive@),
            same_workers(*old(self), *final(self)),
    {
        let keep = Keep::Among(alive);
        sift(&mut self.thumbs, &mut self.dropped, &keep);
        keep_alive(&mut self.attempts, alive);
        proof {
            let a = |id: Seq<char>| keep.keeps(id);
            let b = |id: Seq<char>| contains(alive@, id);
            assert(a =~= b);
            assert(self@ =~= expired(old(self)@, alive@));
        }
    }

    /// Takes in what has arrived, and drops what is out of date. The result
    /// says whether anything on show changed.
    pub fn update_previews(&mut self, tick: &Tick) -> (r: bool)
        ensures
            (final(self)@, r) == updated(old(self)@, *tick),
            drained(
                old(self).preview,
                final(self).preview,
                tick.previews@.len(),
                tick.stopped,
            ),
            drained(
                old(self).thumbnail,
                final(self).thumbnail,
                tick.thumbnails@.len(),
                tick.thumbnails_stopped,
            ),
            final(self).turn == old(self).turn,
    {
        let ghost v = self@;
        let mut changed = self.retarget(&tick.desired, &tick.refusal);
        let ghost a = retargeted(v, preview::key_view(tick.desired), text::text_of(tick.refusal));
        let mut i: usize = 0;
        let ghost first = changed;
        assert(tick.previews@.take(0) =~= Seq::empty());
        while i < tick.previews.len()
            invariant
                i <= tick.previews@.len(),
                a.1 == first,
                self@ == all_answered(a.0, tick.previews@.take(i as int)).0,
                changed == (first || all_answered(a.0, tick.previews@.take(i as int)).1),
                same_workers(*old(self), *self),
            decreases tick.previews@.len() - i,
        {
            assert(tick.previews@.take(i + 1).drop_last() =~= tick.previews@.take(i as int));
            assert(tick.previews@.take(i + 1).last() == tick.previews@[i as int]);
            let more = self.answer(&tick.previews[i]);
            changed = changed || more;
            i = i + 1;
        }
        assert(tick.previews@.take(i as int) =~= tick.previews@);
        if tick.stopped {
            self.show_preview_error("Preview stopped unexpectedly and will restart.".to_owned());
            changed = true;
        }
        let ghost c = self@;
        let mut k: usize = 0;
        assert(tick.thumbnails@.take(0) =~= Seq::empty());
        while k < tick.thumbnails.len()
            invariant
                k <= tick.thumbnails@.len(),
                self@ == all_pinned(c, tick.thumbnails@.take(k as int), tick.alive@),
                same_workers(*old(self), *self),
            decreases tick.thumbnails@.len() - k,
        {
            assert(tick.thumbnails@.take(k + 1).drop_last() =~= tick.thumbnails@.take(k as int));
            assert(tick.thumbnails@.take(k + 1).last() == tick.thumbnails@[k as int]);
            self.pin(&tick.thumbnails[k], &tick.alive);
            k = k + 1;
        }
        assert(tick.thumbnails@.take(k as int) =~= tick.thumbnails@);
        let shown: usize = self.thumbs.len();
        let ghost d = self@;
        assert(shown == d.thumbs.len());
        self.expire(&tick.alive);
        assert(self.thumbs.len() == self@.thumbs.len());
        let fewer = self.thumbs.len() < shown;
        self.preview.drain(tick.previews.len(), tick.stopped);
        self.thumbnail.drain(tick.thumbnails.len(), tick.thumbnails_stopped);
        changed || tick.thumbnails.len() > 0 || fewer
    }

    /// How long the preview waits between attempts.
    pub open spec fn interval(self) -> u64 {
        if self.error is Some {
            preview::ERROR_INTERVAL
        } else {
            preview::PREVIEW_INTERVAL
        }
    }

    /// A preview is due.
    pub open spec fn due(self, now: u64) -> bool {
        &&& !preview::released(self.preview, self.key)
        &&& self.preview.outstanding == 0
        &&& match self.updated {
            Some(at) => preview::since(at, now) >= self.interval(),
            None => true,
        }
    }

    /// Whether to offer the preview's worker the key in force now.
    pub fn preview_job(&self, now: u64) -> (r: bool)
        ensures
            r == self.due(now),
    {
        let interval: u64 = if self.error.is_some() {
            preview::ERROR_INTERVAL
        } else {
            preview::PREVIEW_INTERVAL
        };
        let waited: u64 = match self.updated {
            Some(at) => now.saturating_sub(at),
            None => interval,
        };
        preview::preview_due(&self.preview, &self.key, waited, interval)
    }

    /// What became of the key that was offered. The result says whether
    /// anything on show changed.
    pub fn preview_offered(&mut self, handed: Handed, now: u64) -> (r: bool)
        requires
            old(self).preview.outstanding < usize::MAX,
        ensures
            final(self).turn == old(self).turn,
            final(self).thumbnail == old(self).thumbnail,
            match handed {
                Handed::Taken => {
                    &&& !r
                    &&& final(self)@ == (PreviewsView { updated: Some(now), ..old(self)@ })
                    &&& final(self).preview.running
                    &&& final(self).preview.outstanding == old(self).preview.outstanding + 1
                    &&& final(self).preview.last is Some
                    &&& preview::key_view(final(self).preview.last->0) == old(self)@.key
                },
                Handed::Full => {
                    &&& !r
                    &&& final(self)@ == old(self)@
                    &&& final(self).preview == (Worker { running: true, ..old(self).preview })
                },
                Handed::Disconnected => {
                    &&& r
                    &&& final(self)@ == (PreviewsView {
                        updated: Some(now),
                        ..failed(old(self)@, "Preview stopped unexpectedly and will restart."@)
                    })
                    &&& final(self).preview.idle()
                },
                Handed::Failed(error) => {
                    &&& r
                    &&& final(self)@ == (PreviewsView {
                        updated: Some(now),
                        ..failed(old(self)@, "Could not start preview: "@ + error@)
                    })
                    &&& final(self).preview == old(self).preview
                },
            },
    {
        let job = preview::copy_key(&self.key);
        match self.preview.offer(job, handed) {
            Offer::Taken => {
                self.updated = Some(now);
                false
            },
            Offer::Busy => false,
            Offer::Stopped => {
                self.show_preview_error(
                    "Preview stopped unexpectedly and will restart.".to_owned(),
                );
                self.updated = Some(now);
                true
            },
            Offer::Failed(error) => {
                let mut message = "Could not start preview: ".to_owned();
                message.append(error.as_str());
                self.show_preview_error(message);
                self.updated = Some(now);
                true
            },
        }
    }

    /// The next window whose thumbnail is due. Thumbnails keep their own pace
    /// and never wait for the preview.
    pub fn next_thumbnail<F: FnOnce() -> Vec<String>>(&mut self, candidates: F, now: u64) -> (r:
        Option<String>)
        requires
            call_requires(candidates, ()),
        ensures
            final(self)@ == old(self)@,
            final(self).preview == old(self).preview,
            final(self).thumbnail == old(self).thumbnail,
            if old(self).thumbnail.outstanding > 0 || preview::paced(old(self).attempts@, now) {
                r is None && final(self).turn == old(self).turn
            } else {
                exists|list: Vec<String>| #[trigger]
                    call_ensures(candidates, (), list) && preview::picks(
                        list@,
                        old(self).turn,
                        old(self).attempts@,
                        now,
                        r,
                    ) && final(self).turn == if list@.len() == 0 {
                        old(self).turn
                    } else {
                        preview::next_turn(old(self).turn)
                    }
            },
    {
        if self.thumbnail.pending() {
            return None;
        }
        preview::pick_thumbnail(candidates, &mut self.turn, &self.attempts, now)
    }

    /// What became of the window that was offered. One whose thumbnail could
    /// not start waits for its next turn.
    pub fn thumbnail_offered(&mut self, id: String, handed: Handed, now: u64)
        requires
            old(self).thumbnail.outstanding < usize::MAX,
        ensures
            final(self).preview == old(self).preview,
            final(self).turn == old(self).turn,
            final(self)@.attempts == if handed is Taken || handed is Failed {
                old(self)@.attempts.filter(|a: (Seq<char>, u64)| a.0 != id@).push((id@, now))
            } else {
                old(self)@.attempts
            },
            final(self)@ == (PreviewsView { attempts: final(self)@.attempts, ..old(self)@ }),
            match handed {
                Handed::Taken => {
                    &&& final(self).thumbnail.running
                    &&& final(self).thumbnail.outstanding == old(self).thumbnail.outstanding + 1
                    &&& text::text_of(final(self).thumbnail.last) == Some(id@)
                },
                Handed::Full => final(self).thumbnail == (Worker {
                    running: true,
                    ..old(self).thumbnail
                }),
                Handed::Disconnected => final(self).thumbnail.idle(),
                Handed::Failed(_) => final(self).thumbnail == old(self).thumbnail,
            },
    {
        let job = id.clone();
        match self.thumbnail.offer(job, handed) {
            Offer::Taken | Offer::Failed(_) => {
                forget(&mut self.attempts, id.as_str());
                let ghost before = self@.attempts;
                self.attempts.push(Attempt { id, at: now });
                assert(self@.attempts =~= before.push((id@, now)));
            },
            Offer::Busy | Offer::Stopped => {},
        }
    }

    /// Asks for a preview at once. `failure` tells why no worker could be
    /// started.
    pub fn retry_preview(&mut self, failure: Option<String>)
        ensures
            same_workers(*old(self), *final(self)),
            final(self)@ == (PreviewsView {
                updated: None,
                error: match failure {
                    Some(failure) => Some("Could not start preview: "@ + failure@),
                    None => old(self)@.error,
                },
                ..old(self)@
            }),
    {
        if let Some(failure) = failure {
            let mut message = "Could not start preview: ".to_owned();
            message.append(failure.as_str());
            self.error = Some(message);
        }
        self.updated = None;
    }

    /// Gives the preview up.
    pub fn release(&mut self)
        ensures
            final(self)@ == (PreviewsView { key: None, ..cleared(old(self)@) }),
            same_workers(*old(self), *final(self)),
    {
        self.clear();
        self.key = None;
    }

    /// The thumbnail of a window.
    pub fn thumbnail_of(&self, id: &str) -> (r: Option<u64>)
        ensures
            r == asked_at(self@.thumbs, id@),
    {
        let ghost all = seen(self.thumbs@);
        let mut i: usize = 0;
        assert(all.skip(0) =~= all);
        while i < self.thumbs.len()
            invariant
                i <= self.thumbs@.len(),
                all == seen(self.thumbs@),
                asked_at(all, id@) == asked_at(all.skip(i as int), id@),
            decreases self.thumbs@.len() - i,
        {
            proof {
                assert(all.skip(i as int)[0] == thumb_view(self.thumbs@[i as int]));
                assert(all.skip(i as int).drop_first() =~= all.skip(i + 1));
            }
            if text::same(self.thumbs[i].id.as_str(), id) {
                return Some(self.thumbs[i].image);
            }
            i = i + 1;
        }
        None
    }
}

/// Takes out the attempts of a window.
fn forget(attempts: &mut Vec<Attempt>, id: &str)
    ensures
        noted(final(attempts)@) == noted(old(attempts)@).filter(
            |a: (Seq<char>, u64)| a.0 != id@,
        ),
{
    let ghost all = noted(attempts@);
    let ghost test = |a: (Seq<char>, u64)| a.0 != id@;
    let ghost mut k: int = 0;
    let mut i: usize = 0;
    proof {
        reveal(Seq::filter);
        assert(all.take(0) =~= Seq::empty());
        assert(noted(attempts@) =~= all.take(0).filter(test) + all.skip(0));
    }
    while i < attempts.len()
        invariant
            0 <= k <= all.len(),
            test == (|a: (Seq<char>, u64)| a.0 != id@),
            i == all.take(k).filter(test).len(),
            noted(attempts@) == all.take(k).filter(test) + all.skip(k),
        decreases all.len() - k,
    {
        proof {
            reveal(Seq::filter);
            assert(all.take(k + 1).drop_last() =~= all.take(k));
            assert(all.take(k + 1).last() == all[k]);
            assert(noted(attempts@)[i as int] == all[k]);
            assert(preview::attempt_view(attempts@[i as int]) == all[k]);
        }
        if !text::same(attempts[i].id.as_str(), id) {
            i = i + 1;
            assert(noted(attempts@) =~= all.take(k).filter(test).push(all[k]) + all.skip(k + 1));
        } else {
            let ghost before = noted(attempts@);
            attempts.remove(i);
            assert(noted(attempts@) =~= before.remove(i as int));
            assert(noted(attempts@) =~= all.take(k).filter(test) + all.skip(k + 1));
        }
        proof {
            k = k + 1;
        }
    }
    assert(all.skip(k) =~= Seq::empty());
    assert(all.take(k) =~= all);
    assert(noted(attempts@) =~= all.filter(test));
}

/// Previews that arrive one after the other change the picture only to one that
/// was made for the key in force.
proof fn lemma_all_answered(v: PreviewsView, results: Seq<PreviewResult>)
    ensures
        all_answered(v, results).0.key == v.key,
        match all_answered(v, results).0.frame {
            Some(shot) => v.frame == Some(shot) || exists|i: int|
                0 <= i < results.len() && preview::key_view((#[trigger] results[i]).key) == v.key
                    && results[i].frame == Ok::<Option<Shot>, String>(Some(shot)),
            None => true,
        },
    decreases results.len(),
{
    if results.len() > 0 {
        let rest = results.drop_last();
        lemma_all_answered(v, rest);
        let before = all_answered(v, rest).0;
        let last = results.len() - 1;
        if let Some(shot) = all_answered(v, results).0.frame {
            if before.frame == Some(shot) {
                if v.frame != Some(shot) {
                    let i = choose|i: int|
                        0 <= i < rest.len() && preview::key_view((#[trigger] rest[i]).key) == v.key
                            && rest[i].frame == Ok::<Option<Shot>, String>(Some(shot));
                    assert(results[i] == rest[i]);
                }
            } else {
                assert(results[last] == results.last());
            }
        }
    }
}

/// After a tick the picture on show, if there is one, was made for the source
/// that is wanted now: it arrived with that key, or it was there already and
/// the wanted source is the same as before.
pub proof fn only_the_wanted_source_is_shown(v: PreviewsView, tick: Tick)
    ensures
        ({
            let after = updated(v, tick).0;
            let wanted = preview::key_view(tick.desired);
            &&& after.key == wanted
            &&& after.frame matches Some(shot) ==> (v.key == wanted && v.frame == Some(shot)) || (
            exists|i: int|
                0 <= i < tick.previews@.len() && preview::key_view(
                    (#[trigger] tick.previews@[i]).key,
                ) == wanted && tick.previews@[i].frame == Ok::<Option<Shot>, String>(Some(shot)))
            &&& tick.stopped ==> after.frame is None
        }),
{
    let wanted = preview::key_view(tick.desired);
    let a = retargeted(v, wanted, text::text_of(tick.refusal)).0;
    lemma_all_answered(a, tick.previews@);
    let b = all_answered(a, tick.previews@).0;
    let c = if tick.stopped {
        failed(b, "Preview stopped unexpectedly and will restart."@)
    } else {
        b
    };
    lemma_pinned_frame(c, tick.thumbnails@, tick.alive@);
}

proof fn lemma_pinned_frame(v: PreviewsView, results: Seq<ThumbnailResult>, alive: Seq<String>)
    ensures
        all_pinned(v, results, alive).frame == v.frame,
        all_pinned(v, results, alive).key == v.key,
        all_pinned(v, results, alive).error == v.error,
    decreases results.len(),
{
    if results.len() > 0 {
        lemma_pinned_frame(v, results.drop_last(), alive);
    }
}

proof fn lemma_sifted_ids(thumbs: Seq<(Seq<char>, u64)>, keep: spec_fn(Seq<char>) -> bool)
    ensures
        forall|i: int|
            0 <= i < sifted(thumbs, keep).0.len() ==> keep(
                (#[trigger] sifted(thumbs, keep).0[i]).0,
            ) && thumbs.contains(sifted(thumbs, keep).0[i]),
        sifted(thumbs, keep).0.len() + sifted(thumbs, keep).1.len() == thumbs.len(),
    decreases thumbs.len(),
{
    if thumbs.len() > 0 {
        let rest = thumbs.drop_last();
        lemma_sifted_ids(rest, keep);
        assert forall|i: int| 0 <= i < sifted(thumbs, keep).0.len() implies keep(
            (#[trigger] sifted(thumbs, keep).0[i]).0,
        ) && thumbs.contains(sifted(thumbs, keep).0[i]) by {
            let before = sifted(rest, keep).0;
            if i < before.len() {
                assert(sifted(thumbs, keep).0[i] == before[i]);
                let k = choose|k: int| 0 <= k < rest.len() && rest[k] == before[i];
                assert(thumbs[k] == before[i]);
            } else {
                assert(thumbs[thumbs.len() - 1] == thumbs.last());
            }
        }
    }
}

/// After a tick only windows that are there have thumbnails.
pub proof fn thumbnails_are_of_windows_that_are_there(v: PreviewsView, tick: Tick, i: int)
    requires
        0 <= i < updated(v, tick).0.thumbs.len(),
    ensures
        contains(tick.alive@, updated(v, tick).0.thumbs[i].0),
{
    let wanted = preview::key_view(tick.desired);
    let b = all_answered(
        retargeted(v, wanted, text::text_of(tick.refusal)).0,
        tick.previews@,
    ).0;
    let c = if tick.stopped {
        failed(b, "Preview stopped unexpectedly and will restart."@)
    } else {
        b
    };
    let d = all_pinned(c, tick.thumbnails@, tick.alive@);
    lemma_sifted_ids(d.thumbs, |id: Seq<char>| contains(tick.alive@, id));
}

proof fn lemma_asked_last(thumbs: Seq<(Seq<char>, u64)>, id: Seq<char>, image: u64)
    requires
        forall|i: int| 0 <= i < thumbs.len() ==> (#[trigger] thumbs[i]).0 != id,
    ensures
        asked_at(thumbs, id) is None,
        asked_at(thumbs.push((id, image)), id) == Some(image),
    decreases thumbs.len(),
{
    let more = thumbs.push((id, image));
    if thumbs.len() > 0 {
        let rest = thumbs.drop_first();
        assert forall|i: int| 0 <= i < rest.len() implies (#[trigger] rest[i]).0 != id by {
            assert(rest[i] == thumbs[i + 1]);
        }
        lemma_asked_last(rest, id, image);
        assert(more.drop_first() =~= rest.push((id, image)));
        assert(more[0] == thumbs[0]);
    } else {
        assert(more[0] == (id, image));
    }
}

/// A thumbnail that arrives for a window that is there is the one shown for it
/// from then on; one that failed, or came too late, leaves none.
pub proof fn a_new_thumbnail_is_shown(
    v: PreviewsView,
    result: ThumbnailResult,
    alive: Seq<String>,
)
    ensures
        asked_at(pinned(v, result, alive).thumbs, result.id@) == if contains(alive, result.id@) {
            result.image
        } else {
            None
        },
        pinned(v, result, alive).thumbs.len() + pinned(v, result, alive).dropped.len()
            == v.thumbs.len() + v.dropped.len() + if contains(alive, result.id@)
            && result.image is Some {
            1int
        } else {
            0int
        },
{
    let id = result.id@;
    let keep = |other: Seq<char>| other != id;
    lemma_sifted_ids(v.thumbs, keep);
    let without = thinned(v, keep);
    assert forall|i: int| 0 <= i < without.thumbs.len() implies (#[trigger] without.thumbs[i]).0
        != id by {
        assert(keep(sifted(v.thumbs, keep).0[i].0));
    }
    lemma_asked_last(without.thumbs, id, 0);
    if contains(alive, id) && result.image is Some {
        if without.thumbs.len() >= preview::MAX_THUMBNAILS {
            lemma_oldest(without.thumbs, without.attempts);
            let at = oldest(without.thumbs, without.attempts);
            let fewer = without.thumbs.remove(at);
            assert forall|i: int| 0 <= i < fewer.len() implies (#[trigger] fewer[i]).0 != id by {
                assert(fewer[i] == without.thumbs[if i < at { i } else { i + 1 }]);
            }
            lemma_asked_last(fewer, id, result.image->0);
        } else {
            lemma_asked_last(without.thumbs, id, result.image->0);
        }
    }
}

} // verus!
