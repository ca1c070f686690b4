//! What the picker does: confirming, capturing, sharing, and turning pages.

use vstd::prelude::*;

use crate::desktop;
use crate::frame::PixelMode;
use crate::hypr;
use crate::hypr::Client;
use crate::live::LiveConfig;
use crate::live::LiveSource;
use crate::picker;
use crate::picker::OmaBeam;
use crate::picker::Page;
use crate::preview;
use crate::preview::KeyView;
use crate::preview::PreviewKey;
use crate::preview::TargetView;
use crate::previews;
use crate::previews::PreviewsView;
use crate::rect::CaptureTarget;
use crate::rect::Rect;
use crate::request;
use crate::request::CaptureAction;
use crate::request::CaptureRequest;
use crate::request::Selection;
use crate::settings::Stream;
use crate::text;
use crate::wording;

verus! {

/// What to do next outside the picker.
#[derive(Debug, PartialEq, Eq)]
pub enum Action {
    Nothing,
    /// Hand the selection to the portal, and quit.
    Emit(Selection),
    /// Let an area be dragged.
    ChooseRegion,
    /// Take a screenshot.
    Capture(CaptureRequest, CaptureAction),
    /// Start a live share.
    Share(LiveSource),
}

/// Two selections stand for the same source.
pub open spec fn same_selection(a: Selection, b: Selection) -> bool {
    match (a, b) {
        (Selection::Window { id: i }, Selection::Window { id: j }) => i == j,
        (Selection::Screen { name: m }, Selection::Screen { name: n }) => m@ == n@,
        (
            Selection::Region { output: o, x: a, y: b, w: c, h: d },
            Selection::Region { output: p, x: e, y: f, w: g, h: i },
        ) => o@ == p@ && a == e && b == f && c == g && d == i,
        _ => false,
    }
}

fn copy_selection(s: &Selection) -> (r: Selection)
    ensures
        same_selection(*s, r),
{
    match s {
        Selection::Window { id } => Selection::Window { id: *id },
        Selection::Screen { name } => Selection::Screen { name: name.clone() },
        Selection::Region { output, x, y, w, h } => Selection::Region {
            output: output.clone(),
            x: *x,
            y: *y,
            w: *w,
            h: *h,
        },
    }
}

/// The status says this, and nothing else changed.
pub open spec fn says(before: OmaBeam, message: Seq<char>, after: OmaBeam) -> bool {
    after == (OmaBeam { status: after.status, ..before }) && after.status@ == message
}

/// The picker works, and says so.
pub open spec fn works(before: OmaBeam, message: Seq<char>, after: OmaBeam) -> bool {
    after == (OmaBeam { status: after.status, busy: true, ..before }) && after.status@ == message
}

/// The picker is done, and says so.
pub open spec fn rests(before: OmaBeam, message: Seq<char>, after: OmaBeam) -> bool {
    after == (OmaBeam { status: after.status, busy: false, ..before }) && after.status@ == message
}

impl OmaBeam {
    /// The selected window's client, if it can be seen.
    pub open spec fn client(self) -> Option<Client> {
        match self.chosen_client() {
            Some(i) => Some(self.clients()[i]),
            None => None,
        }
    }

    /// What would be captured, if anything is selected.
    pub open spec fn requests(self, r: Option<Result<CaptureRequest, request::Error>>) -> bool {
        match self.page {
            Page::Extend => r is None,
            Page::Outputs => match self.chosen_monitor() {
                Some(i) => r is Some && r->0 is Ok && r->0->Ok_0 is Output && r->0->Ok_0->Output_0@
                    == self.monitors()[i].name@,
                None => r is None,
            },
            Page::Region => match self.selected_region {
                Some(selection) => r is Some && r->0 is Ok && r->0->Ok_0 is Region
                    && same_selection(selection, r->0->Ok_0->Region_0),
                None => r is None,
            },
            Page::Tiles | Page::Windows => match self.client() {
                Some(client) => r is Some && if client.stable_id@.len() == 0 {
                    r->0 == Err::<CaptureRequest, request::Error>(request::Error::NotSeparate)
                } else {
                    r->0 is Ok && r->0->Ok_0 is Toplevel && r->0->Ok_0->Toplevel_0@
                        == client.stable_id@
                },
                None => r is None,
            },
        }
    }

    pub fn capture_request(&self) -> (r: Option<Result<CaptureRequest, request::Error>>)
        ensures
            self.requests(r),
    {
        match self.page {
            Page::Extend => None,
            Page::Outputs => match self.selected_monitor() {
                Some(monitor) => Some(Ok(request::request_for_monitor(monitor))),
                None => None,
            },
            Page::Region => match &self.selected_region {
                Some(selection) => Some(Ok(CaptureRequest::Region(copy_selection(selection)))),
                None => None,
            },
            Page::Tiles | Page::Windows => match self.selected_client() {
                Some(client) => Some(request::request_for_client(client)),
                None => None,
            },
        }
    }

    /// What the selected source is captured as.
    pub open spec fn wanted_target(self) -> Option<TargetView> {
        match self.page {
            Page::Extend => None,
            Page::Outputs => match self.chosen_monitor() {
                Some(i) => Some(TargetView::Output(self.monitors()[i].name@)),
                None => None,
            },
            Page::Region => match self.selected_region {
                Some(Selection::Region { output, x, y, w, h }) => if w > 0 && h > 0 {
                    Some(
                        TargetView::Region(
                            output@,
                            Rect { x, y, width: w as u32, height: h as u32 },
                        ),
                    )
                } else {
                    None
                },
                _ => None,
            },
            Page::Tiles | Page::Windows => match self.client() {
                Some(client) => if client.stable_id@.len() > 0 {
                    Some(TargetView::Toplevel(client.stable_id@))
                } else {
                    None
                },
                None => None,
            },
        }
    }

    /// The preview of the selected source as it would be shared.
    pub open spec fn wanted(self) -> Option<KeyView> {
        match self.wanted_target() {
            Some(target) => Some(
                KeyView {
                    target,
                    cursor: !self.picker && !self.screenshot_mode && self.stream.config.cursor,
                    quality: self.stream.config.quality,
                    max_width: self.stream.config.max_width,
                    pixel_mode: self.stream.config.pixel_mode,
                    screenshot: self.picker || self.screenshot_mode,
                },
            ),
            None => None,
        }
    }

    pub fn desired_preview_key(&self) -> (r: Option<PreviewKey>)
        ensures
            preview::key_view(r) == self.wanted(),
    {
        let request = match self.capture_request() {
            Some(Ok(request)) => request,
            _ => {
                return None;
            },
        };
        let target = match request.target() {
            Ok(target) => target,
            Err(_) => {
                return None;
            },
        };
        let key = PreviewKey {
            target,
            cursor: !self.picker && !self.screenshot_mode && self.stream.config.cursor,
            quality: self.stream.config.quality,
            max_width: self.stream.config.max_width,
            pixel_mode: self.stream.config.pixel_mode,
            screenshot: self.picker || self.screenshot_mode,
        };
        assert(Some(preview::target_view(target)) == self.wanted_target());
        Some(key)
    }

    /// Why the selected source cannot be shown.
    pub open spec fn refusal(self) -> Option<Seq<char>> {
        if self.page.of_windows() && self.client() is Some && self.client()->0.stable_id@.len()
            == 0 {
            Some(request::Error::NotSeparate.text())
        } else {
            None
        }
    }

    pub fn preview_refusal(&self) -> (r: Option<String>)
        ensures
            text::text_of(r) == self.refusal(),
    {
        match self.capture_request() {
            Some(Err(error)) => Some(error.message()),
            _ => None,
        }
    }

    /// The stable names of the windows that can be seen, in order.
    pub open spec fn alive(self) -> Seq<Seq<char>> {
        self.clients().filter(|c: Client| c.visible()).map_values(|c: Client| c.stable_id@)
    }

    pub fn visible_ids(&self) -> (r: Vec<String>)
        ensures
            crate::dispatch::are_texts(r@, self.alive()),
    {
        let mut ids: Vec<String> = Vec::new();
        let snapshot = match &self.snapshot {
            Some(snapshot) => snapshot,
            None => {
                proof {
                    reveal(Seq::filter);
                }
                return ids;
            },
        };
        let ghost seen = |c: Client| c.visible();
        let ghost id = |c: Client| c.stable_id@;
        let ghost all = snapshot.clients@;
        let mut i: usize = 0;
        proof {
            reveal(Seq::filter);
            assert(all.take(0) =~= Seq::empty());
        }
        while i < snapshot.clients.len()
            invariant
                i <= snapshot.clients@.len(),
                all == snapshot.clients@,
                seen == (|c: Client| c.visible()),
                id == (|c: Client| c.stable_id@),
                crate::dispatch::are_texts(ids@, all.take(i as int).filter(seen).map_values(id)),
            decreases snapshot.clients@.len() - i,
        {
            proof {
                reveal(Seq::filter);
                assert(all.take(i + 1).drop_last() =~= all.take(i as int));
                assert(all.take(i + 1).last() == all[i as int]);
            }
            if snapshot.clients[i].is_visible() {
                ids.push(snapshot.clients[i].stable_id.clone());
                assert(all.take(i as int).filter(seen).push(all[i as int]).map_values(id)
                    =~= all.take(i as int).filter(seen).map_values(id).push(
                    all[i as int].stable_id@,
                ));
            }
            i = i + 1;
        }
        assert(all.take(i as int) =~= all);
        ids
    }

    /// The windows on show that can have thumbnails.
    pub open spec fn thumbnailed(self) -> Seq<usize> {
        let list = match self.page {
            Page::Tiles => if self.snapshot is Some {
                hypr::tiles(self.clients(), self.workspace_id)
            } else {
                Seq::empty()
            },
            Page::Windows => if self.snapshot is Some {
                hypr::listing(self.clients())
            } else {
                Seq::empty()
            },
            _ => Seq::empty(),
        };
        let named = list.filter(|k: usize| self.clients()[k as int].stable_id@.len() > 0);
        if named.len() > preview::MAX_THUMBNAILS {
            named.take(preview::MAX_THUMBNAILS as int)
        } else {
            named
        }
    }

    pub fn thumbnail_candidates(&self) -> (r: Vec<String>)
        ensures
            r@.len() == self.thumbnailed().len(),
            forall|i: int|
                0 <= i < r@.len() ==> (#[trigger] r@[i])@ == self.clients()[self.thumbnailed()[
                    i
                ] as int].stable_id@,
    {
        let mut ids: Vec<String> = Vec::new();
        let list = match self.page {
            Page::Tiles => self.current_tiles(),
            Page::Windows => self.current_windows(),
            _ => Vec::new(),
        };
        let snapshot = match &self.snapshot {
            Some(snapshot) => snapshot,
            None => {
                proof {
                    reveal(Seq::filter);
                }
                return ids;
            },
        };
        let ghost named = |k: usize| self.clients()[k as int].stable_id@.len() > 0;
        let mut i: usize = 0;
        let ghost mut kept: Seq<usize> = Seq::empty();
        proof {
            reveal(Seq::filter);
            assert(list@.take(0) =~= Seq::empty());
        }
        while i < list.len() && ids.len() < preview::MAX_THUMBNAILS
            invariant
                i <= list@.len(),
                self.snapshot == Some(*snapshot),
                named == (|k: usize| self.clients()[k as int].stable_id@.len() > 0),
                forall|k: int|
                    0 <= k < list@.len() ==> (#[trigger] list@[k]) < self.clients().len(),
                kept == list@.take(i as int).filter(named),
                ids@.len() == kept.len(),
                kept.len() <= preview::MAX_THUMBNAILS,
                forall|k: int|
                    0 <= k < kept.len() ==> (#[trigger] ids@[k])@ == self.clients()[kept[
                        k
                    ] as int].stable_id@,
            decreases list@.len() - i,
        {
            proof {
                reveal(Seq::filter);
                assert(list@.take(i + 1).drop_last() =~= list@.take(i as int));
                assert(list@.take(i + 1).last() == list@[i as int]);
            }
            let client = &snapshot.clients[list[i]];
            if !client.stable_id.as_str().is_empty() {
                ids.push(client.stable_id.clone());
                proof {
                    kept = kept.push(list@[i as int]);
                }
            }
            i = i + 1;
        }
        proof {
            let all = list@.filter(named);
            assert(list@ =~= list@.take(i as int) + list@.skip(i as int));
            Seq::filter_distributes_over_add(
                list@.take(i as int),
                list@.skip(i as int),
                named,
            );
            assert(all == kept + list@.skip(i as int).filter(named));
            if i == list@.len() {
                reveal(Seq::filter);
                assert(list@.skip(i as int) =~= Seq::empty());
                assert(all =~= kept);
            } else {
                assert(all.take(preview::MAX_THUMBNAILS as int) =~= kept);
            }
            assert(self.thumbnailed() =~= kept);
        }
        ids
    }

    /// What the portal would be handed.
    pub open spec fn selection(self, r: Option<Selection>) -> bool {
        match self.page {
            Page::Extend => r is None,
            Page::Outputs => match self.chosen_monitor() {
                Some(i) => r is Some && r->0 is Screen && r->0->name@ == self.monitors()[i].name@,
                None => r is None,
            },
            Page::Region => match self.selected_region {
                Some(selection) => r is Some && same_selection(selection, r->0),
                None => r is None,
            },
            Page::Tiles | Page::Windows => match self.client() {
                Some(client) => match client.portal_id {
                    Some(id) => r == Some(Selection::Window { id }),
                    None => r is None,
                },
                None => r is None,
            },
        }
    }

    /// Something could be handed to the portal.
    pub open spec fn has_selection(self) -> bool {
        match self.page {
            Page::Extend => false,
            Page::Outputs => self.chosen_monitor() is Some,
            Page::Region => self.selected_region is Some,
            Page::Tiles | Page::Windows => self.client() is Some && self.client()->0.portal_id is Some,
        }
    }

    pub fn portal_selection(&self) -> (r: Option<Selection>)
        ensures
            self.selection(r),
            r is Some == self.has_selection(),
    {
        match self.page {
            Page::Extend => None,
            Page::Outputs => match self.selected_monitor() {
                Some(monitor) => Some(Selection::Screen { name: monitor.name.clone() }),
                None => None,
            },
            Page::Region => match &self.selected_region {
                Some(selection) => Some(copy_selection(selection)),
                None => None,
            },
            Page::Tiles | Page::Windows => match self.selected_client() {
                Some(client) => match client.portal_id {
                    Some(id) => Some(Selection::Window { id }),
                    None => None,
                },
                None => None,
            },
        }
    }

    /// An extra display has a place.
    pub open spec fn has_room(self) -> bool {
        self.snapshot is Some && exists|at: (i32, i32)|
            #[trigger] self.desktop_config.places(self.monitors(), Ok(at))
    }

    /// The source can be shared: an extra display that has a place, a source
    /// that the portal knows, or one whose preview is on show.
    pub open spec fn confirmable(self) -> bool {
        if self.page == Page::Extend {
            !self.picker && !self.screenshot_mode && self.has_room()
        } else if self.picker {
            self.has_selection()
        } else {
            &&& self.previews@.key is Some
            &&& self.previews@.key == self.wanted()
            &&& self.previews.frame is Some
            &&& self.previews.error is None
        }
    }

    pub fn can_confirm(&self) -> (r: bool)
        ensures
            r == self.confirmable(),
    {
        if self.page == Page::Extend {
            if self.picker || self.screenshot_mode {
                return false;
            }
            return match &self.snapshot {
                Some(snapshot) => {
                    let place = self.desktop_config.placement(snapshot.monitors.as_slice());
                    proof {
                        assert(self.desktop_config.places(self.monitors(), place));
                        if self.has_room() {
                            let at = choose|at: (i32, i32)|
                                #[trigger] self.desktop_config.places(self.monitors(), Ok(at));
                            desktop::a_placement_is_determined(
                                self.desktop_config,
                                self.monitors(),
                                place,
                                Ok(at),
                            );
                        }
                    }
                    place.is_ok()
                },
                None => false,
            };
        }
        if self.picker {
            return self.portal_selection().is_some();
        }
        self.previews.key.is_some() && preview::same_key(
            &self.previews.key,
            &self.desired_preview_key(),
        ) && self.previews.frame.is_some() && self.previews.error.is_none()
    }

    /// What the confirmation of a selection does.
    pub open spec fn emits(self, after: OmaBeam, r: Action) -> bool {
        if self.has_selection() {
            after == self && r is Emit && self.selection(Some(r->Emit_0))
        } else {
            r == Action::Nothing && says(
                self,
                "Select a uniquely identified window, or choose Area to share a screen region."@,
                after,
            )
        }
    }

    fn emit_selection(&mut self) -> (r: Action)
        ensures
            old(self).emits(*final(self), r),
    {
        match self.portal_selection() {
            Some(selection) => Action::Emit(selection),
            None => {
                self.status =
                    "Select a uniquely identified window, or choose Area to share a screen region.".to_owned();
                Action::Nothing
            },
        }
    }

    /// The picker waits for an area: no preview is on show or wanted.
    pub open spec fn drags(self, after: OmaBeam) -> bool {
        &&& after == (OmaBeam {
            previews: after.previews,
            busy: true,
            status: after.status,
            ..self
        })
        &&& after.previews@ == (PreviewsView { key: None, ..previews::cleared(self.previews@) })
        &&& previews::same_workers(self.previews, after.previews)
        &&& after.status@ == "Drag to select an area. Escape cancels."@
    }

    /// What asking for a screenshot does.
    pub open spec fn captures(self, action: CaptureAction, after: OmaBeam, r: Action) -> bool {
        if self.demo || self.busy || self.picker {
            after == self && r == Action::Nothing
        } else if self.page == Page::Region && self.selected_region is None {
            self.drags(after) && r == Action::ChooseRegion
        } else if self.requests(None) {
            r == Action::Nothing && says(self, "Select a tile first."@, after)
        } else if self.refusal() is Some {
            r == Action::Nothing && says(self, self.refusal()->0, after)
        } else {
            &&& r is Capture
            &&& self.requests(Some(Ok(r->Capture_0)))
            &&& r->Capture_1 == action
            &&& works(
                self,
                match action {
                    CaptureAction::Copy => "Capturing and copying…"@,
                    CaptureAction::Save => "Capturing and saving…"@,
                    CaptureAction::Share => "Capturing and opening LocalSend…"@,
                },
                after,
            )
        }
    }

    pub fn run_capture(&mut self, action: CaptureAction) -> (r: Action)
        ensures
            old(self).captures(action, *final(self), r),
    {
        if self.demo || self.busy || self.picker {
            return Action::Nothing;
        }
        if self.page == Page::Region && self.selected_region.is_none() {
            let _ = self.choose_region();
            return Action::ChooseRegion;
        }
        match self.capture_request() {
            None => {
                self.status = "Select a tile first.".to_owned();
                Action::Nothing
            },
            Some(Err(error)) => {
                self.status = error.message();
                Action::Nothing
            },
            Some(Ok(request)) => {
                self.busy = true;
                self.status = match action {
                    CaptureAction::Copy => "Capturing and copying…".to_owned(),
                    CaptureAction::Save => "Capturing and saving…".to_owned(),
                    CaptureAction::Share => "Capturing and opening LocalSend…".to_owned(),
                };
                Action::Capture(request, action)
            },
        }
    }

    /// What is said of a screenshot that was taken.
    pub open spec fn captured_text(action: CaptureAction, path: Option<String>) -> Seq<char> {
        match action {
            CaptureAction::Copy => "Screenshot copied to the clipboard."@,
            CaptureAction::Share => "Screenshot sent to LocalSend."@,
            CaptureAction::Save => match path {
                Some(path) => "Screenshot saved to "@ + path@ + "."@,
                None => "Screenshot saved."@,
            },
        }
    }

    /// A screenshot was taken, or not. The result is what the desktop is told;
    /// without one the picker is shown again.
    pub fn capture_finished(
        &mut self,
        action: CaptureAction,
        result: Result<Option<String>, String>,
    ) -> (r: Option<String>)
        ensures
            match result {
                Ok(path) => {
                    &&& rests(*old(self), OmaBeam::captured_text(action, path), *final(self))
                    &&& r is Some && r->0@ == OmaBeam::captured_text(action, path)
                },
                Err(error) => r is None && rests(
                    *old(self),
                    wording::explained(error@),
                    *final(self),
                ),
            },
    {
        self.busy = false;
        match result {
            Ok(path) => {
                let message = match action {
                    CaptureAction::Copy => "Screenshot copied to the clipboard.".to_owned(),
                    CaptureAction::Share => "Screenshot sent to LocalSend.".to_owned(),
                    CaptureAction::Save => match path {
                        Some(path) => {
                            let mut message = "Screenshot saved to ".to_owned();
                            message.append(path.as_str());
                            message.append(".");
                            message
                        },
                        None => "Screenshot saved.".to_owned(),
                    },
                };
                self.status = message.clone();
                Some(message)
            },
            Err(error) => {
                self.status = wording::friendly_error(error.as_str());
                None
            },
        }
    }

    /// What would be shared live.
    pub open spec fn source(self, r: Option<LiveSource>) -> bool {
        match self.page {
            Page::Extend => r == Some(LiveSource::Extend(self.desktop_config)),
            Page::Tiles | Page::Windows => match self.client() {
                Some(client) => {
                    &&& r is Some && r->0 is Window
                    &&& r->0->address@ == client.address@
                    &&& r->0->stable_id@ == client.stable_id@
                    &&& r->0->label@ == client.class@ + " — "@ + wording::cut(client.title@, 48)
                },
                None => r is None,
            },
            Page::Outputs => match self.chosen_monitor() {
                Some(i) => r is Some && r->0 is Output && r->0->name@ == self.monitors()[i].name@,
                None => r is None,
            },
            Page::Region => match self.selected_region {
                Some(Selection::Region { output, x, y, w, h }) => {
                    &&& r is Some && r->0 is Region
                    &&& r->0->output@ == output@
                    &&& r->0->x == x && r->0->y == y && r->0->w == w && r->0->h == h
                },
                _ => r is None,
            },
        }
    }

    pub fn live_source(&self) -> (r: Option<LiveSource>)
        ensures
            self.source(r),
            self.page != Page::Extend ==> previewed(*self, r),
    {
        match self.page {
            Page::Extend => Some(LiveSource::Extend(self.desktop_config)),
            Page::Tiles | Page::Windows => match self.selected_client() {
                Some(client) => {
                    let mut label = client.class.clone();
                    label.append(" — ");
                    label.append(wording::truncate(client.title.as_str(), 48).as_str());
                    Some(
                        LiveSource::Window {
                            address: client.address.clone(),
                            stable_id: client.stable_id.clone(),
                            label,
                        },
                    )
                },
                None => None,
            },
            Page::Outputs => match self.selected_monitor() {
                Some(monitor) => Some(LiveSource::Output { name: monitor.name.clone() }),
                None => None,
            },
            Page::Region => match &self.selected_region {
                Some(Selection::Region { output, x, y, w, h }) => Some(
                    LiveSource::Region { output: output.clone(), x: *x, y: *y, w: *w, h: *h },
                ),
                _ => None,
            },
        }
    }

    /// What asking for a live share does. From the screenshots it first goes
    /// back to the stream's preview.
    pub open spec fn shares(self, after: OmaBeam, r: Action) -> bool {
        if self.demo {
            after == self && r == Action::Nothing
        } else if self.screenshot_mode {
            &&& r == Action::Nothing
            &&& after == (OmaBeam { screenshot_mode: false, status: after.status, ..self })
            &&& after.status@ == "Check the stream preview, then start sharing."@
        } else if self.busy {
            after == self && r == Action::Nothing
        } else if self.picker {
            r == Action::Nothing && says(
                self,
                "Live share is for the standalone picker."@,
                after,
            )
        } else if !self.confirmable() {
            r == Action::Nothing && says(
                self,
                "Choose a source and wait for its preview before sharing."@,
                after,
            )
        } else if self.source(None) {
            r == Action::Nothing && says(
                self,
                "Choose a tile, window, or screen before starting live share."@,
                after,
            )
        } else {
            &&& r is Share
            &&& self.source(Some(r->Share_0))
            &&& works(
                self,
                if self.page == Page::Extend {
                    "Creating your extended desktop…"@
                } else {
                    "Starting live share…"@
                },
                after,
            )
        }
    }

    pub fn start_live(&mut self) -> (r: Action)
        ensures
            old(self).shares(*final(self), r),
    {
        if self.demo {
            return Action::Nothing;
        }
        if self.screenshot_mode {
            self.screenshot_mode = false;
            self.status = "Check the stream preview, then start sharing.".to_owned();
            return Action::Nothing;
        }
        if self.busy {
            return Action::Nothing;
        }
        if self.picker {
            self.status = "Live share is for the standalone picker.".to_owned();
            return Action::Nothing;
        }
        if !self.can_confirm() {
            self.status = "Choose a source and wait for its preview before sharing.".to_owned();
            return Action::Nothing;
        }
        match self.live_source() {
            Some(source) => {
                self.busy = true;
                self.status = if self.page == Page::Extend {
                    "Creating your extended desktop…".to_owned()
                } else {
                    "Starting live share…".to_owned()
                };
                Action::Share(source)
            },
            None => {
                self.status =
                    "Choose a tile, window, or screen before starting live share.".to_owned();
                Action::Nothing
            },
        }
    }

    /// A live share was started, and its link perhaps offered to nearby
    /// devices, or not. The result is what the desktop is told; without one the
    /// picker is shown again.
    pub fn live_finished(&mut self, result: Result<bool, String>) -> (r: Option<String>)
        ensures
            match result {
                Ok(offered) => {
                    &&& *final(self) == (OmaBeam { busy: false, ..*old(self) })
                    &&& r is Some
                    &&& r->0@ == if offered {
                        "Live share started. Its URL was copied. Choose a nearby device to send it, or use the OmaBeam bar icon."@
                    } else {
                        "Live share started and its URL was copied. Use the OmaBeam bar icon to send it, copy it again, or stop sharing."@
                    }
                },
                Err(error) => r is None && rests(
                    *old(self),
                    wording::explained(error@),
                    *final(self),
                ),
            },
    {
        self.busy = false;
        match result {
            Ok(offered) => if offered {
                Some(
                    "Live share started. Its URL was copied. Choose a nearby device to send it, or use the OmaBeam bar icon.".to_owned(),
                )
            } else {
                Some(
                    "Live share started and its URL was copied. Use the OmaBeam bar icon to send it, copy it again, or stop sharing.".to_owned(),
                )
            },
            Err(error) => {
                self.status = wording::friendly_error(error.as_str());
                None
            },
        }
    }

    /// What confirming does: the portal gets the selection, a screenshot is
    /// copied, anything else is shared live.
    pub fn confirm(&mut self) -> (r: Action)
        ensures
            if old(self).demo || old(self).busy || !old(self).confirmable() {
                *final(self) == *old(self) && r == Action::Nothing
            } else if old(self).picker {
                old(self).emits(*final(self), r)
            } else if old(self).screenshot_mode {
                old(self).captures(CaptureAction::Copy, *final(self), r)
            } else {
                old(self).shares(*final(self), r)
            },
    {
        if self.demo || self.busy || !self.can_confirm() {
            return Action::Nothing;
        }
        if self.picker {
            self.emit_selection()
        } else if self.screenshot_mode {
            self.run_capture(CaptureAction::Copy)
        } else {
            self.start_live()
        }
    }

    /// The area of the made-up session.
    pub open spec fn demo_region(s: Selection) -> bool {
        s is Region && s->output@ == "DEMO-1"@ && s->x == 40 && s->y == 80 && s->w == 640 && s->h
            == 360
    }

    /// Starts to let an area be dragged. The result says whether to.
    pub fn choose_region(&mut self) -> (r: bool)
        ensures
            r == (!old(self).demo && !old(self).busy),
            if old(self).demo {
                &&& *final(self) == (OmaBeam {
                    selected_region: final(self).selected_region,
                    ..*old(self)
                })
                &&& final(self).selected_region is Some
                &&& OmaBeam::demo_region(final(self).selected_region->0)
            } else if old(self).busy {
                *final(self) == *old(self)
            } else {
                old(self).drags(*final(self))
            },
    {
        if self.demo {
            self.selected_region = Some(
                Selection::Region { output: "DEMO-1".to_owned(), x: 40, y: 80, w: 640, h: 360 },
            );
            return false;
        }
        if self.busy {
            return false;
        }
        self.previews.release();
        self.busy = true;
        self.status = "Drag to select an area. Escape cancels.".to_owned();
        true
    }

    /// An area was dragged, or not.
    pub fn region_chosen(&mut self, result: Result<Selection, String>)
        ensures
            *final(self) == (OmaBeam {
                busy: false,
                selected_region: final(self).selected_region,
                status: final(self).status,
                ..*old(self)
            }),
            match result {
                Ok(selection) => if selection is Region {
                    &&& final(self).selected_region == Some(selection)
                    &&& final(self).status@ == "Area selected. Check the preview before sharing."@
                } else {
                    &&& final(self).selected_region == old(self).selected_region
                    &&& final(self).status@ == "Could not read that area."@
                },
                Err(error) => {
                    &&& final(self).selected_region == old(self).selected_region
                    &&& final(self).status@ == wording::explained(error@)
                },
            },
    {
        self.busy = false;
        match result {
            Ok(selection) => {
                let region = match &selection {
                    Selection::Region { output, x, y, w, h } => true,
                    _ => false,
                };
                if region {
                    self.selected_region = Some(selection);
                    self.status = "Area selected. Check the preview before sharing.".to_owned();
                } else {
                    self.status = "Could not read that area.".to_owned();
                }
            },
            Err(error) => {
                self.status = wording::friendly_error(error.as_str());
            },
        }
    }
}

/// Nothing is ever shared from a demonstration, nor while the picker works.
pub proof fn demonstrations_and_busy_pickers_do_nothing(
    picker: OmaBeam,
    after: OmaBeam,
    action: CaptureAction,
    r: Action,
)
    requires
        picker.demo || picker.busy,
        picker.captures(action, after, r) || picker.shares(after, r),
    ensures
        r == Action::Nothing,
{
}

/// A live share only starts for a source whose preview is on show, or for an
/// extra display that has a place.
pub proof fn shares_need_a_preview_or_a_place(picker: OmaBeam, after: OmaBeam, r: Action)
    requires
        picker.shares(after, r),
        r is Share,
    ensures
        picker.page == Page::Extend ==> picker.has_room(),
        picker.page != Page::Extend ==> picker.previews.frame is Some && picker.previews@.key
            == picker.wanted() && picker.wanted() is Some,
        after.busy,
{
}

/// The settings of a stream that an extra display wants: the pointer, its own
/// pixels, and a smooth picture unless a frame rate was chosen.
pub open spec fn extended(stream: Stream) -> Stream {
    let smooth = if stream.fps_selected {
        stream.config
    } else {
        stream.config.with_fps(60)
    };
    Stream {
        config: LiveConfig { cursor: true, pixel_mode: PixelMode::Native, ..smooth },
        ..stream
    }
}

/// The picker turned to a page.
pub open spec fn turned(before: OmaBeam, page: Page) -> OmaBeam {
    OmaBeam {
        page,
        stream: if page == Page::Extend && before.page != Page::Extend {
            extended(before.stream)
        } else {
            before.stream
        },
        ..before
    }
}

impl OmaBeam {
    pub fn select_page(&mut self, page: Page)
        ensures
            *final(self) == turned(*old(self), page),
    {
        if page == Page::Extend && self.page != Page::Extend {
            if !self.stream.fps_selected {
                self.stream.config.set_fps(60);
            }
            self.stream.config.cursor = true;
            self.stream.config.pixel_mode = PixelMode::Native;
        }
        self.page = page;
    }

    /// How many kinds of sources there are to choose from.
    pub open spec fn kinds(self) -> int {
        if self.picker || self.screenshot_mode {
            3
        } else {
            4
        }
    }

    /// Turns to the next or previous kind of source.
    pub fn cycle_page(&mut self, delta: i32)
        ensures
            final(self).status@.len() == 0,
            *final(self) == (OmaBeam {
                status: final(self).status,
                ..turned(
                    *old(self),
                    Page::at((old(self).page.place() + delta) % old(self).kinds()),
                )
            }),
    {
        let count: i64 = if self.picker || self.screenshot_mode {
            3
        } else {
            4
        };
        let moved: i64 = self.page.index() as i64 + delta as i64;
        let shifted: i64 = moved + 12 * 0x4000_0000;
        let next: usize = (shifted % count) as usize;
        assert(next == moved as int % count as int);
        self.select_page(Page::from_index(next));
        self.status = String::new();
    }

    /// A kind of source was chosen. Windows stay in the way they are shown.
    pub fn choose_source(&mut self, index: usize)
        ensures
            if old(self).busy {
                *final(self) == *old(self)
            } else {
                &&& final(self).status@.len() == 0
                &&& *final(self) == (OmaBeam {
                    status: final(self).status,
                    ..if index != 0 || !old(self).page.of_windows() {
                        turned(*old(self), Page::at(index as int))
                    } else {
                        *old(self)
                    }
                })
            },
    {
        if self.busy {
            return ;
        }
        let windows = match self.page {
            Page::Tiles | Page::Windows => true,
            _ => false,
        };
        if index != 0 || !windows {
            self.select_page(Page::from_index(index));
        }
        self.status = String::new();
    }

    /// Changes between screenshots and live shares. A screenshot has no extra
    /// display.
    pub fn toggle_mode(&mut self)
        ensures
            final(self).status@.len() == 0,
            *final(self) == (OmaBeam {
                status: final(self).status,
                screenshot_mode: !old(self).screenshot_mode,
                page: if old(self).page == Page::Extend {
                    Page::Outputs
                } else {
                    old(self).page
                },
                ..*old(self)
            }),
    {
        self.screenshot_mode = !self.screenshot_mode;
        if self.page == Page::Extend {
            self.select_page(Page::Outputs);
        }
        self.status = String::new();
    }

    /// Whether the portal may remember the share.
    pub fn choose_token(&mut self, allow: bool)
        ensures
            *final(self) == if old(self).busy {
                *old(self)
            } else {
                OmaBeam { allow_token: allow, ..*old(self) }
            },
    {
        if !self.busy {
            self.allow_token = allow;
        }
    }

    /// A workspace with windows on it.
    pub open spec fn occupied(self, i: int) -> bool {
        hypr::tiles(self.clients(), self.snapshot->0.workspaces@[i].id).len() > 0
    }

    /// The places of the workspaces that have windows, and how many they have.
    pub fn occupied_workspaces(&self) -> (r: Vec<(usize, usize)>)
        ensures
            self.snapshot is None ==> r@.len() == 0,
            self.snapshot is Some ==> {
                let all = self.snapshot->0.workspaces@;
                &&& r@.len() == Seq::new(all.len(), |i: int| i).filter(
                    |i: int| self.occupied(i),
                ).len()
                &&& forall|k: int|
                    0 <= k < r@.len() ==> (#[trigger] r@[k]).0 == Seq::new(
                        all.len(),
                        |i: int| i,
                    ).filter(|i: int| self.occupied(i))[k] && r@[k].0 < all.len() && r@[k].1
                        == hypr::tiles(self.clients(), all[r@[k].0 as int].id).len()
            },
    {
        let mut found: Vec<(usize, usize)> = Vec::new();
        let snapshot = match &self.snapshot {
            Some(snapshot) => snapshot,
            None => {
                return found;
            },
        };
        let ghost all = Seq::new(snapshot.workspaces@.len(), |i: int| i);
        let ghost test = |i: int| self.occupied(i);
        let mut i: usize = 0;
        proof {
            reveal(Seq::filter);
            assert(all.take(0) =~= Seq::empty());
        }
        while i < snapshot.workspaces.len()
            invariant
                i <= snapshot.workspaces@.len(),
                self.snapshot == Some(*snapshot),
                all == Seq::new(snapshot.workspaces@.len(), |i: int| i),
                test == (|i: int| self.occupied(i)),
                found@.len() == all.take(i as int).filter(test).len(),
                forall|k: int|
                    0 <= k < found@.len() ==> (#[trigger] found@[k]).0 == all.take(
                        i as int,
                    ).filter(test)[k] && found@[k].0 < snapshot.workspaces@.len() && found@[k].1
                        == hypr::tiles(
                        self.clients(),
                        snapshot.workspaces@[found@[k].0 as int].id,
                    ).len(),
            decreases snapshot.workspaces@.len() - i,
        {
            proof {
                reveal(Seq::filter);
                assert(all.take(i + 1).drop_last() =~= all.take(i as int));
                assert(all.take(i + 1).last() == i);
            }
            let list = snapshot.tiles_on(snapshot.workspaces[i].id);
            if list.len() > 0 {
                found.push((i, list.len()));
            }
            i = i + 1;
        }
        assert(all.take(i as int) =~= all);
        found
    }

    /// Shows the tiles of a workspace. A window on it stays selected; otherwise
    /// the most recent one is.
    pub fn choose_workspace(&mut self, workspace: i32)
        ensures
            *final(self) == (OmaBeam {
                page: Page::Tiles,
                workspace_id: workspace,
                follow_workspace: false,
                selected_window: final(self).selected_window,
                status: final(self).status,
                ..*old(self)
            }),
            final(self).status@.len() == 0,
            if old(self).selected_window is Some && picker::on_workspace(
                old(self).clients(),
                workspace,
                old(self).selected_window->0@,
            ) {
                final(self).selected_window == old(self).selected_window
            } else if old(self).snapshot is Some {
                text::text_of(final(self).selected_window) == picker::recent_tile(
                    old(self).clients(),
                    workspace,
                )
            } else {
                final(self).selected_window is None
            },
    {
        self.page = Page::Tiles;
        self.workspace_id = workspace;
        self.follow_workspace = false;
        let mut stays = false;
        let mut recent: Option<String> = None;
        if let Some(snapshot) = &self.snapshot {
            if let Some(address) = &self.selected_window {
                stays = picker::is_on_workspace(&snapshot.clients, workspace, address.as_str());
            }
            if !stays {
                let list = snapshot.tiles_on(workspace);
                if let Some(i) = picker::find_recent(&snapshot.clients, &list) {
                    recent = Some(snapshot.clients[i].address.clone());
                }
            }
        }
        if !stays {
            self.selected_window = recent;
        }
        self.status = String::new();
    }

    /// Shows all windows.
    pub fn all_windows(&mut self)
        ensures
            *final(self) == (OmaBeam { page: Page::Windows, ..*old(self) }),
    {
        self.page = Page::Windows;
    }
}

/// An extra display is a source of the standalone picker alone: going round
/// the kinds of sources, the portal's picker and screenshots never come to it.
pub proof fn cycling_reaches_only_offered_sources(picker: OmaBeam, delta: i32)
    ensures
        (picker.picker || picker.screenshot_mode) ==> Page::at(
            (picker.page.place() + delta) % picker.kinds(),
        ) != Page::Extend,
{
}

/// The source names the window, the output or the area that the preview of the
/// same picker shows. Without a source there is no preview either.
pub open spec fn previewed(picker: OmaBeam, source: Option<LiveSource>) -> bool {
    match source {
        Some(LiveSource::Window { stable_id, .. }) => picker.wanted_target()
            == if stable_id@.len() > 0 {
            Some(TargetView::Toplevel(stable_id@))
        } else {
            None
        },
        Some(LiveSource::Output { name }) => picker.wanted_target() == Some(
            TargetView::Output(name@),
        ),
        Some(LiveSource::Region { output, x, y, w, h }) => picker.wanted_target() == if w > 0
            && h > 0 {
            Some(
                TargetView::Region(
                    output@,
                    Rect { x, y, width: w as u32, height: h as u32 },
                ),
            )
        } else {
            None
        },
        Some(LiveSource::Extend(_)) => false,
        None => picker.wanted_target() is None,
    }
}

/// What is shared live is what is previewed and captured.
pub proof fn live_shares_show_what_is_previewed(picker: OmaBeam, source: Option<LiveSource>)
    requires
        picker.source(source),
        picker.page != Page::Extend,
    ensures
        previewed(picker, source),
{
}

/// A screenshot shows what is previewed.
pub proof fn screenshots_show_what_is_previewed(
    picker: OmaBeam,
    request: CaptureRequest,
    target: CaptureTarget,
)
    requires
        picker.requests(Some(Ok(request))),
        request.refused() is None,
        request.aims_at(target),
    ensures
        picker.wanted_target() == Some(preview::target_view(target)),
{
}

/// The portal is handed what is previewed: the same output, the same area, and
/// for a window the number that the portal itself gave it.
pub proof fn the_portal_gets_what_is_previewed(picker: OmaBeam, selection: Selection)
    requires
        picker.selection(Some(selection)),
    ensures
        match selection {
            Selection::Screen { name } => picker.page == Page::Region || picker.wanted_target()
                == Some(TargetView::Output(name@)),
            Selection::Region { output, x, y, w, h } => w > 0 && h > 0 ==> picker.wanted_target()
                == Some(
                TargetView::Region(output@, Rect { x, y, width: w as u32, height: h as u32 }),
            ),
            Selection::Window { id } => picker.page == Page::Region || (picker.client() matches Some(
                client,
            ) && client.portal_id == Some(id) && (picker.wanted_target() matches Some(target)
                ==> target == TargetView::Toplevel(client.stable_id@))),
        },
{
}

/// A selected window is what is shared live.
pub proof fn a_selected_window_is_shared(
    before: OmaBeam,
    address: Seq<char>,
    after: OmaBeam,
    i: int,
    source: Option<LiveSource>,
)
    requires
        picker::selects_window(before, address, after),
        before.page.of_windows(),
        0 <= i < before.clients().len(),
        before.clients()[i].address@ == address,
        before.clients()[i].visible(),
        after.source(source),
    ensures
        source matches Some(LiveSource::Window { address: shared, .. }) && shared@ == address,
{
    picker::a_selected_window_is_chosen(before, address, after, i);
}

/// A selected monitor is what is shared live.
pub proof fn a_selected_output_is_shared(
    before: OmaBeam,
    name: Seq<char>,
    after: OmaBeam,
    i: int,
    source: Option<LiveSource>,
)
    requires
        picker::selects_output(before, name, after),
        before.page == Page::Outputs,
        0 <= i < before.monitors().len(),
        before.monitors()[i].name@ == name,
        after.source(source),
    ensures
        source matches Some(LiveSource::Output { name: shared }) && shared@ == name,
{
    picker::a_selected_output_is_chosen(before, name, after, i);
}

/// Turning to a page again changes nothing more, and only an extra display
/// changes the stream's settings: a frame rate that was chosen stays.
pub proof fn turning_pages_keeps_what_was_chosen(picker: OmaBeam, page: Page)
    ensures
        turned(turned(picker, page), page) == turned(picker, page),
        turned(picker, page).page == page,
        page != Page::Extend ==> turned(picker, page).stream == picker.stream,
        picker.stream.fps_selected ==> turned(picker, page).stream.config.fps
            == picker.stream.config.fps,
        turned(picker, page).stream.config.quality == picker.stream.config.quality,
        turned(picker, page).stream.config.max_width == picker.stream.config.max_width,
        turned(picker, page).desktop_config == picker.desktop_config,
        turned(picker, page).selected_window == picker.selected_window,
        turned(picker, page).selected_region == picker.selected_region,
        Page::at(page.place()) == if page == Page::Windows {
            Page::Tiles
        } else {
            page
        },
{
}

/// A preview is made as viewers would see the share: with the stream's quality,
/// width, pixels and pointer. A screenshot, and what the portal gets, show no
/// pointer.
pub proof fn previews_are_made_like_the_share(picker: OmaBeam)
    ensures
        picker.wanted() matches Some(key) ==> {
            &&& Some(key.target) == picker.wanted_target()
            &&& key.quality == picker.stream.config.quality
            &&& key.max_width == picker.stream.config.max_width
            &&& key.pixel_mode == picker.stream.config.pixel_mode
            &&& !picker.picker && !picker.screenshot_mode ==> !key.screenshot && key.cursor
                == picker.stream.config.cursor
            &&& picker.picker || picker.screenshot_mode ==> key.screenshot && !key.cursor
        },
        picker.wanted() is Some <==> picker.wanted_target() is Some,
{
}

/// Turning to an extra display shows the pointer and the display's own pixels,
/// at sixty frames unless a frame rate was chosen, with the bitrate that goes
/// with them unless that was chosen.
pub proof fn an_extra_display_is_streamed_smoothly(picker: OmaBeam)
    requires
        picker.page != Page::Extend,
    ensures
        ({
            let (before, after) = (
                picker.stream.config,
                turned(picker, Page::Extend).stream.config,
            );
            &&& after.cursor
            &&& after.pixel_mode == PixelMode::Native
            &&& !picker.stream.fps_selected ==> after.fps == 60
            &&& !picker.stream.fps_selected && before.h264_bitrate == crate::live::bitrate_for(
                before.fps,
            ) ==> after.h264_bitrate == 16_000_000
            &&& after.webrtc == before.webrtc && after.port == before.port
        }),
{
}

} // verus!
