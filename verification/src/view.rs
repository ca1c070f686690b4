//! What the picker shows.

use vstd::prelude::*;

use crate::extend;
use crate::hypr;
use crate::hypr::Client;
use crate::hypr::Monitor;
use crate::picker::OmaBeam;
use crate::picker::Page;
use crate::previews;
use crate::request::Selection;
use crate::settings;
use crate::settings::StreamView;
use crate::single;
use crate::single::Single;
use crate::text;
use crate::widgets;
use crate::widgets::Item;
use crate::widgets::Menu;
use crate::wording;

verus! {

/// The picker as it is shown.
#[derive(Debug)]
pub struct Pane {
    /// The kinds of sources; the checked one is shown.
    pub tabs: Vec<Item>,
    pub subtitle: String,
    pub heading: String,
    pub badge: String,
    /// The button that changes between screenshots and live shares.
    pub mode: Option<String>,
    pub prompt: String,
    /// The workspaces to choose from, where windows are shown.
    pub workspaces: Option<Menu>,
    pub settings: Option<StreamView>,
    pub help: bool,
    pub status: Option<String>,
    pub error: Option<String>,
    pub footer: Footer,
}

/// What can be done with the selected source.
#[derive(Debug)]
pub struct Footer {
    pub ready: bool,
    pub primary: String,
    pub hint: String,
    /// Whether the portal may remember the share, where that is asked.
    pub token: Option<bool>,
    /// A screenshot can also be saved and sent.
    pub shot: bool,
}

/// The tabs are these.
pub open spec fn shows_tabs(tabs: Seq<Item>, entries: Seq<(Seq<char>, bool, bool)>) -> bool {
    tabs.len() == entries.len() && forall|i: int|
        0 <= i < tabs.len() ==> widgets::entry(#[trigger] tabs[i]) == entries[i]
}

impl OmaBeam {
    pub open spec fn tab_entries(self) -> Seq<(Seq<char>, bool, bool)> {
        let three = seq![
            ("Window"@, self.page.place() == 0, self.busy),
            ("Screen"@, self.page.place() == 1, self.busy),
            ("Area"@, self.page.place() == 2, self.busy),
        ];
        if !self.picker && !self.screenshot_mode {
            three.push(("Extend desktop"@, self.page.place() == 3, self.busy))
        } else {
            three
        }
    }

    pub open spec fn subtitle_text(self) -> Seq<char> {
        if self.picker {
            "Share with an app"@
        } else if self.screenshot_mode {
            "Capture a moment"@
        } else {
            "Choose what to share"@
        }
    }

    pub open spec fn heading_text(self) -> Seq<char> {
        if self.picker {
            "Choose what this app can see"@
        } else if self.screenshot_mode {
            "What do you want to capture?"@
        } else {
            "What do you want to share?"@
        }
    }

    pub open spec fn badge_text(self) -> Seq<char> {
        if self.demo {
            "Demo · no capture or sharing"@
        } else if self.busy {
            "Working…"@
        } else {
            "Preview only"@
        }
    }

    pub open spec fn mode_text(self) -> Option<Seq<char>> {
        if self.picker {
            None
        } else if self.screenshot_mode {
            Some("Switch to live share"@)
        } else {
            Some("Screenshot"@)
        }
    }

    pub open spec fn prompt_text(self) -> Seq<char> {
        match self.page {
            Page::Tiles => "Pick a window"@,
            Page::Windows => "Pick a window"@,
            Page::Outputs => "Pick a display"@,
            Page::Extend => "Set up an extra display"@,
            Page::Region => "Select an area"@,
        }
    }

    /// The places of the workspaces that have windows.
    pub open spec fn occupied_places(self) -> Seq<int> {
        match self.snapshot {
            Some(snapshot) => Seq::new(snapshot.workspaces@.len(), |i: int| i).filter(
                |i: int| self.occupied(i),
            ),
            None => Seq::empty(),
        }
    }

    /// The workspace's name as it is shown.
    pub open spec fn workspace_text(self, i: int) -> Seq<char> {
        "Workspace "@ + self.snapshot->0.workspaces@[i].name@
    }

    /// The workspaces to choose from, and all windows.
    pub open spec fn workspace_entries(self) -> Seq<(Seq<char>, bool, bool)> {
        let places = self.occupied_places();
        seq![("All windows"@, self.page == Page::Windows, self.busy)] + Seq::new(
            places.len(),
            |k: int|
                (
                    self.workspace_text(places[k]),
                    self.page == Page::Tiles && self.snapshot->0.workspaces@[places[k]].id
                        == self.workspace_id,
                    self.busy,
                ),
        )
    }

    /// What the choice of workspaces says: the chosen one, by its number if it
    /// has no windows.
    pub open spec fn workspace_label(self) -> Seq<char> {
        let places = self.occupied_places();
        if self.page == Page::Windows {
            "All windows"@
        } else {
            match crate::search::first_where(
                places,
                |i: int| self.snapshot->0.workspaces@[i].id == self.workspace_id,
            ) {
                Some(k) => self.workspace_text(places[k]),
                None => "Workspace "@ + text::signed_decimal(self.workspace_id as int),
            }
        }
    }

    /// The source can be handed on now.
    pub open spec fn ready(self) -> bool {
        &&& self.confirmable()
        &&& !self.busy
        &&& !self.demo
        &&& (!self.cast.mode || self.screenshot_mode || self.cast.receiver_id is Some)
    }

    pub open spec fn primary_text(self) -> Seq<char> {
        if self.busy {
            "Working…"@
        } else if self.picker {
            "Share with app"@
        } else if self.screenshot_mode {
            "Copy screenshot"@
        } else if self.cast.mode {
            "Start casting"@
        } else if self.page == Page::Extend {
            "Extend desktop"@
        } else {
            "Start sharing"@
        }
    }

    pub open spec fn hint_text(self) -> Seq<char> {
        if self.busy {
            "Preparing your source…"@
        } else if self.demo {
            "Demo · sharing is disabled"@
        } else if self.ready() {
            "Ready to share"@
        } else {
            "Select a source and check its preview"@
        }
    }
}

impl Footer {
    pub open spec fn of(self, picker: OmaBeam) -> bool {
        &&& self.ready == picker.ready()
        &&& self.primary@ == picker.primary_text()
        &&& self.hint@ == picker.hint_text()
        &&& self.token == if picker.picker {
            Some(picker.allow_token)
        } else {
            None
        }
        &&& self.shot == (picker.screenshot_mode && !picker.picker)
    }
}

impl Pane {
    pub open spec fn of(self, picker: OmaBeam) -> bool {
        &&& shows_tabs(self.tabs@, picker.tab_entries())
        &&& self.subtitle@ == picker.subtitle_text()
        &&& self.heading@ == picker.heading_text()
        &&& self.badge@ == picker.badge_text()
        &&& text::text_of(self.mode) == picker.mode_text()
        &&& self.prompt@ == picker.prompt_text()
        &&& self.workspaces is Some == picker.page.of_windows()
        &&& picker.page.of_windows() ==> self.workspaces->0.shows(
            picker.workspace_label(),
            picker.busy,
            picker.workspace_entries(),
        )
        &&& self.settings is Some == (!picker.picker && !picker.screenshot_mode)
        &&& self.settings is Some ==> self.settings->0.of(
            picker.stream.config,
            picker.busy,
            picker.show_advanced,
        )
        &&& self.help == picker.show_help
        &&& text::text_of(self.status) == if picker.status@.len() == 0 {
            None
        } else {
            Some(picker.status@)
        }
        &&& text::text_of(self.error) == text::text_of(picker.snapshot_error)
        &&& self.footer.of(picker)
    }
}

fn tab(label: &str, checked: bool, disabled: bool) -> (r: Item)
    ensures
        widgets::entry(r) == (label@, checked, disabled),
{
    Item { label: label.to_owned(), checked, disabled }
}

impl OmaBeam {
    /// What can be done with the selected source.
    pub fn render_footer(&self) -> (r: Footer)
        ensures
            r.of(*self),
    {
        let ready = self.can_confirm() && !self.busy && !self.demo && (!self.cast.mode
            || self.screenshot_mode || self.cast.receiver_id.is_some());
        let primary = if self.busy {
            "Working…"
        } else if self.picker {
            "Share with app"
        } else if self.screenshot_mode {
            "Copy screenshot"
        } else if self.cast.mode {
            "Start casting"
        } else if self.page == Page::Extend {
            "Extend desktop"
        } else {
            "Start sharing"
        };
        let hint = if self.busy {
            "Preparing your source…"
        } else if self.demo {
            "Demo · sharing is disabled"
        } else if ready {
            "Ready to share"
        } else {
            "Select a source and check its preview"
        };
        Footer {
            ready,
            primary: primary.to_owned(),
            hint: hint.to_owned(),
            token: if self.picker {
                Some(self.allow_token)
            } else {
                None
            },
            shot: self.screenshot_mode && !self.picker,
        }
    }

    /// The workspaces to choose from.
    pub fn render_source_toolbar(&self) -> (r: Menu)
        ensures
            r.shows(self.workspace_label(), self.busy, self.workspace_entries()),
    {
        let occupied = self.occupied_workspaces();
        let ghost places = self.occupied_places();
        let ghost test = |i: int| self.snapshot->0.workspaces@[i].id == self.workspace_id;
        proof {
            assert(occupied@.len() == places.len());
        }
        let mut label: Option<String> = None;
        let mut menu = Menu::new(String::new(), self.busy);
        menu.offer("All windows".to_owned(), self.page == Page::Windows, self.busy);
        if let Some(snapshot) = &self.snapshot {
            let mut k: usize = 0;
            while k < occupied.len()
                invariant
                    k <= occupied@.len(),
                    self.snapshot == Some(*snapshot),
                    places == self.occupied_places(),
                    occupied@.len() == places.len(),
                    forall|j: int|
                        0 <= j < occupied@.len() ==> (#[trigger] occupied@[j]).0 == places[j]
                            && occupied@[j].0 < snapshot.workspaces@.len(),
                    test == (|i: int| self.snapshot->0.workspaces@[i].id == self.workspace_id),
                    label is None ==> forall|j: int| 0 <= j < k ==> !test(#[trigger] places[j]),
                    label is Some ==> crate::search::first_where(places, test) is Some
                        && label->0@ == self.workspace_text(
                        places[crate::search::first_where(places, test)->0],
                    ),
                    menu.disabled == self.busy,
                    menu.items@.len() == k + 1,
                    forall|j: int|
                        0 <= j <= k ==> widgets::entry(#[trigger] menu.items@[j])
                            == self.workspace_entries()[j],
                decreases occupied@.len() - k,
            {
                let workspace = &snapshot.workspaces[occupied[k].0];
                let mut name = "Workspace ".to_owned();
                name.append(workspace.name.as_str());
                assert(places[k as int] == occupied@[k as int].0);
                if label.is_none() && workspace.id == self.workspace_id {
                    proof {
                        crate::search::lemma_first(places, test, k as int);
                    }
                    label = Some(name.clone());
                }
                menu.offer(
                    name,
                    self.page == Page::Tiles && workspace.id == self.workspace_id,
                    self.busy,
                );
                k = k + 1;
            }
            proof {
                if label is None {
                    crate::search::lemma_none(places, test);
                }
            }
        } else {
            proof {
                assert(places =~= Seq::empty());
                crate::search::lemma_none(places, test);
            }
        }
        menu.label = if self.page == Page::Windows {
            "All windows".to_owned()
        } else {
            match label {
                Some(label) => label,
                None => {
                    let mut label = "Workspace ".to_owned();
                    text::push_signed(&mut label, self.workspace_id as i64);
                    label
                },
            }
        };
        menu
    }

    /// The picker as it is shown.
    pub fn render(&self) -> (r: Pane)
        ensures
            r.of(*self),
    {
        let index: usize = self.page.index();
        let mut tabs: Vec<Item> = Vec::new();
        tabs.push(tab("Window", index == 0, self.busy));
        tabs.push(tab("Screen", index == 1, self.busy));
        tabs.push(tab("Area", index == 2, self.busy));
        if !self.picker && !self.screenshot_mode {
            tabs.push(tab("Extend desktop", index == 3, self.busy));
        }
        let subtitle = if self.picker {
            "Share with an app"
        } else if self.screenshot_mode {
            "Capture a moment"
        } else {
            "Choose what to share"
        };
        let heading = if self.picker {
            "Choose what this app can see"
        } else if self.screenshot_mode {
            "What do you want to capture?"
        } else {
            "What do you want to share?"
        };
        let badge = if self.demo {
            "Demo · no capture or sharing"
        } else if self.busy {
            "Working…"
        } else {
            "Preview only"
        };
        let mode = if self.picker {
            None
        } else if self.screenshot_mode {
            Some("Switch to live share".to_owned())
        } else {
            Some("Screenshot".to_owned())
        };
        let windows = match self.page {
            Page::Tiles | Page::Windows => true,
            _ => false,
        };
        let prompt = match self.page {
            Page::Tiles | Page::Windows => "Pick a window",
            Page::Outputs => "Pick a display",
            Page::Extend => "Set up an extra display",
            Page::Region => "Select an area",
        };
        let workspaces = if windows {
            Some(self.render_source_toolbar())
        } else {
            None
        };
        let stream = if !self.picker && !self.screenshot_mode {
            Some(
                settings::render_stream_settings(
                    &self.stream.config,
                    self.busy,
                    self.show_advanced,
                ),
            )
        } else {
            None
        };
        let status = if self.status.as_str().is_empty() {
            None
        } else {
            Some(self.status.clone())
        };
        let error = match &self.snapshot_error {
            Some(error) => Some(error.clone()),
            None => None,
        };
        Pane {
            tabs,
            subtitle: subtitle.to_owned(),
            heading: heading.to_owned(),
            badge: badge.to_owned(),
            mode,
            prompt: prompt.to_owned(),
            workspaces,
            settings: stream,
            help: self.show_help,
            status,
            error,
            footer: self.render_footer(),
        }
    }
}

/// A window as it is listed or tiled.
#[derive(Debug)]
pub struct WindowRow {
    /// Where it stands among the windows of the session.
    pub client: usize,
    pub label: String,
    pub detail: String,
    pub selected: bool,
    pub thumbnail: Option<u64>,
}

impl WindowRow {
    pub open spec fn of(self, picker: OmaBeam, i: int) -> bool {
        let client = picker.clients()[i];
        &&& self.client == i
        &&& self.label@ == wording::label_of(client)
        &&& self.detail@ == "Workspace "@ + client.workspace.name@
        &&& self.selected == (picker.selected_window is Some && picker.selected_window->0@
            == client.address@)
        &&& self.thumbnail == previews::asked_at(picker.previews@.thumbs, client.stable_id@)
    }
}

/// The rows show these windows, in order.
pub open spec fn shows_windows(rows: Seq<WindowRow>, picker: OmaBeam, list: Seq<usize>) -> bool {
    rows.len() == list.len() && forall|k: int|
        0 <= k < rows.len() ==> (#[trigger] rows[k]).of(picker, list[k] as int)
}

/// A monitor as it is listed.
#[derive(Debug)]
pub struct OutputRow {
    pub label: String,
    pub detail: String,
    pub selected: bool,
}

/// A length in logical pixels, rounded to nearest, ties to even.
pub open spec fn rounded(length: u32, scale: Single) -> int {
    hypr::logical_side(length, scale).decimals(1)
}

impl OutputRow {
    pub open spec fn of(self, picker: OmaBeam, monitor: Monitor) -> bool {
        let selected = picker.selected_output is Some && picker.selected_output->0@
            == monitor.name@;
        &&& self.label@ == monitor.label_text()
        &&& self.selected == selected
        &&& self.detail@ == text::decimal(
            rounded(monitor.turned().0, monitor.scale) as nat,
        ) + " × "@ + text::decimal(rounded(monitor.turned().1, monitor.scale) as nat)
            + " · Workspace "@ + monitor.active_workspace.name@ + (if selected {
            " · Selected"@
        } else {
            ""@
        })
    }
}

impl OmaBeam {
    fn window_row(&self, client: &Client, i: usize) -> (r: WindowRow)
        requires
            i < self.clients().len(),
            *client == self.clients()[i as int],
        ensures
            r.of(*self, i as int),
    {
        let mut detail = "Workspace ".to_owned();
        detail.append(client.workspace.name.as_str());
        let selected = match &self.selected_window {
            Some(address) => text::same(address.as_str(), client.address.as_str()),
            None => false,
        };
        WindowRow {
            client: i,
            label: wording::client_label(client),
            detail,
            selected,
            thumbnail: self.previews.thumbnail_of(client.stable_id.as_str()),
        }
    }

    fn window_rows(&self, list: &Vec<usize>) -> (r: Vec<WindowRow>)
        requires
            forall|i: int| 0 <= i < list@.len() ==> (#[trigger] list@[i]) < self.clients().len(),
        ensures
            shows_windows(r@, *self, list@),
    {
        let mut rows: Vec<WindowRow> = Vec::new();
        let snapshot = match &self.snapshot {
            Some(snapshot) => snapshot,
            None => {
                assert(list@.len() == 0) by {
                    if list@.len() > 0 {
                        assert(list@[0] < self.clients().len());
                    }
                }
                return rows;
            },
        };
        let mut k: usize = 0;
        while k < list.len()
            invariant
                k <= list@.len(),
                self.snapshot == Some(*snapshot),
                forall|i: int|
                    0 <= i < list@.len() ==> (#[trigger] list@[i]) < self.clients().len(),
                rows@.len() == k,
                forall|j: int| 0 <= j < k ==> (#[trigger] rows@[j]).of(*self, list@[j] as int),
            decreases list@.len() - k,
        {
            let i: usize = list[k];
            rows.push(self.window_row(&snapshot.clients[i], i));
            k = k + 1;
        }
        rows
    }

    /// The windows on the map, in the order of its tiles.
    pub fn render_tiles(&self) -> (r: Vec<WindowRow>)
        ensures
            shows_windows(
                r@,
                *self,
                match self.snapshot {
                    Some(snapshot) => hypr::tiles(snapshot.clients@, self.workspace_id),
                    None => Seq::empty(),
                },
            ),
    {
        let list = self.current_tiles();
        self.window_rows(&list)
    }

    /// All windows.
    pub fn render_windows(&self) -> (r: Vec<WindowRow>)
        ensures
            shows_windows(
                r@,
                *self,
                match self.snapshot {
                    Some(snapshot) => hypr::listing(snapshot.clients@),
                    None => Seq::empty(),
                },
            ),
    {
        let list = self.current_windows();
        self.window_rows(&list)
    }

    /// All monitors.
    pub fn render_outputs(&self) -> (r: Vec<OutputRow>)
        ensures
            r@.len() == self.monitors().len(),
            forall|i: int|
                0 <= i < r@.len() ==> (#[trigger] r@[i]).of(*self, self.monitors()[i]),
    {
        let mut rows: Vec<OutputRow> = Vec::new();
        let snapshot = match &self.snapshot {
            Some(snapshot) => snapshot,
            None => {
                return rows;
            },
        };
        let mut i: usize = 0;
        while i < snapshot.monitors.len()
            invariant
                i <= snapshot.monitors@.len(),
                self.snapshot == Some(*snapshot),
                rows@.len() == i,
                forall|j: int| 0 <= j < i ==> (#[trigger] rows@[j]).of(*self, self.monitors()[j]),
            decreases snapshot.monitors@.len() - i,
        {
            let monitor = &snapshot.monitors[i];
            let selected = match &self.selected_output {
                Some(name) => text::same(name.as_str(), monitor.name.as_str()),
                None => false,
            };
            let (width, height): (Single, Single) = monitor.logical_size();
            proof {
                hypr::lemma_logical_side(monitor.turned().0, monitor.scale);
                hypr::lemma_logical_side(monitor.turned().1, monitor.scale);
            }
            let mut detail = String::new();
            text::push_decimal(&mut detail, width.decimal_digits(1));
            assert(detail@ =~= text::decimal(
                rounded(monitor.turned().0, monitor.scale) as nat,
            ));
            detail.append(" × ");
            text::push_decimal(&mut detail, height.decimal_digits(1));
            detail.append(" · Workspace ");
            detail.append(monitor.active_workspace.name.as_str());
            detail.append(
                if selected {
                    " · Selected"
                } else {
                    ""
                },
            );
            rows.push(OutputRow { label: monitor.label(), detail, selected });
            i = i + 1;
        }
        rows
    }

    /// What is said of the chosen area.
    pub open spec fn region_text(self) -> Seq<char> {
        match self.selected_region {
            Some(Selection::Region { output, x, y, w, h }) => text::signed_decimal(w as int)
                + " × "@ + text::signed_decimal(h as int) + " on "@ + output@,
            _ => "Choose a rectangle on your screen."@,
        }
    }

    /// What is said of the chosen area, and what the button for it says.
    pub fn render_region(&self) -> (r: (String, String))
        ensures
            r.0@ == self.region_text(),
            r.1@ == if self.selected_region is Some {
                "Reselect area"@
            } else {
                "Choose area"@
            },
    {
        let label = match &self.selected_region {
            Some(Selection::Region { output, x, y, w, h }) => {
                let mut label = String::new();
                text::push_signed(&mut label, *w as i64);
                assert(label@ =~= text::signed_decimal(*w as int));
                label.append(" × ");
                text::push_signed(&mut label, *h as i64);
                label.append(" on ");
                label.append(output.as_str());
                label
            },
            _ => "Choose a rectangle on your screen.".to_owned(),
        };
        let button = if self.selected_region.is_some() {
            "Reselect area"
        } else {
            "Choose area"
        };
        (label, button.to_owned())
    }
}

/// The preview of a source as it is shown.
#[derive(Debug)]
pub struct PreviewPane {
    pub heading: String,
    pub size: Option<String>,
    pub image: Option<u64>,
    /// What takes the place of a picture.
    pub message: Option<String>,
    /// Whether asking again is disabled, where it is offered.
    pub retry: Option<bool>,
    pub title: String,
    pub privacy: String,
    /// More than the source itself may be seen.
    pub warning: bool,
    pub note: Option<String>,
}

impl OmaBeam {
    pub open spec fn preview_title(self) -> Seq<char> {
        let title = match self.page {
            Page::Tiles | Page::Windows => match self.client() {
                Some(client) => Some(wording::label_of(client)),
                None => None,
            },
            Page::Outputs => match self.chosen_monitor() {
                Some(i) => Some(self.monitors()[i].label_text()),
                None => None,
            },
            Page::Region => if self.selected_region is Some {
                Some("Custom area"@)
            } else {
                None
            },
            Page::Extend => Some("Extended desktop"@),
        };
        match title {
            Some(title) => title,
            None => "Nothing selected"@,
        }
    }

    pub open spec fn privacy_text(self) -> Seq<char> {
        match self.page {
            Page::Tiles => "Only this window. Other windows stay out of view."@,
            Page::Windows => "Only this window. Other windows stay out of view."@,
            Page::Outputs => "Everything on this display is visible, including notifications."@,
            Page::Region => "Anything entering this rectangle will be visible."@,
            Page::Extend => "The extra display is created when you start sharing."@,
        }
    }

    pub open spec fn preview_message(self) -> Seq<char> {
        match self.previews.error {
            Some(error) => error@,
            None => if self.previews.key is Some {
                "Preparing preview…"@
            } else {
                "Choose a source to see its preview."@
            },
        }
    }
}

impl PreviewPane {
    pub open spec fn of(self, picker: OmaBeam) -> bool {
        let frame = picker.previews.frame;
        &&& self.heading@ == if picker.screenshot_mode {
            "Capture preview"@
        } else {
            "Viewer preview"@
        }
        &&& text::text_of(self.size) == match frame {
            Some(shot) => Some(extend::size_name(shot.width, shot.height)),
            None => None,
        }
        &&& self.image == match frame {
            Some(shot) => Some(shot.image),
            None => None,
        }
        &&& text::text_of(self.message) == if frame is Some {
            None
        } else {
            Some(picker.preview_message())
        }
        &&& self.retry == if frame is None && picker.previews.error is Some {
            Some(picker.busy || picker.previews.preview.outstanding > 0)
        } else {
            None
        }
        &&& self.title@ == picker.preview_title()
        &&& self.privacy@ == picker.privacy_text()
        &&& self.warning == (picker.page == Page::Outputs || picker.page == Page::Region)
        &&& text::text_of(self.note) == if picker.page == Page::Outputs {
            Some("The picker closes when sharing starts."@)
        } else {
            None
        }
    }
}

impl OmaBeam {
    fn title(&self) -> (r: String)
        ensures
            r@ == self.preview_title(),
    {
        match self.page {
            Page::Tiles | Page::Windows => match self.selected_client() {
                Some(client) => wording::client_label(client),
                None => "Nothing selected".to_owned(),
            },
            Page::Outputs => match self.selected_monitor() {
                Some(monitor) => monitor.label(),
                None => "Nothing selected".to_owned(),
            },
            Page::Region => if self.selected_region.is_some() {
                "Custom area".to_owned()
            } else {
                "Nothing selected".to_owned()
            },
            Page::Extend => "Extended desktop".to_owned(),
        }
    }

    /// The preview of the selected source.
    pub fn render_preview(&self) -> (r: PreviewPane)
        ensures
            r.of(*self),
    {
        let heading = if self.screenshot_mode {
            "Capture preview"
        } else {
            "Viewer preview"
        };
        let privacy = match self.page {
            Page::Tiles | Page::Windows => "Only this window. Other windows stay out of view.",
            Page::Outputs => "Everything on this display is visible, including notifications.",
            Page::Region => "Anything entering this rectangle will be visible.",
            Page::Extend => "The extra display is created when you start sharing.",
        };
        let (size, image, message) = match self.previews.frame {
            Some(shot) => (
                Some(extend::size_label(shot.width, shot.height)),
                Some(shot.image),
                None,
            ),
            None => {
                let message = match &self.previews.error {
                    Some(error) => error.clone(),
                    None => if self.previews.key.is_some() {
                        "Preparing preview…".to_owned()
                    } else {
                        "Choose a source to see its preview.".to_owned()
                    },
                };
                (None, None, Some(message))
            },
        };
        let retry = if self.previews.frame.is_none() && self.previews.error.is_some() {
            Some(self.busy || self.previews.preview.pending())
        } else {
            None
        };
        let note = if self.page == Page::Outputs {
            Some("The picker closes when sharing starts.".to_owned())
        } else {
            None
        };
        PreviewPane {
            heading: heading.to_owned(),
            size,
            image,
            message,
            retry,
            title: self.title(),
            privacy: privacy.to_owned(),
            warning: self.page == Page::Outputs || self.page == Page::Region,
            note,
        }
    }
}

/// The bits of the margin beside the picker's window, in pixels: 32.
pub const MARGIN: u32 = 0x4200_0000;

/// A side that the picker's window can have.
#[derive(Debug, Clone, Copy, PartialEq, Eq, Structural)]
pub struct Side {
    pub preferred: Single,
    pub most: Single,
    pub least: Single,
}

/// The picker's width: 960 pixels, between 560 and 1100.
pub open spec fn picker_width() -> Side {
    Side {
        preferred: Single { bits: 0x4470_0000 },
        most: Single { bits: 0x4489_8000 },
        least: Single { bits: 0x440c_0000 },
    }
}

/// The picker's height: 650 pixels, between 360 and 800.
pub open spec fn picker_height() -> Side {
    Side {
        preferred: Single { bits: 0x4422_8000 },
        most: Single { bits: 0x4448_0000 },
        least: Single { bits: 0x43b4_0000 },
    }
}

/// The most that the screen and the margin leave for a side.
pub open spec fn room(usable: Single, side: Side) -> Single {
    usable.minus(Single { bits: MARGIN }).larger(Single { bits: single::ONE }).smaller(side.most)
}

/// A side of the picker's window: what is preferred, as far as there is room.
pub open spec fn window_side(usable: Single, side: Side) -> Single {
    let most = room(usable, side);
    side.preferred.smaller(most).larger(side.least.smaller(most))
}

/// A side in whole pixels, rounded to nearest.
pub open spec fn whole_side(usable: Single, side: Side) -> int {
    window_side(usable, side).whole()
}

fn fit_side(usable: Single, side: Side) -> (r: u32)
    requires
        side == picker_width() || side == picker_height(),
    ensures
        r == whole_side(usable, side),
{
    let margin = Single { bits: MARGIN };
    let one = Single { bits: single::ONE };
    let most = usable.difference(margin).max(one).min(side.most);
    let fitted = side.preferred.min(most).max(side.least.min(most));
    proof {
        single::lemma_whole_small(fitted);
    }
    fitted.round() as u32
}

/// How large the picker's window is on a monitor: never so large that it does
/// not fit beside the reserved bars.
pub fn picker_size_for_monitor(monitor: &Monitor) -> (r: (u32, u32))
    ensures
        r.0 == whole_side(
            hypr::usable_side(
                hypr::logical_side(monitor.turned().0, monitor.scale),
                monitor.reserved[0],
                monitor.reserved[2],
            ),
            picker_width(),
        ),
        r.1 == whole_side(
            hypr::usable_side(
                hypr::logical_side(monitor.turned().1, monitor.scale),
                monitor.reserved[1],
                monitor.reserved[3],
            ),
            picker_height(),
        ),
{
    let usable = monitor.usable_size();
    let width = Side {
        preferred: Single { bits: 0x4470_0000 },
        most: Single { bits: 0x4489_8000 },
        least: Single { bits: 0x440c_0000 },
    };
    let height = Side {
        preferred: Single { bits: 0x4422_8000 },
        most: Single { bits: 0x4448_0000 },
        least: Single { bits: 0x43b4_0000 },
    };
    (fit_side(usable.0, width), fit_side(usable.1, height))
}

/// How large the picker's window is; as preferred without a monitor to fit.
pub fn picker_window_size(monitor: Option<&Monitor>) -> (r: (u32, u32))
    ensures
        match monitor {
            Some(monitor) => {
                &&& r.0 == whole_side(
                    hypr::usable_side(
                        hypr::logical_side(monitor.turned().0, monitor.scale),
                        monitor.reserved[0],
                        monitor.reserved[2],
                    ),
                    picker_width(),
                )
                &&& r.1 == whole_side(
                    hypr::usable_side(
                        hypr::logical_side(monitor.turned().1, monitor.scale),
                        monitor.reserved[1],
                        monitor.reserved[3],
                    ),
                    picker_height(),
                )
            },
            None => r == (960u32, 650u32),
        },
{
    match monitor {
        Some(monitor) => picker_size_for_monitor(monitor),
        None => (960, 650),
    }
}

/// The picker's window leaves the margin free wherever that leaves a pixel, and
/// in whole pixels is still smaller than the screen.
pub proof fn the_window_leaves_its_margin(usable: Single, side: Side)
    requires
        side == picker_width() || side == picker_height(),
        (Single { bits: single::ONE }).up_to(usable.minus(Single { bits: MARGIN })),
    ensures
        window_side(usable, side).up_to(usable.minus(Single { bits: MARGIN })),
        single::of_int(whole_side(usable, side)).below(usable),
{
    let u = single::unit();
    let left = usable.minus(Single { bits: MARGIN });
    let fitted = window_side(usable, side);
    assert(fitted.up_to(left) && !fitted.negative() && fitted.code() <= 0x4489_8000);
    vstd::arithmetic::power2::lemma2_to64();
    vstd::arithmetic::power2::lemma_pow2_pos(149);
    vstd::arithmetic::power2::lemma_pow2_adds(13, 136);
    vstd::arithmetic::power2::lemma_pow2_adds(18, 131);
    single::lemma_amount(0x4489_8000);
    single::lemma_amount(MARGIN as int);
    single::lemma_amount(fitted.code());
    single::lemma_amount_order(fitted.code(), 0x4489_8000);
    assert(u == 0x2000 * vstd::arithmetic::power2::pow2(136));
    assert(single::digits(0x4489_8000) == 0x89_8000);
    assert(single::power(0x4489_8000) == 136);
    assert(single::amount(0x4489_8000) == 0x89_8000 * vstd::arithmetic::power2::pow2(136));
    assert(single::amount(0x4489_8000) == 1100 * u);
    assert(u == 0x4_0000 * vstd::arithmetic::power2::pow2(131));
    assert(single::digits(MARGIN as int) == 0x80_0000);
    assert(single::amount(MARGIN as int) == 32 * u);
    // In whole pixels.
    let size = single::amount(fitted.code());
    let whole = fitted.whole();
    assert(0 <= whole && whole * u <= size + u / 2 && whole <= 1100) by (nonlinear_arith)
        requires
            whole == (2 * size + u) / (2 * u),
            0 <= size <= 1100 * u,
            0 < u,
    ;
    single::lemma_exact(whole, 149);
    let code = single::near(whole * u, 1);
    single::lemma_of_int(whole);
    assert(single::of_int(whole).code() == code);
    if usable.finite() {
        let rest = usable.value() - 32 * u;
        single::lemma_amount(usable.code());
        assert((Single { bits: MARGIN }).flipped().value() == -(32 * u));
        single::lemma_near_order(single::size(rest), single::size(rest), 1);
        assert(rest > 0);
        let k = (rest + u - 1) / u;
        assert(rest <= k * u < rest + u && 0 <= k) by (nonlinear_arith)
            requires
                k == (rest + u - 1) / u,
                0 < rest,
                0 < u,
        ;
        if k <= 0x100_0000 {
            single::lemma_exact(k, 149);
            single::lemma_near_order(rest, k * u, 1);
            single::lemma_amount_order(fitted.code(), single::near(k * u, 1));
        } else {
            assert(k * u >= 0x100_0001 * u) by (nonlinear_arith)
                requires
                    k >= 0x100_0001,
                    0 < u,
            ;
            assert(whole * u <= 1100 * u) by (nonlinear_arith)
                requires
                    whole <= 1100,
                    0 < u,
            ;
        }
        assert(whole * u < usable.value());
        if usable.code() <= code {
            single::lemma_amount_order(usable.code(), code);
        }
    }
}

/// The row that is marked as selected is the window that would be shared.
pub proof fn the_marked_window_is_the_source(
    picker: OmaBeam,
    row: WindowRow,
    i: int,
    source: Option<crate::live::LiveSource>,
)
    requires
        picker.page.of_windows(),
        0 <= i < picker.clients().len(),
        picker.clients()[i].visible(),
        row.of(picker, i),
        row.selected,
        picker.source(source),
    ensures
        source matches Some(crate::live::LiveSource::Window { address, .. }) && address@
            == picker.clients()[i].address@,
{
    let test = |c: Client| c.address@ == picker.selected_window->0@ && c.visible();
    crate::search::lemma_found(picker.clients(), test);
    assert(test(picker.clients()[i]));
}

/// The row that is marked as selected is the display that would be shared.
pub proof fn the_marked_display_is_the_source(
    picker: OmaBeam,
    row: OutputRow,
    i: int,
    source: Option<crate::live::LiveSource>,
)
    requires
        picker.page == Page::Outputs,
        0 <= i < picker.monitors().len(),
        row.of(picker, picker.monitors()[i]),
        row.selected,
        picker.source(source),
    ensures
        source matches Some(crate::live::LiveSource::Output { name }) && name@
            == picker.monitors()[i].name@,
{
    hypr::lemma_index_by_name(picker.monitors(), picker.selected_output->0, i);
}

/// A display is shown with its logical width and then its height.
pub proof fn display_sizes_are_read_back(picker: OmaBeam, row: OutputRow, monitor: Monitor)
    requires
        row.of(picker, monitor),
    ensures
        ({
            let rest = crate::strings::behind(crate::strings::behind(row.detail@, ' '), ' ');
            &&& crate::strings::integer_value(crate::strings::before(row.detail@, ' ')) == Some(
                rounded(monitor.turned().0, monitor.scale),
            )
            &&& crate::strings::integer_value(crate::strings::before(rest, ' ')) == Some(
                rounded(monitor.turned().1, monitor.scale),
            )
        }),
{
    reveal_strlit(" × ");
    reveal_strlit(" · Workspace ");
    reveal_strlit("· Workspace ");
    let (a, b) = (
        rounded(monitor.turned().0, monitor.scale),
        rounded(monitor.turned().1, monitor.scale),
    );
    lemma_rounded(monitor.turned().0, monitor.scale);
    lemma_rounded(monitor.turned().1, monitor.scale);
    let (w, h) = (text::decimal(a as nat), text::decimal(b as nat));
    crate::strings::decimals_are_read_back(a as nat);
    crate::strings::decimals_are_read_back(b as nat);
    crate::strings::signed_decimals_are_read_back(a);
    crate::strings::signed_decimals_are_read_back(b);
    let selected = picker.selected_output is Some && picker.selected_output->0@ == monitor.name@;
    let end = "· Workspace "@ + monitor.active_workspace.name@ + (if selected {
        " · Selected"@
    } else {
        ""@
    });
    let second = h + seq![' '] + end;
    let rest = seq!['×'] + seq![' '] + second;
    assert(row.detail@ =~= w + seq![' '] + rest);
    crate::strings::lemma_parted(w, ' ', rest);
    crate::strings::lemma_parted(seq!['×'], ' ', second);
    crate::strings::lemma_parted(h, ' ', end);
}

proof fn lemma_rounded(length: u32, scale: Single)
    ensures
        0 <= rounded(length, scale),
{
    let side = hypr::logical_side(length, scale);
    hypr::lemma_logical_side(length, scale);
    single::lemma_amount(side.code());
    vstd::arithmetic::power2::lemma_pow2_pos(149);
    let (n, u) = (single::amount(side.code()) * 1, single::unit());
    assert(0 <= n / u) by (nonlinear_arith)
        requires
            0 <= n,
            0 < u,
    ;
}

/// An area is described by its width, then its height, and the output it is on.
pub proof fn region_texts_are_read_back(picker: OmaBeam)
    requires
        picker.selected_region is Some,
    ensures
        picker.selected_region matches Some(Selection::Region { output, x, y, w, h }) ==> {
            let rest = crate::strings::behind(
                crate::strings::behind(picker.region_text(), ' '),
                ' ',
            );
            &&& crate::strings::integer_value(
                crate::strings::before(picker.region_text(), ' '),
            ) == Some(w as int)
            &&& crate::strings::integer_value(crate::strings::before(rest, ' ')) == Some(h as int)
            &&& crate::strings::behind(crate::strings::behind(rest, ' '), ' ') == output@
        },
{
    if let Some(Selection::Region { output, x, y, w, h }) = picker.selected_region {
        reveal_strlit(" × ");
        reveal_strlit(" on ");
        let (a, b) = (text::signed_decimal(w as int), text::signed_decimal(h as int));
        crate::strings::signed_decimals_are_read_back(w as int);
        crate::strings::signed_decimals_are_read_back(h as int);
        let on = seq!['o', 'n'];
        let end = on + seq![' '] + output@;
        let second = b + seq![' '] + end;
        let rest = seq!['×'] + seq![' '] + second;
        assert(picker.region_text() =~= a + seq![' '] + rest);
        crate::strings::lemma_parted(a, ' ', rest);
        crate::strings::lemma_parted(seq!['×'], ' ', second);
        crate::strings::lemma_parted(b, ' ', end);
        crate::strings::lemma_parted(on, ' ', output@);
    }
}

} // verus!
