//! The picker: what is selected, what is done with it, and what is wanted next.

use vstd::prelude::*;

use crate::desktop::DesktopConfig;
use crate::destination::Cast;
use crate::hypr;
use crate::hypr::Client;
use crate::hypr::Monitor;
use crate::hypr::Snapshot;
use crate::layout;
use crate::layout::Tile;
use crate::live::LiveConfig;
use crate::portal;
use crate::portal::PortalWindow;
use crate::previews::Previews;
use crate::request::Selection;
use crate::search;
use crate::settings::Stream;
use crate::text;
use crate::wording;

verus! {

/// What the picker shows to choose from.
#[derive(Debug, Clone, Copy, PartialEq, Eq, Structural)]
pub enum Page {
    Tiles,
    Windows,
    Outputs,
    Region,
    Extend,
}

impl Page {
    pub open spec fn at(index: int) -> Page {
        if index == 1 {
            Page::Outputs
        } else if index == 2 {
            Page::Region
        } else if index == 3 {
            Page::Extend
        } else {
            Page::Tiles
        }
    }

    pub open spec fn place(self) -> int {
        match self {
            Page::Tiles => 0,
            Page::Windows => 0,
            Page::Outputs => 1,
            Page::Region => 2,
            Page::Extend => 3,
        }
    }

    pub fn from_index(index: usize) -> (r: Self)
        ensures
            r == Page::at(index as int),
    {
        match index {
            1 => Page::Outputs,
            2 => Page::Region,
            3 => Page::Extend,
            _ => Page::Tiles,
        }
    }

    pub fn index(self) -> (r: usize)
        ensures
            r == self.place(),
    {
        match self {
            Page::Tiles | Page::Windows => 0,
            Page::Outputs => 1,
            Page::Region => 2,
            Page::Extend => 3,
        }
    }

    /// The page is one of windows.
    pub open spec fn of_windows(self) -> bool {
        self == Page::Tiles || self == Page::Windows
    }
}

#[derive(Debug, Clone, Copy, PartialEq, Eq, Structural)]
pub enum Error {
    Unexpected,
    DemoPortal,
}

impl Error {
    pub open spec fn text(self) -> Seq<char> {
        match self {
            Error::Unexpected => "unexpected picker argument"@,
            Error::DemoPortal => "--demo-picker cannot run as a portal picker"@,
        }
    }

    pub fn message(self) -> (r: String)
        ensures
            r@ == self.text(),
    {
        match self {
            Error::Unexpected => "unexpected picker argument".to_owned(),
            Error::DemoPortal => "--demo-picker cannot run as a portal picker".to_owned(),
        }
    }
}

/// How the picker is opened.
#[derive(Debug, Clone, Copy, PartialEq, Eq, Structural)]
pub struct Options {
    pub picker: bool,
    pub demo: bool,
    pub allow_token: bool,
    pub live_config: LiveConfig,
    pub fps_selected: bool,
}

/// The argument is among those given.
pub open spec fn given(args: Seq<String>, name: Seq<char>) -> bool {
    exists|i: int| 0 <= i < args.len() && (#[trigger] args[i])@ == name
}

/// The picker knows the argument.
pub open spec fn known(arg: Seq<char>) -> bool {
    arg == "--allow-token"@ || arg == "--picker"@ || arg == "--demo-picker"@
}

fn is_given(args: &[String], name: &str) -> (r: bool)
    ensures
        r == given(args@, name@),
{
    let mut i: usize = 0;
    while i < args.len()
        invariant
            i <= args@.len(),
            forall|j: int| 0 <= j < i ==> (#[trigger] args@[j])@ != name@,
        decreases args@.len() - i,
    {
        if text::same(args[i].as_str(), name) {
            assert(args@[i as int]@ == name@);
            return true;
        }
        i = i + 1;
    }
    false
}

fn all_known(args: &[String]) -> (r: bool)
    ensures
        r == forall|i: int| 0 <= i < args@.len() ==> known((#[trigger] args@[i])@),
{
    let mut i: usize = 0;
    while i < args.len()
        invariant
            i <= args@.len(),
            forall|j: int| 0 <= j < i ==> known((#[trigger] args@[j])@),
        decreases args@.len() - i,
    {
        let arg = args[i].as_str();
        if !(text::same(arg, "--allow-token") || text::same(arg, "--picker") || text::same(
            arg,
            "--demo-picker",
        )) {
            assert(!known(args@[i as int]@));
            return false;
        }
        i = i + 1;
    }
    true
}

impl Options {
    /// `sharing` tells whether the portal handed over its list of windows.
    pub fn from_args(
        args: &[String],
        live_config: LiveConfig,
        fps_selected: bool,
        sharing: bool,
    ) -> (r: Result<Self, Error>)
        ensures
            ({
                let token = given(args@, "--allow-token"@);
                let picker = token || given(args@, "--picker"@) || sharing;
                let demo = given(args@, "--demo-picker"@);
                r == if !(forall|i: int| 0 <= i < args@.len() ==> known((#[trigger] args@[i])@)) {
                    Err::<Options, Error>(Error::Unexpected)
                } else if demo && picker {
                    Err::<Options, Error>(Error::DemoPortal)
                } else {
                    Ok::<Options, Error>(
                        Options { picker, demo, allow_token: token, live_config, fps_selected },
                    )
                }
            }),
    {
        if !all_known(args) {
            return Err(Error::Unexpected);
        }
        let allow_token = is_given(args, "--allow-token");
        let picker = allow_token || is_given(args, "--picker") || sharing;
        let demo = is_given(args, "--demo-picker");
        if demo && picker {
            return Err(Error::DemoPortal);
        }
        Ok(Options { picker, demo, allow_token, live_config, fps_selected })
    }
}

/// The picker.
#[derive(Debug)]
pub struct OmaBeam {
    pub picker: bool,
    pub demo: bool,
    pub allow_token: bool,
    pub page: Page,
    pub snapshot: Option<Snapshot>,
    /// Why there is no snapshot.
    pub snapshot_error: Option<String>,
    pub portal: Vec<PortalWindow>,
    pub workspace_id: i32,
    pub selected_window: Option<String>,
    pub selected_output: Option<String>,
    pub selected_region: Option<Selection>,
    pub stream: Stream,
    pub desktop_config: DesktopConfig,
    pub cast: Cast,
    pub follow_workspace: bool,
    pub status: String,
    pub busy: bool,
    pub show_help: bool,
    pub screenshot_mode: bool,
    pub show_advanced: bool,
    pub previews: Previews,
}

/// The first window of the list that had the focus most recently.
pub open spec fn most_recent(clients: Seq<Client>, list: Seq<usize>) -> Option<int>
    decreases list.len(),
{
    if list.len() == 0 {
        None
    } else {
        let last = list.last() as int;
        match most_recent(clients, list.drop_last()) {
            Some(best) => if clients[last].focus_history_id < clients[best].focus_history_id {
                Some(last)
            } else {
                Some(best)
            },
            None => Some(last),
        }
    }
}

pub fn find_recent(clients: &Vec<Client>, list: &Vec<usize>) -> (r: Option<usize>)
    requires
        forall|i: int| 0 <= i < list@.len() ==> (#[trigger] list@[i]) < clients@.len(),
    ensures
        match r {
            Some(i) => most_recent(clients@, list@) == Some(i as int) && i < clients@.len(),
            None => most_recent(clients@, list@) is None,
        },
{
    let mut best: Option<usize> = None;
    let mut i: usize = 0;
    assert(list@.take(0) =~= Seq::empty());
    while i < list.len()
        invariant
            i <= list@.len(),
            forall|k: int| 0 <= k < list@.len() ==> (#[trigger] list@[k]) < clients@.len(),
            match best {
                Some(b) => most_recent(clients@, list@.take(i as int)) == Some(b as int) && b
                    < clients@.len(),
                None => most_recent(clients@, list@.take(i as int)) is None,
            },
        decreases list@.len() - i,
    {
        assert(list@.take(i + 1).drop_last() =~= list@.take(i as int));
        assert(list@.take(i + 1).last() == list@[i as int]);
        let k: usize = list[i];
        let newer = match best {
            Some(b) => clients[k].focus_history_id < clients[b].focus_history_id,
            None => true,
        };
        if newer {
            best = Some(k);
        }
        i = i + 1;
    }
    assert(list@.take(i as int) =~= list@);
    best
}

/// The address of the most recent tile of a workspace.
pub open spec fn recent_tile(clients: Seq<Client>, workspace: i32) -> Option<Seq<char>> {
    match most_recent(clients, hypr::tiles(clients, workspace)) {
        Some(i) => Some(clients[i].address@),
        None => None,
    }
}

/// The name of the focused monitor.
pub open spec fn focused_name(monitors: Seq<Monitor>) -> Option<Seq<char>> {
    match hypr::focused_index(monitors) {
        Some(i) => Some(monitors[i].name@),
        None => None,
    }
}

/// The snapshot is the loaded one, with the portal's numbers.
pub open spec fn numbered_from(
    loaded: Snapshot,
    portal: Seq<PortalWindow>,
    snapshot: Snapshot,
) -> bool {
    &&& snapshot.monitors == loaded.monitors
    &&& snapshot.workspaces == loaded.workspaces
    &&& snapshot.active_workspace == loaded.active_workspace
    &&& snapshot.clients@.len() == loaded.clients@.len()
    &&& forall|i: int|
        0 <= i < loaded.clients@.len() ==> portal::renumbered(
            loaded.clients@[i],
            #[trigger] snapshot.clients@[i],
        ) && portal::numbered(portal, loaded.clients@[i], snapshot.clients@[i].portal_id)
}

/// The window is a tile of the workspace.
pub open spec fn on_workspace(clients: Seq<Client>, workspace: i32, address: Seq<char>) -> bool {
    exists|i: int|
        0 <= i < clients.len() && (#[trigger] clients[i]).visible() && clients[i].workspace.id
            == workspace && clients[i].address@ == address
}

/// A monitor has the name.
pub open spec fn has_monitor(monitors: Seq<Monitor>, name: Seq<char>) -> bool {
    hypr::index_by_name(monitors, name) is Some
}

pub fn is_on_workspace(clients: &Vec<Client>, workspace: i32, address: &str) -> (r: bool)
    ensures
        r == on_workspace(clients@, workspace, address@),
{
    let mut i: usize = 0;
    while i < clients.len()
        invariant
            i <= clients@.len(),
            forall|j: int|
                0 <= j < i ==> !((#[trigger] clients@[j]).visible() && clients@[j].workspace.id
                    == workspace && clients@[j].address@ == address@),
        decreases clients@.len() - i,
    {
        if clients[i].visible_on_workspace(workspace) && text::same(
            clients[i].address.as_str(),
            address,
        ) {
            assert(clients@[i as int].visible());
            return true;
        }
        i = i + 1;
    }
    false
}

/// The place of the first window with an address.
pub open spec fn by_address(clients: Seq<Client>, address: Seq<char>) -> Option<int> {
    search::first_where(clients, |c: Client| c.address@ == address)
}

fn find_address(clients: &Vec<Client>, address: &str) -> (r: Option<usize>)
    ensures
        match r {
            Some(i) => i < clients@.len() && by_address(clients@, address@) == Some(i as int),
            None => by_address(clients@, address@) is None,
        },
{
    let ghost test = |c: Client| c.address@ == address@;
    let mut i: usize = 0;
    while i < clients.len()
        invariant
            i <= clients@.len(),
            test == (|c: Client| c.address@ == address@),
            forall|j: int| 0 <= j < i ==> !test(#[trigger] clients@[j]),
        decreases clients@.len() - i,
    {
        if text::same(clients[i].address.as_str(), address) {
            proof {
                search::lemma_first(clients@, test, i as int);
            }
            return Some(i);
        }
        i = i + 1;
    }
    proof {
        search::lemma_none(clients@, test);
    }
    None
}

/// The window that stays selected when the session changed.
pub open spec fn kept_window(
    selected: Option<Client>,
    clients: Seq<Client>,
    leave: Option<i32>,
) -> Option<Seq<char>> {
    let kept = portal::retained(selected, clients);
    match leave {
        Some(workspace) => if kept is Some && on_workspace(clients, workspace, kept->0) {
            kept
        } else {
            None
        },
        None => kept,
    }
}

impl OmaBeam {
    /// The windows of the session.
    pub open spec fn clients(self) -> Seq<Client> {
        match self.snapshot {
            Some(snapshot) => snapshot.clients@,
            None => Seq::empty(),
        }
    }

    /// The monitors of the session.
    pub open spec fn monitors(self) -> Seq<Monitor> {
        match self.snapshot {
            Some(snapshot) => snapshot.monitors@,
            None => Seq::empty(),
        }
    }

    /// The place of the selected window.
    pub open spec fn chosen_client(self) -> Option<int> {
        match self.selected_window {
            Some(address) => search::first_where(
                self.clients(),
                |c: Client| c.address@ == address@ && c.visible(),
            ),
            None => None,
        }
    }

    /// The place of the selected monitor.
    pub open spec fn chosen_monitor(self) -> Option<int> {
        match self.selected_output {
            Some(name) => hypr::index_by_name(self.monitors(), name@),
            None => None,
        }
    }

    /// The picker as it opens: on the tiles of the active workspace, with the
    /// most recent of them and the focused monitor selected.
    pub fn new(options: Options, portal: Vec<PortalWindow>, loaded: Result<Snapshot, String>) -> (r:
        Self)
        ensures
            r.picker == options.picker,
            r.demo == options.demo,
            r.allow_token == options.allow_token,
            r.page == Page::Tiles,
            r.portal == portal,
            r.stream == (Stream {
                config: options.live_config,
                fps_selected: options.fps_selected,
            }),
            r.desktop_config == (DesktopConfig {
                width: 1920,
                height: 1080,
                scale: 1,
                position: crate::desktop::Position::Right,
            }),
            r.cast.unused(),
            r.follow_workspace,
            r.status@.len() == 0,
            !r.busy,
            !r.show_help,
            !r.screenshot_mode,
            !r.show_advanced,
            r.selected_region is None,
            r.previews.blank(),
            match loaded {
                Ok(loaded) => {
                    &&& r.snapshot is Some
                    &&& numbered_from(loaded, portal@, r.snapshot->0)
                    &&& r.snapshot_error is None
                    &&& r.workspace_id == loaded.active_workspace.id
                    &&& text::text_of(r.selected_window) == recent_tile(r.clients(), r.workspace_id)
                    &&& text::text_of(r.selected_output) == focused_name(r.monitors())
                },
                Err(error) => {
                    &&& r.snapshot is None
                    &&& r.snapshot_error == Some(error)
                    &&& r.workspace_id == 1
                    &&& r.selected_window is None
                    &&& r.selected_output is None
                },
            },
    {
        let mut snapshot: Option<Snapshot> = None;
        let mut snapshot_error: Option<String> = None;
        let mut workspace_id: i32 = 1;
        let mut selected_window: Option<String> = None;
        let mut selected_output: Option<String> = None;
        match loaded {
            Ok(loaded) => {
                let mut fresh = loaded;
                fresh.with_portal_windows(portal.as_slice());
                workspace_id = fresh.active_workspace.id;
                let list = fresh.tiles_on(workspace_id);
                if let Some(i) = find_recent(&fresh.clients, &list) {
                    selected_window = Some(fresh.clients[i].address.clone());
                }
                if let Some(i) = hypr::focused_place(&fresh.monitors) {
                    selected_output = Some(fresh.monitors[i].name.clone());
                }
                snapshot = Some(fresh);
            },
            Err(error) => {
                snapshot_error = Some(error);
            },
        }
        OmaBeam {
            picker: options.picker,
            demo: options.demo,
            allow_token: options.allow_token,
            page: Page::Tiles,
            snapshot,
            snapshot_error,
            portal,
            workspace_id,
            selected_window,
            selected_output,
            selected_region: None,
            stream: Stream { config: options.live_config, fps_selected: options.fps_selected },
            desktop_config: DesktopConfig::default(),
            cast: Cast::new(),
            follow_workspace: true,
            status: String::new(),
            busy: false,
            show_help: false,
            screenshot_mode: false,
            show_advanced: false,
            previews: Previews::new(),
        }
    }

    /// The workspace that the picker follows to.
    pub open spec fn followed(self, loaded: Snapshot) -> i32 {
        if self.follow_workspace && loaded.active_workspace.id > 0 {
            loaded.active_workspace.id
        } else {
            self.workspace_id
        }
    }

    /// The selected window as it was last seen.
    pub open spec fn last_seen(self) -> Option<Client> {
        match self.selected_window {
            Some(address) => match by_address(self.clients(), address@) {
                Some(i) => Some(self.clients()[i]),
                None => None,
            },
            None => None,
        }
    }

    fn keep_window(&self, fresh: &Snapshot, leave: Option<i32>) -> (r: Option<String>)
        ensures
            text::text_of(r) == kept_window(self.last_seen(), fresh.clients@, leave),
    {
        let mut kept: Option<String> = None;
        if let Some(address) = &self.selected_window {
            if let Some(snapshot) = &self.snapshot {
                if let Some(i) = find_address(&snapshot.clients, address.as_str()) {
                    kept = portal::retain_selected_window(Some(&snapshot.clients[i]), fresh);
                }
            } else {
                assert(by_address(self.clients(), address@) is None);
            }
        }
        assert(text::text_of(kept) == portal::retained(self.last_seen(), fresh.clients@));
        if let Some(workspace) = leave {
            let stays = match &kept {
                Some(address) => is_on_workspace(&fresh.clients, workspace, address.as_str()),
                None => false,
            };
            if !stays {
                kept = None;
            }
        }
        kept
    }

    fn keeps_output(&self, fresh: &Snapshot) -> (r: bool)
        ensures
            r == (self.selected_output is None || has_monitor(
                fresh.monitors@,
                self.selected_output->0@,
            )),
    {
        match &self.selected_output {
            Some(name) => {
                let found = fresh.monitor_by_name(name.as_str());
                found.is_some()
            },
            None => true,
        }
    }

    fn keeps_region(&self, fresh: &Snapshot) -> (r: bool)
        ensures
            r == match self.selected_region {
                Some(Selection::Region { output, x, y, w, h }) => has_monitor(
                    fresh.monitors@,
                    output@,
                ),
                _ => true,
            },
    {
        match &self.selected_region {
            Some(Selection::Region { output, x, y, w, h }) => {
                let found = fresh.monitor_by_name(output.as_str());
                found.is_some()
            },
            _ => true,
        }
    }

    /// Takes in a new state of the session. What is selected stays selected
    /// while it is there; a window also has to be on the tiled workspace.
    pub fn refresh_snapshot(&mut self, loaded: Result<Snapshot, String>)
        ensures
            *final(self) == (OmaBeam {
                snapshot: final(self).snapshot,
                snapshot_error: final(self).snapshot_error,
                workspace_id: final(self).workspace_id,
                selected_window: final(self).selected_window,
                selected_output: final(self).selected_output,
                selected_region: final(self).selected_region,
                ..*old(self)
            }),
            match loaded {
                Ok(loaded) => {
                    let moved = old(self).follow_workspace && loaded.active_workspace.id > 0;
                    let leave = if moved && old(self).page == Page::Tiles {
                        Some(loaded.active_workspace.id)
                    } else {
                        None
                    };
                    &&& final(self).snapshot is Some
                    &&& numbered_from(loaded, old(self).portal@, final(self).snapshot->0)
                    &&& final(self).snapshot_error is None
                    &&& final(self).workspace_id == old(self).followed(loaded)
                    &&& text::text_of(final(self).selected_window) == kept_window(
                        old(self).last_seen(),
                        final(self).clients(),
                        leave,
                    )
                    &&& final(self).selected_output == if old(self).selected_output is Some
                        && has_monitor(loaded.monitors@, old(self).selected_output->0@) {
                        old(self).selected_output
                    } else {
                        None
                    }
                    &&& final(self).selected_region == match old(self).selected_region {
                        Some(Selection::Region { output, x, y, w, h }) => if has_monitor(
                            loaded.monitors@,
                            output@,
                        ) {
                            old(self).selected_region
                        } else {
                            None
                        },
                        _ => old(self).selected_region,
                    }
                },
                Err(error) => {
                    &&& final(self).snapshot is None
                    &&& final(self).snapshot_error == Some(error)
                    &&& final(self).workspace_id == old(self).workspace_id
                    &&& final(self).selected_window is None
                    &&& final(self).selected_output is None
                    &&& final(self).selected_region is None
                },
            },
    {
        let mut fresh = match loaded {
            Ok(loaded) => loaded,
            Err(error) => {
                self.snapshot = None;
                self.snapshot_error = Some(error);
                self.selected_window = None;
                self.selected_output = None;
                self.selected_region = None;
                return ;
            },
        };
        fresh.with_portal_windows(self.portal.as_slice());
        let moved = self.follow_workspace && fresh.active_workspace.id > 0;
        let leave = if moved && self.page == Page::Tiles {
            Some(fresh.active_workspace.id)
        } else {
            None
        };
        let kept = self.keep_window(&fresh, leave);
        if moved {
            self.workspace_id = fresh.active_workspace.id;
        }
        let output_stays = self.keeps_output(&fresh);
        let region_stays = self.keeps_region(&fresh);
        self.selected_window = kept;
        if !output_stays {
            self.selected_output = None;
        }
        if !region_stays {
            self.selected_region = None;
        }
        self.snapshot = Some(fresh);
        self.snapshot_error = None;
    }
}

/// The picker selected the window: its monitor too, and the status says so,
/// where the session knows it.
pub open spec fn selects_window(before: OmaBeam, address: Seq<char>, after: OmaBeam) -> bool {
    &&& after == (OmaBeam {
        selected_window: after.selected_window,
        selected_output: after.selected_output,
        status: after.status,
        ..before
    })
    &&& text::text_of(after.selected_window) == Some(address)
    &&& match by_address(before.clients(), address) {
        Some(i) => {
            let client = before.clients()[i];
            &&& text::text_of(after.selected_output) == match hypr::monitor_at(
                before.monitors(),
                hypr::index_by_id(before.monitors(), client.monitor),
            ) {
                Some(monitor) => Some(monitor.name@),
                None => None,
            }
            &&& after.status@ == client.class@ + " — "@ + wording::cut(client.title@, 72)
        },
        None => after.selected_output == before.selected_output && after.status == before.status,
    }
}

/// The picker selected the monitor.
pub open spec fn selects_output(before: OmaBeam, name: Seq<char>, after: OmaBeam) -> bool {
    &&& after == (OmaBeam {
        selected_output: after.selected_output,
        status: after.status,
        ..before
    })
    &&& text::text_of(after.selected_output) == Some(name)
    &&& match hypr::monitor_at(before.monitors(), hypr::index_by_name(before.monitors(), name)) {
        Some(monitor) => after.status@ == "Entire screen selected: "@ + monitor.label_text(),
        None => after.status == before.status,
    }
}

/// The next place in a list, around its ends.
pub open spec fn stepped(place: int, delta: int, len: int) -> int {
    (place + delta) % len
}

pub fn step(place: usize, delta: i32, len: usize) -> (r: usize)
    requires
        place < len,
    ensures
        r == stepped(place as int, delta as int, len as int),
        r < len,
{
    let n: i128 = len as i128;
    let moved: i128 = place as i128 + delta as i128;
    if moved >= 0 {
        proof {
            vstd::arithmetic::div_mod::lemma_mod_bound(moved as int, n as int);
        }
        (moved % n) as usize
    } else {
        let rounds: i128 = (0 - moved) / n + 1;
        proof {
            let m = moved as int;
            let k = n as int;
            let q = (0 - m) / k + 1;
            vstd::arithmetic::div_mod::lemma_fundamental_div_mod(0 - m, k);
            vstd::arithmetic::div_mod::lemma_mod_bound(0 - m, k);
            vstd::arithmetic::div_mod::lemma_mod_multiples_vanish(q, m, k);
            vstd::arithmetic::div_mod::lemma_mod_bound(m, k);
            assert(k * ((0 - m) / k) <= 0 - m);
            assert(k * q == k * ((0 - m) / k) + k) by (nonlinear_arith)
                requires
                    q == (0 - m) / k + 1,
            ;
            assert(0 <= k * q + m <= k);
            assert(rounds * n == k * q) by (nonlinear_arith)
                requires
                    rounds == q,
                    n == k,
            ;
            assert(rounds * n <= 0 - m + k);
        }
        ((moved + rounds * n) % n) as usize
    }
}

/// The windows that the tiles show.
pub open spec fn tiled<'a>(clients: Seq<Client>, list: Seq<usize>) -> Seq<&'a Client> {
    Seq::new(list.len(), |i: int| &clients[list[i] as int])
}

/// The tiles as they lie on the map.
pub open spec fn mapped(monitor: Monitor, refs: Seq<&Client>) -> Seq<Tile> {
    Seq::new(
        refs.len(),
        |i: int|
            Tile {
                index: i as usize,
                rect: layout::placed(refs[i].frame(), layout::hull(monitor, refs)),
            },
    )
}

/// Where the selected window stands in a list; at its start if it does not.
pub open spec fn standing(
    clients: Seq<Client>,
    list: Seq<usize>,
    selected: Option<Seq<char>>,
) -> int {
    match search::first_where(
        list,
        |k: usize| selected is Some && clients[k as int].address@ == selected->0,
    ) {
        Some(i) => i,
        None => 0,
    }
}

fn find_standing(clients: &Vec<Client>, list: &Vec<usize>, selected: &Option<String>) -> (r: usize)
    requires
        forall|i: int| 0 <= i < list@.len() ==> (#[trigger] list@[i]) < clients@.len(),
    ensures
        r == standing(clients@, list@, text::text_of(*selected)),
        list@.len() > 0 ==> r < list@.len(),
{
    let ghost wanted = text::text_of(*selected);
    let ghost test = |k: usize| wanted is Some && clients@[k as int].address@ == wanted->0;
    if let Some(address) = selected {
        let mut i: usize = 0;
        while i < list.len()
            invariant
                i <= list@.len(),
                wanted == Some(address@),
                wanted == text::text_of(*selected),
                test == (|k: usize| wanted is Some && clients@[k as int].address@ == wanted->0),
                forall|k: int| 0 <= k < list@.len() ==> (#[trigger] list@[k]) < clients@.len(),
                forall|j: int| 0 <= j < i ==> !test(#[trigger] list@[j]),
            decreases list@.len() - i,
        {
            if text::same(clients[list[i]].address.as_str(), address.as_str()) {
                proof {
                    search::lemma_first(list@, test, i as int);
                }
                return i;
            }
            i = i + 1;
        }
    }
    proof {
        search::lemma_none(list@, test);
    }
    0
}

impl OmaBeam {
    /// The windows on the map, by their positions in order.
    pub fn current_tiles(&self) -> (r: Vec<usize>)
        ensures
            r@ == match self.snapshot {
                Some(snapshot) => hypr::tiles(snapshot.clients@, self.workspace_id),
                None => Seq::empty(),
            },
            forall|i: int| 0 <= i < r@.len() ==> (#[trigger] r@[i]) < self.clients().len(),
    {
        match &self.snapshot {
            Some(snapshot) => snapshot.tiles_on(self.workspace_id),
            None => Vec::new(),
        }
    }

    /// All windows, by their positions in order.
    pub fn current_windows(&self) -> (r: Vec<usize>)
        ensures
            r@ == match self.snapshot {
                Some(snapshot) => hypr::listing(snapshot.clients@),
                None => Seq::empty(),
            },
            forall|i: int| 0 <= i < r@.len() ==> (#[trigger] r@[i]) < self.clients().len(),
    {
        match &self.snapshot {
            Some(snapshot) => snapshot.listed_windows(),
            None => Vec::new(),
        }
    }

    /// The selected window, if it can be seen.
    pub fn selected_client(&self) -> (r: Option<&Client>)
        ensures
            match r {
                Some(client) => self.chosen_client() is Some && *client
                    == self.clients()[self.chosen_client()->0] && client.visible(),
                None => self.chosen_client() is None,
            },
    {
        let address = match &self.selected_window {
            Some(address) => address,
            None => {
                return None;
            },
        };
        let snapshot = match &self.snapshot {
            Some(snapshot) => snapshot,
            None => {
                return None;
            },
        };
        let ghost test = |c: Client| c.address@ == address@ && c.visible();
        let mut i: usize = 0;
        while i < snapshot.clients.len()
            invariant
                i <= snapshot.clients@.len(),
                self.snapshot is Some,
                self.snapshot->0 == *snapshot,
                self.selected_window is Some,
                self.selected_window->0 == *address,
                test == (|c: Client| c.address@ == address@ && c.visible()),
                forall|j: int| 0 <= j < i ==> !test(#[trigger] snapshot.clients@[j]),
            decreases snapshot.clients@.len() - i,
        {
            if text::same(snapshot.clients[i].address.as_str(), address.as_str())
                && snapshot.clients[i].is_visible() {
                proof {
                    search::lemma_first(snapshot.clients@, test, i as int);
                }
                return Some(&snapshot.clients[i]);
            }
            i = i + 1;
        }
        proof {
            search::lemma_none(snapshot.clients@, test);
        }
        None
    }

    /// The selected monitor, if it is there.
    pub fn selected_monitor(&self) -> (r: Option<&Monitor>)
        ensures
            hypr::referred(r) == hypr::monitor_at(self.monitors(), self.chosen_monitor()),
    {
        match &self.selected_output {
            Some(name) => match &self.snapshot {
                Some(snapshot) => snapshot.monitor_by_name(name.as_str()),
                None => None,
            },
            None => None,
        }
    }

    pub fn select_window(&mut self, address: String)
        ensures
            selects_window(*old(self), address@, *final(self)),
    {
        let mut found: Option<(Option<String>, String)> = None;
        if let Some(snapshot) = &self.snapshot {
            if let Some(i) = find_address(&snapshot.clients, address.as_str()) {
                let client = &snapshot.clients[i];
                let output = match snapshot.monitor_by_id(client.monitor) {
                    Some(monitor) => Some(monitor.name.clone()),
                    None => None,
                };
                let mut status = client.class.clone();
                status.append(" — ");
                status.append(wording::truncate(client.title.as_str(), 72).as_str());
                found = Some((output, status));
            }
        } else {
            assert(by_address(self.clients(), address@) is None);
        }
        self.selected_window = Some(address);
        if let Some((output, status)) = found {
            self.selected_output = output;
            self.status = status;
        }
    }

    pub fn select_output(&mut self, name: String)
        ensures
            selects_output(*old(self), name@, *final(self)),
    {
        let mut label: Option<String> = None;
        if let Some(snapshot) = &self.snapshot {
            if let Some(monitor) = snapshot.monitor_by_name(name.as_str()) {
                label = Some(monitor.label());
            }
        } else {
            assert(hypr::index_by_name(self.monitors(), name@) is None);
        }
        self.selected_output = Some(name);
        if let Some(label) = label {
            let mut status = "Entire screen selected: ".to_owned();
            status.append(label.as_str());
            self.status = status;
        }
    }

    /// The monitor that the map shows: that of the first tile, else the focused
    /// one.
    pub open spec fn shown_monitor(self) -> Option<Monitor> {
        match self.snapshot {
            Some(snapshot) => {
                let list = hypr::tiles(snapshot.clients@, self.workspace_id);
                let own = if list.len() > 0 {
                    hypr::monitor_at(
                        snapshot.monitors@,
                        hypr::index_by_id(
                            snapshot.monitors@,
                            snapshot.clients@[list[0] as int].monitor,
                        ),
                    )
                } else {
                    None
                };
                match own {
                    Some(monitor) => Some(monitor),
                    None => hypr::monitor_at(
                        snapshot.monitors@,
                        hypr::focused_index(snapshot.monitors@),
                    ),
                }
            },
            None => None,
        }
    }

    pub fn monitor_for_workspace(&self) -> (r: Option<&Monitor>)
        ensures
            hypr::referred(r) == self.shown_monitor(),
    {
        let snapshot = match &self.snapshot {
            Some(snapshot) => snapshot,
            None => {
                return None;
            },
        };
        let list = snapshot.tiles_on(self.workspace_id);
        if list.len() > 0 {
            if let Some(monitor) = snapshot.monitor_by_id(snapshot.clients[list[0]].monitor) {
                return Some(monitor);
            }
        }
        snapshot.focused_monitor()
    }

    /// The tiles of the map.
    pub open spec fn tile_map(self) -> Seq<Tile> {
        match self.shown_monitor() {
            Some(monitor) => mapped(
                monitor,
                tiled(self.clients(), hypr::tiles(self.clients(), self.workspace_id)),
            ),
            None => Seq::empty(),
        }
    }

    /// The map of the workspace, if there is one.
    pub fn tile_view(&self) -> (r: Vec<Tile>)
        ensures
            r@ == self.tile_map(),
    {
        let snapshot = match &self.snapshot {
            Some(snapshot) => snapshot,
            None => {
                return Vec::new();
            },
        };
        let monitor = match self.monitor_for_workspace() {
            Some(monitor) => monitor,
            None => {
                return Vec::new();
            },
        };
        let list = snapshot.tiles_on(self.workspace_id);
        let mut refs: Vec<&Client> = Vec::new();
        let mut i: usize = 0;
        while i < list.len()
            invariant
                i <= list@.len(),
                forall|k: int|
                    0 <= k < list@.len() ==> (#[trigger] list@[k]) < snapshot.clients@.len(),
                refs@.len() == i,
                forall|k: int|
                    0 <= k < i ==> #[trigger] refs@[k] == snapshot.clients@[list@[k] as int],
            decreases list@.len() - i,
        {
            refs.push(&snapshot.clients[list[i]]);
            i = i + 1;
        }
        assert(refs@ =~= tiled(snapshot.clients@, list@));
        let tiles = layout::tiles_for(refs.as_slice(), monitor);
        assert(tiles@ =~= self.tile_map());
        tiles
    }

    /// Where the selection moves.
    pub open spec fn moves(self, dx: i32, dy: i32, after: OmaBeam, shown: Option<usize>) -> bool {
        match self.page {
            Page::Tiles => {
                let list = hypr::tiles(self.clients(), self.workspace_id);
                let current = standing(self.clients(), list, text::text_of(self.selected_window));
                &&& shown is None
                &&& if exists|i: int| #[trigger]
                    layout::nearest(current as usize, self.tile_map(), dx, dy, i) {
                    exists|i: int| #[trigger]
                        layout::nearest(current as usize, self.tile_map(), dx, dy, i)
                            && selects_window(self, self.clients()[list[i] as int].address@, after)
                } else {
                    after == self
                }
            },
            Page::Windows => {
                let list = hypr::listing(self.clients());
                if self.snapshot is None || list.len() == 0 || dy == 0 {
                    shown is None && after == self
                } else {
                    let current = standing(self.clients(), list, text::text_of(self.selected_window));
                    let next = stepped(current, dy as int, list.len() as int);
                    &&& shown == Some(next as usize)
                    &&& selects_window(self, self.clients()[list[next] as int].address@, after)
                }
            },
            Page::Outputs => if self.monitors().len() == 0 || dy == 0 {
                shown is None && after == self
            } else {
                let current = match self.chosen_monitor() {
                    Some(i) => i,
                    None => 0,
                };
                let next = stepped(current, dy as int, self.monitors().len() as int);
                &&& shown == Some(next as usize)
                &&& selects_output(self, self.monitors()[next].name@, after)
            },
            Page::Region => shown is None && after == self,
            Page::Extend => shown is None && after == self,
        }
    }

    fn nearest_tile(&self, dx: i32, dy: i32) -> (r: Option<String>)
        requires
            self.page == Page::Tiles,
        ensures
            ({
                let list = hypr::tiles(self.clients(), self.workspace_id);
                let current = standing(self.clients(), list, text::text_of(self.selected_window));
                match r {
                    Some(address) => exists|i: int| #[trigger]
                        layout::nearest(current as usize, self.tile_map(), dx, dy, i)
                            && self.clients()[list[i] as int].address@ == address@,
                    None => forall|i: int|
                        !#[trigger] layout::nearest(current as usize, self.tile_map(), dx, dy, i),
                }
            }),
    {
        let ghost list_of = hypr::tiles(self.clients(), self.workspace_id);
        let ghost at = standing(self.clients(), list_of, text::text_of(self.selected_window));
        let tiles = self.tile_view();
        let snapshot = match &self.snapshot {
            Some(snapshot) => snapshot,
            None => {
                return None;
            },
        };
        let list = snapshot.tiles_on(self.workspace_id);
        let current = find_standing(&snapshot.clients, &list, &self.selected_window);
        assert(current == at);
        match layout::nearest_in_direction(current, tiles.as_slice(), dx, dy) {
            Some(index) => {
                proof {
                    let i = choose|i: int| #[trigger]
                        layout::nearest(current, tiles@, dx, dy, i) && tiles@[i].index == index;
                    assert(layout::nearest(at as usize, self.tile_map(), dx, dy, i));
                    assert(tiles@[i].index == i);
                    assert(list_of[i] == list@[index as int]);
                }
                Some(snapshot.clients[list[index]].address.clone())
            },
            None => None,
        }
    }

    /// Moves the selection. The result is the place to scroll to.
    pub fn move_selection(&mut self, dx: i32, dy: i32) -> (r: Option<usize>)
        ensures
            old(self).moves(dx, dy, *final(self), r),
    {
        match self.page {
            Page::Tiles => {
                if let Some(address) = self.nearest_tile(dx, dy) {
                    self.select_window(address);
                }
                None
            },
            Page::Windows => {
                let list = self.current_windows();
                if list.len() == 0 || dy == 0 {
                    return None;
                }
                let (next, address) = match &self.snapshot {
                    Some(snapshot) => {
                        let current = find_standing(
                            &snapshot.clients,
                            &list,
                            &self.selected_window,
                        );
                        let next = step(current, dy, list.len());
                        (next, snapshot.clients[list[next]].address.clone())
                    },
                    None => {
                        return None;
                    },
                };
                self.select_window(address);
                Some(next)
            },
            Page::Outputs => {
                let (next, name) = match &self.snapshot {
                    Some(snapshot) => {
                        if snapshot.monitors.len() == 0 || dy == 0 {
                            return None;
                        }
                        let current = self.monitor_standing(snapshot);
                        let next = step(current, dy, snapshot.monitors.len());
                        (next, snapshot.monitors[next].name.clone())
                    },
                    None => {
                        return None;
                    },
                };
                self.select_output(name);
                Some(next)
            },
            Page::Region | Page::Extend => None,
        }
    }

    fn monitor_standing(&self, snapshot: &Snapshot) -> (r: usize)
        requires
            self.snapshot == Some(*snapshot),
            snapshot.monitors@.len() > 0,
        ensures
            r == match self.chosen_monitor() {
                Some(i) => i,
                None => 0,
            },
            r < snapshot.monitors@.len(),
    {
        let name = match &self.selected_output {
            Some(name) => name,
            None => {
                return 0;
            },
        };
        let ghost test = |m: Monitor| m.name@ == name@;
        let mut i: usize = 0;
        while i < snapshot.monitors.len()
            invariant
                i <= snapshot.monitors@.len(),
                snapshot.monitors@.len() > 0,
                self.snapshot == Some(*snapshot),
                self.selected_output == Some(*name),
                test == (|m: Monitor| m.name@ == name@),
                forall|j: int| 0 <= j < i ==> !test(#[trigger] snapshot.monitors@[j]),
            decreases snapshot.monitors@.len() - i,
        {
            if text::same(snapshot.monitors[i].name.as_str(), name.as_str()) {
                proof {
                    search::lemma_first(snapshot.monitors@, test, i as int);
                }
                return i;
            }
            i = i + 1;
        }
        proof {
            search::lemma_none(snapshot.monitors@, test);
        }
        0
    }
}

/// The most recent of the windows had the focus no longer ago than any.
pub proof fn the_most_recent_window_has_the_latest_focus(clients: Seq<Client>, list: Seq<usize>)
    ensures
        match most_recent(clients, list) {
            Some(best) => {
                &&& exists|i: int| 0 <= i < list.len() && (#[trigger] list[i]) == best
                &&& forall|i: int|
                    0 <= i < list.len() ==> clients[best].focus_history_id <= clients[(
                    #[trigger] list[i]) as int].focus_history_id
            },
            None => list.len() == 0,
        },
    decreases list.len(),
{
    if list.len() > 0 {
        let rest = list.drop_last();
        the_most_recent_window_has_the_latest_focus(clients, rest);
        assert forall|i: int| 0 <= i < rest.len() implies #[trigger] rest[i] == list[i] by {}
        let last = list.len() - 1;
        match most_recent(clients, rest) {
            Some(best) => {
                let k = choose|k: int| 0 <= k < rest.len() && (#[trigger] rest[k]) == best;
                assert(list[k] == best);
                assert(list[last] == list.last());
                assert forall|i: int| 0 <= i < list.len() implies clients[most_recent(
                    clients,
                    list,
                )->0].focus_history_id <= clients[(#[trigger] list[i]) as int].focus_history_id by {
                    if i < last {
                        assert(rest[i] == list[i]);
                    }
                }
            },
            None => {
                assert(list[last] == list.last());
            },
        }
    }
}

/// Stepping stays on the list, and stepping back undoes it; a step down goes to
/// the next place, and from the last one to the first.
pub proof fn steps_go_round(place: int, len: int)
    requires
        0 <= place < len,
    ensures
        stepped(place, 1, len) == if place + 1 < len {
            place + 1
        } else {
            0
        },
        stepped(stepped(place, 1, len), -1, len) == place,
        stepped(stepped(place, -1, len), 1, len) == place,
{
    if place + 1 < len {
        vstd::arithmetic::div_mod::lemma_small_mod((place + 1) as nat, len as nat);
    } else {
        vstd::arithmetic::div_mod::lemma_mod_self_0(len);
    }
    vstd::arithmetic::div_mod::lemma_small_mod(place as nat, len as nat);
    let up = stepped(place, -1, len);
    if place > 0 {
        vstd::arithmetic::div_mod::lemma_small_mod((place - 1) as nat, len as nat);
    } else {
        vstd::arithmetic::div_mod::lemma_fundamental_div_mod_converse(-1, len, -1, len - 1);
        vstd::arithmetic::div_mod::lemma_mod_self_0(len);
        if len > 1 {
            vstd::arithmetic::div_mod::lemma_small_mod((len - 1) as nat, len as nat);
        }
    }
    let down = stepped(place, 1, len);
    if place + 1 == len {
        vstd::arithmetic::div_mod::lemma_fundamental_div_mod_converse(-1, len, -1, len - 1);
    }
}

/// Selecting a window that can be seen makes it the selected one.
pub proof fn a_selected_window_is_chosen(
    before: OmaBeam,
    address: Seq<char>,
    after: OmaBeam,
    i: int,
)
    requires
        selects_window(before, address, after),
        0 <= i < before.clients().len(),
        before.clients()[i].address@ == address,
        before.clients()[i].visible(),
    ensures
        after.chosen_client() matches Some(k) && 0 <= k < after.clients().len()
            && after.clients()[k].address@ == address && after.clients()[k].visible(),
        after.clients() == before.clients(),
        after.page == before.page,
{
    let chosen = after.selected_window->0@;
    let test = |c: Client| c.address@ == after.selected_window->0@ && c.visible();
    search::lemma_found(after.clients(), test);
    assert(chosen == address);
    assert(test(after.clients()[i]));
}

/// Selecting a monitor that is there makes it the selected one.
pub proof fn a_selected_output_is_chosen(
    before: OmaBeam,
    name: Seq<char>,
    after: OmaBeam,
    i: int,
)
    requires
        selects_output(before, name, after),
        0 <= i < before.monitors().len(),
        before.monitors()[i].name@ == name,
    ensures
        after.chosen_monitor() matches Some(k) && 0 <= k < after.monitors().len()
            && after.monitors()[k].name@ == name,
        after.page == before.page,
        after.selected_window == before.selected_window,
{
    hypr::lemma_index_by_name(after.monitors(), after.selected_output->0, i);
}

/// The window that an arrow key selects lies that way on the map: the middle of
/// its tile is on that side of the current tile's.
pub proof fn arrow_keys_select_the_way_they_point(
    picker: OmaBeam,
    dx: i32,
    dy: i32,
    after: OmaBeam,
    shown: Option<usize>,
)
    requires
        picker.page == Page::Tiles,
        picker.moves(dx, dy, after, shown),
        after != picker,
        hypr::tiles(picker.clients(), picker.workspace_id).len() <= usize::MAX,
    ensures
        ({
            let list = hypr::tiles(picker.clients(), picker.workspace_id);
            let map = picker.tile_map();
            let current = standing(picker.clients(), list, text::text_of(picker.selected_window));
            0 <= current < map.len() ==> exists|i: int|
                0 <= i < map.len() && i < list.len() && text::text_of(after.selected_window) == Some(
                    picker.clients()[list[i] as int].address@,
                ) && ({
                    let from = map[current].rect.middle();
                    let to = (#[trigger] map[i]).rect.middle();
                    &&& dx > 0 ==> from.0.below(to.0)
                    &&& dx < 0 ==> to.0.below(from.0)
                    &&& dy > 0 ==> from.1.below(to.1)
                    &&& dy < 0 ==> to.1.below(from.1)
                })
        }),
{
    let list = hypr::tiles(picker.clients(), picker.workspace_id);
    let map = picker.tile_map();
    let current = standing(picker.clients(), list, text::text_of(picker.selected_window));
    let i = choose|i: int| #[trigger]
        layout::nearest(current as usize, map, dx, dy, i) && selects_window(
            picker,
            picker.clients()[list[i] as int].address@,
            after,
        );
    if 0 <= current < map.len() {
        let monitor = picker.shown_monitor()->0;
        let refs = tiled(picker.clients(), list);
        layout::the_map_holds_every_window(monitor, refs);
        let hull = layout::hull(monitor, refs);
        assert(hull.holds(refs[current].frame()) && hull.holds(refs[i].frame()));
        layout::lemma_placed_middle(refs[current].frame(), hull);
        layout::lemma_placed_middle(refs[i].frame(), hull);
        assert(current as usize as int == current);
        layout::arrows_go_their_way(current as usize, map, dx, dy, i);
        assert(map[i].rect == layout::placed(refs[i].frame(), hull));
    }
}

/// The map shows the monitor that its windows are on, where the session knows
/// it.
pub proof fn the_map_shows_the_monitor_of_its_windows(picker: OmaBeam, k: int)
    requires
        picker.snapshot is Some,
        ({
            let list = hypr::tiles(picker.clients(), picker.workspace_id);
            &&& list.len() > 0
            &&& 0 <= k < picker.monitors().len()
            &&& picker.monitors()[k].id == picker.clients()[list[0] as int].monitor
        }),
    ensures
        ({
            let list = hypr::tiles(picker.clients(), picker.workspace_id);
            picker.shown_monitor() matches Some(monitor) && monitor.id
                == picker.clients()[list[0] as int].monitor
        }),
{
    let list = hypr::tiles(picker.clients(), picker.workspace_id);
    hypr::lemma_index_by_id(picker.monitors(), picker.clients()[list[0] as int].monitor, k);
}

} // verus!
