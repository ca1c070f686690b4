//! The compositor's records as they arrive, with what they leave out filled in.

use vstd::prelude::*;

use crate::hypr;
use crate::hypr::Client;
use crate::hypr::Key;
use crate::hypr::Monitor;
use crate::hypr::Workspace;
use crate::single::Single;

verus! {

/// A workspace as it is reported.
#[derive(Debug, Clone)]
pub struct RawWorkspace {
    pub id: i32,
    pub name: String,
}

/// A window as it is reported.
#[derive(Debug, Clone)]
pub struct RawClient {
    pub address: String,
    pub class: Option<String>,
    pub title: Option<String>,
    pub workspace: RawWorkspace,
    pub monitor: i64,
    pub floating: bool,
    pub mapped: Option<bool>,
    pub hidden: Option<bool>,
    pub at: [i32; 2],
    pub size: [i32; 2],
    pub focus_history_id: i64,
    pub stable_id: String,
}

/// A monitor as it is reported. A refresh rate that is not positive is none.
#[derive(Debug, Clone)]
pub struct RawMonitor {
    pub id: i64,
    pub name: String,
    pub description: Option<String>,
    pub width: u32,
    pub height: u32,
    pub x: i32,
    pub y: i32,
    pub scale: Single,
    pub refresh_rate: Option<Single>,
    pub transform: u32,
    pub focused: bool,
    pub reserved: Option<[i32; 4]>,
    pub active_workspace: RawWorkspace,
    pub special_workspace: Option<RawWorkspace>,
}

/// The text, or none of it.
pub open spec fn text_or_empty(s: Option<String>) -> Seq<char> {
    match s {
        Some(s) => s@,
        None => Seq::empty(),
    }
}

fn or_empty(s: &Option<String>) -> (r: String)
    ensures
        r@ == text_or_empty(*s),
{
    match s {
        Some(s) => s.clone(),
        None => String::new(),
    }
}

pub open spec fn same_workspace(raw: RawWorkspace, workspace: Workspace) -> bool {
    workspace.id == raw.id && workspace.name@ == raw.name@
}

fn workspace(raw: &RawWorkspace) -> (r: Workspace)
    ensures
        same_workspace(*raw, r),
{
    Workspace { id: raw.id, name: raw.name.clone() }
}

/// The window is the reported one. It is mapped and not hidden unless the
/// report says otherwise, and the portal does not know it yet.
pub open spec fn same_client(raw: RawClient, client: Client) -> bool {
    &&& client.address@ == raw.address@
    &&& client.class@ == text_or_empty(raw.class)
    &&& client.title@ == text_or_empty(raw.title)
    &&& same_workspace(raw.workspace, client.workspace)
    &&& client.monitor == raw.monitor
    &&& client.floating == raw.floating
    &&& client.mapped == (raw.mapped != Some(false))
    &&& client.hidden == (raw.hidden == Some(true))
    &&& client.at == raw.at
    &&& client.size == raw.size
    &&& client.focus_history_id == raw.focus_history_id
    &&& client.portal_id is None
    &&& client.stable_id@ == raw.stable_id@
}

pub fn parse_clients(raw: &Vec<RawClient>) -> (r: Vec<Client>)
    ensures
        r@.len() == raw@.len(),
        forall|i: int| 0 <= i < raw@.len() ==> same_client(raw@[i], #[trigger] r@[i]),
{
    let mut list: Vec<Client> = Vec::new();
    let mut i: usize = 0;
    while i < raw.len()
        invariant
            i <= raw@.len(),
            list@.len() == i,
            forall|k: int| 0 <= k < i ==> same_client(raw@[k], #[trigger] list@[k]),
        decreases raw@.len() - i,
    {
        let one = &raw[i];
        let mapped = match one.mapped {
            Some(mapped) => mapped,
            None => true,
        };
        let hidden = match one.hidden {
            Some(hidden) => hidden,
            None => false,
        };
        list.push(
            Client {
                address: one.address.clone(),
                class: or_empty(&one.class),
                title: or_empty(&one.title),
                workspace: workspace(&one.workspace),
                monitor: one.monitor,
                floating: one.floating,
                mapped,
                hidden,
                at: one.at,
                size: one.size,
                focus_history_id: one.focus_history_id,
                portal_id: None,
                stable_id: one.stable_id.clone(),
            },
        );
        i = i + 1;
    }
    list
}

/// The bits of sixty.
pub const SIXTY: u32 = 0x4270_0000;

/// The refresh rate: sixty where none is reported.
pub open spec fn rate(reported: Option<Single>) -> Single {
    match reported {
        Some(rate) => if (Single { bits: 0 }).below(rate) {
            rate
        } else {
            Single { bits: SIXTY }
        },
        None => Single { bits: SIXTY },
    }
}

fn rate_of(reported: Option<Single>) -> (r: Single)
    ensures
        r == rate(reported),
{
    match reported {
        Some(rate) => {
            let zero = Single { bits: 0 };
            if zero.less(rate) {
                rate
            } else {
                Single { bits: SIXTY }
            }
        },
        None => Single { bits: SIXTY },
    }
}

/// The monitor is the reported one. Without a report nothing is reserved and
/// no special workspace is shown.
pub open spec fn same_monitor(raw: RawMonitor, monitor: Monitor) -> bool {
    &&& monitor.id == raw.id
    &&& monitor.name@ == raw.name@
    &&& monitor.description@ == text_or_empty(raw.description)
    &&& monitor.width == raw.width
    &&& monitor.height == raw.height
    &&& monitor.x == raw.x
    &&& monitor.y == raw.y
    &&& monitor.scale == raw.scale
    &&& monitor.refresh_rate == rate(raw.refresh_rate)
    &&& monitor.transform == raw.transform
    &&& monitor.focused == raw.focused
    &&& match raw.reserved {
        Some(reserved) => monitor.reserved == reserved,
        None => monitor.reserved@ == seq![0i32, 0, 0, 0],
    }
    &&& same_workspace(raw.active_workspace, monitor.active_workspace)
    &&& match raw.special_workspace {
        Some(special) => same_workspace(special, monitor.special_workspace),
        None => monitor.special_workspace.id == 0 && monitor.special_workspace.name@.len() == 0,
    }
}

pub fn parse_monitors(raw: &Vec<RawMonitor>) -> (r: Vec<Monitor>)
    ensures
        r@.len() == raw@.len(),
        forall|i: int| 0 <= i < raw@.len() ==> same_monitor(raw@[i], #[trigger] r@[i]),
{
    let mut list: Vec<Monitor> = Vec::new();
    let mut i: usize = 0;
    while i < raw.len()
        invariant
            i <= raw@.len(),
            list@.len() == i,
            forall|k: int| 0 <= k < i ==> same_monitor(raw@[k], #[trigger] list@[k]),
        decreases raw@.len() - i,
    {
        let one = &raw[i];
        let reserved = match one.reserved {
            Some(reserved) => reserved,
            None => [0, 0, 0, 0],
        };
        let special_workspace = match &one.special_workspace {
            Some(special) => workspace(special),
            None => Workspace { id: 0, name: String::new() },
        };
        let monitor = Monitor {
            id: one.id,
            name: one.name.clone(),
            description: or_empty(&one.description),
            width: one.width,
            height: one.height,
            x: one.x,
            y: one.y,
            scale: one.scale,
            refresh_rate: rate_of(one.refresh_rate),
            transform: one.transform,
            focused: one.focused,
            reserved,
            active_workspace: workspace(&one.active_workspace),
            special_workspace,
        };
        assert(same_monitor(raw@[i as int], monitor));
        list.push(monitor);
        i = i + 1;
    }
    list
}

/// What workspaces are ordered by.
pub open spec fn is_workspace_key(key: Key, raw: RawWorkspace) -> bool {
    key.a == raw.id && key.b == 0 && key.c == 0 && key.name@.len() == 0
}

/// `list` holds the positions of all workspaces, by their numbers; equal
/// numbers keep their order.
pub open spec fn workspace_order(list: Seq<usize>, raw: Seq<RawWorkspace>) -> bool {
    exists|keys: Seq<Key>, chosen: Seq<bool>| #[trigger]
        hypr::ordered_by(list, keys, chosen) && keys.len() == raw.len() && chosen.len() == raw.len()
            && forall|i: int|
            0 <= i < raw.len() ==> is_workspace_key(keys[i], #[trigger] raw[i]) && chosen[i]
}

/// The workspaces are the reported ones in the order of `list`.
pub open spec fn in_that_order(
    r: Seq<Workspace>,
    raw: Seq<RawWorkspace>,
    list: Seq<usize>,
) -> bool {
    r.len() == list.len() && forall|i: int|
        0 <= i < r.len() ==> same_workspace(raw[list[i] as int], #[trigger] r[i])
}

/// The workspaces, ordered by their numbers.
pub fn parse_workspaces(raw: &Vec<RawWorkspace>) -> (r: Vec<Workspace>)
    ensures
        exists|list: Seq<usize>| #[trigger]
            workspace_order(list, raw@) && in_that_order(r@, raw@, list),
{
    let mut keys: Vec<Key> = Vec::new();
    let mut chosen: Vec<bool> = Vec::new();
    let mut i: usize = 0;
    while i < raw.len()
        invariant
            i <= raw@.len(),
            keys@.len() == i,
            chosen@.len() == i,
            forall|k: int|
                0 <= k < i ==> is_workspace_key(keys@[k], #[trigger] raw@[k]) && chosen@[k],
        decreases raw@.len() - i,
    {
        keys.push(Key { a: raw[i].id as i64, b: 0, c: 0, name: String::new() });
        chosen.push(true);
        i = i + 1;
    }
    let list = hypr::order(&keys, &chosen);
    assert(hypr::ordered_by(list@, keys@, chosen@));
    assert(workspace_order(list@, raw@));
    let mut found: Vec<Workspace> = Vec::new();
    let mut k: usize = 0;
    while k < list.len()
        invariant
            k <= list@.len(),
            keys@.len() == raw@.len(),
            hypr::ordered_by(list@, keys@, chosen@),
            found@.len() == k,
            forall|j: int|
                0 <= j < k ==> same_workspace(raw@[list@[j] as int], #[trigger] found@[j]),
        decreases list@.len() - k,
    {
        found.push(workspace(&raw[list[k]]));
        k = k + 1;
    }
    found
}

/// The active workspace as it is reported.
pub fn parse_active_workspace(raw: &RawWorkspace) -> (r: Workspace)
    ensures
        same_workspace(*raw, r),
{
    workspace(raw)
}

/// A reported window lies where it is reported, with its size where that is at
/// least a pixel; it counts as mapped and not hidden where nothing is said.
pub proof fn windows_lie_where_they_are_reported(raw: RawClient, client: Client)
    requires
        same_client(raw, client),
    ensures
        client.frame().x == raw.at[0],
        client.frame().y == raw.at[1],
        raw.size[0] >= 1 ==> client.frame().w == raw.size[0],
        raw.size[1] >= 1 ==> client.frame().h == raw.size[1],
        raw.mapped is None && raw.hidden is None ==> client.visible() == !client.own(),
        raw.hidden == Some(true) || raw.mapped == Some(false) ==> !client.visible(),
{
}

/// A reported monitor covers its mode at its place; its refresh rate is a
/// positive number, the reported one where that is.
pub proof fn monitors_lie_where_they_are_reported(raw: RawMonitor, monitor: Monitor)
    requires
        same_monitor(raw, monitor),
    ensures
        monitor.area().x == raw.x,
        monitor.area().y == raw.y,
        (Single { bits: 0 }).below(monitor.refresh_rate),
        raw.refresh_rate matches Some(rate) && (Single { bits: 0 }).below(rate)
            ==> Some(monitor.refresh_rate) == raw.refresh_rate,
        raw.scale == (Single { bits: crate::single::ONE }) && raw.transform % 2 == 0 && 1
            <= raw.width <= 0x100_0000 && 1 <= raw.height <= 0x100_0000 ==> monitor.area().w
            == raw.width && monitor.area().h == raw.height,
{
    if raw.scale == (Single { bits: crate::single::ONE }) && 1 <= raw.width <= 0x100_0000 && 1
        <= raw.height <= 0x100_0000 {
        hypr::a_monitor_covers_its_mode(monitor);
    }
}

/// Workspaces are listed by their numbers, and none is left out.
pub proof fn workspaces_are_listed_by_number(
    r: Seq<Workspace>,
    raw: Seq<RawWorkspace>,
    list: Seq<usize>,
    i: int,
    j: int,
    k: int,
)
    requires
        workspace_order(list, raw),
        in_that_order(r, raw, list),
        0 <= i < j < r.len(),
        0 <= k < raw.len(),
    ensures
        r[i].id <= r[j].id,
        exists|n: int| 0 <= n < r.len() && (#[trigger] r[n]).id == raw[k].id && r[n].name@
            == raw[k].name@,
{
    let (keys, chosen) = choose|keys: Seq<Key>, chosen: Seq<bool>| #[trigger]
        hypr::ordered_by(list, keys, chosen) && keys.len() == raw.len() && chosen.len() == raw.len()
            && forall|i: int|
            0 <= i < raw.len() ==> is_workspace_key(keys[i], #[trigger] raw[i]) && chosen[i];
    let (p, q) = (list[i] as int, list[j] as int);
    assert(hypr::listed_before(keys, p, q));
    assert(is_workspace_key(keys[p], raw[p]) && is_workspace_key(keys[q], raw[q]));
    assert(same_workspace(raw[p], r[i]) && same_workspace(raw[q], r[j]));
    assert(is_workspace_key(keys[k], raw[k]) && chosen[k]);
    let n = choose|n: int| 0 <= n < list.len() && (#[trigger] list[n]) == k;
    assert(same_workspace(raw[list[n] as int], r[n]));
}

} // verus!
