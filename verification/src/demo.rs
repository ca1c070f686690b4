//! A made-up session, to look at the picker where there is none. Nothing can be
//! captured, copied, saved or shared from it.

use vstd::prelude::*;

use crate::hypr::Client;
use crate::hypr::Monitor;
use crate::hypr::Snapshot;
use crate::hypr::Workspace;
use crate::records;
use crate::single;
use crate::single::Single;

verus! {

fn workspace() -> (r: Workspace)
    ensures
        r.id == 2,
        r.name@ == "2"@,
{
    Workspace { id: 2, name: "2".to_owned() }
}

/// A made-up window.
pub open spec fn is_window(
    client: Client,
    name: Seq<char>,
    class: Seq<char>,
    title: Seq<char>,
    at: Seq<i32>,
    size: Seq<i32>,
    order: int,
) -> bool {
    &&& client.address@ == name
    &&& client.stable_id@ == name
    &&& client.class@ == class
    &&& client.title@ == title
    &&& client.at@ == at
    &&& client.size@ == size
    &&& client.focus_history_id == order
    &&& client.workspace.id == 2
    &&& client.workspace.name@ == "2"@
    &&& client.monitor == 0
    &&& !client.floating
    &&& client.mapped
    &&& !client.hidden
    &&& client.portal_id is None
}

fn window(name: &str, class: &str, title: &str, at: [i32; 2], size: [i32; 2], order: i64) -> (r:
    Client)
    ensures
        is_window(r, name@, class@, title@, at@, size@, order as int),
{
    Client {
        address: name.to_owned(),
        class: class.to_owned(),
        title: title.to_owned(),
        workspace: workspace(),
        monitor: 0,
        floating: false,
        mapped: true,
        hidden: false,
        at,
        size,
        focus_history_id: order,
        portal_id: None,
        stable_id: name.to_owned(),
    }
}

/// The made-up session: three windows on one workspace of one monitor.
pub fn snapshot() -> (r: Snapshot)
    ensures
        r.clients@.len() == 3,
        is_window(
            r.clients@[0],
            "demo-0"@,
            "Editor"@,
            "Source preview"@,
            seq![0i32, 0],
            seq![1280i32, 1440],
            0,
        ),
        is_window(
            r.clients@[1],
            "demo-1"@,
            "Browser"@,
            "Capture documentation"@,
            seq![1280i32, 0],
            seq![1280i32, 720],
            1,
        ),
        is_window(
            r.clients@[2],
            "demo-2"@,
            "Terminal"@,
            "cargo test"@,
            seq![1280i32, 720],
            seq![1280i32, 720],
            2,
        ),
        r.monitors@.len() == 1,
        r.monitors@[0].id == 0,
        r.monitors@[0].name@ == "DEMO-1"@,
        r.monitors@[0].description@ == "Example display"@,
        r.monitors@[0].width == 2560,
        r.monitors@[0].height == 1440,
        r.monitors@[0].x == 0,
        r.monitors@[0].y == 0,
        r.monitors@[0].scale.bits == single::ONE,
        r.monitors@[0].refresh_rate.bits == records::SIXTY,
        r.monitors@[0].transform == 0,
        r.monitors@[0].focused,
        r.monitors@[0].reserved@ == seq![0i32, 0, 0, 0],
        r.monitors@[0].active_workspace.id == 2,
        r.monitors@[0].active_workspace.name@ == "2"@,
        r.monitors@[0].special_workspace.id == 0,
        r.monitors@[0].special_workspace.name@.len() == 0,
        r.workspaces@.len() == 1,
        r.workspaces@[0].id == 2,
        r.workspaces@[0].name@ == "2"@,
        r.active_workspace.id == 2,
        r.active_workspace.name@ == "2"@,
{
    let mut clients: Vec<Client> = Vec::new();
    clients.push(window("demo-0", "Editor", "Source preview", [0, 0], [1280, 1440], 0));
    clients.push(
        window("demo-1", "Browser", "Capture documentation", [1280, 0], [1280, 720], 1),
    );
    clients.push(window("demo-2", "Terminal", "cargo test", [1280, 720], [1280, 720], 2));
    assert(clients@[0].at@ =~= seq![0i32, 0]);
    assert(clients@[0].size@ =~= seq![1280i32, 1440]);
    assert(clients@[1].at@ =~= seq![1280i32, 0]);
    assert(clients@[1].size@ =~= seq![1280i32, 720]);
    assert(clients@[2].at@ =~= seq![1280i32, 720]);
    assert(clients@[2].size@ =~= seq![1280i32, 720]);
    let monitor = Monitor {
        id: 0,
        name: "DEMO-1".to_owned(),
        description: "Example display".to_owned(),
        width: 2560,
        height: 1440,
        x: 0,
        y: 0,
        scale: Single { bits: single::ONE },
        refresh_rate: Single { bits: records::SIXTY },
        transform: 0,
        focused: true,
        reserved: [0, 0, 0, 0],
        active_workspace: workspace(),
        special_workspace: Workspace { id: 0, name: String::new() },
    };
    let mut monitors: Vec<Monitor> = Vec::new();
    monitors.push(monitor);
    let mut workspaces: Vec<Workspace> = Vec::new();
    workspaces.push(workspace());
    Snapshot { clients, monitors, workspaces, active_workspace: workspace() }
}

} // verus!
