use omabeam::demo;
use omabeam::dispatch::{
    activate_existing_picker, address_selector, clear_screen_mask_lua, current_regular_workspace,
    dispatch_lua, hide_overlay, hide_picker, hide_picker_lua, lua_quote, lua_window_selector,
    omabeam_overlay_visible, pass_focus_on, picker_selector, query, query_reply,
    release_live_focus, restore_picker, show_picker, Activation,
};
use omabeam::hypr::{Client, Monitor, Rect, Snapshot, Workspace};
use omabeam::layout::{nearest_in_direction, tiles_for, RelativeRect, Tile};
use omabeam::single::Single;
use omabeam::portal::{match_portal_id, parse_address, retain_selected_window, PortalWindow};
use omabeam::records::{
    parse_clients, parse_monitors, parse_workspaces, RawClient, RawMonitor, RawWorkspace,
};
use serde_json::Value;

fn text(value: &Value) -> String {
    value.as_str().unwrap_or_default().into()
}

fn pair(value: &Value) -> [i32; 2] {
    [value[0].as_i64().unwrap() as i32, value[1].as_i64().unwrap() as i32]
}

fn raw_workspace(value: &Value) -> RawWorkspace {
    RawWorkspace {
        id: value["id"].as_i64().unwrap() as i32,
        name: text(&value["name"]),
    }
}

fn clients(json: &str) -> Vec<Client> {
    let list: Value = serde_json::from_str(json).unwrap();
    let raw: Vec<RawClient> = list
        .as_array()
        .unwrap()
        .iter()
        .map(|c| RawClient {
            address: text(&c["address"]),
            class: c["class"].as_str().map(String::from),
            title: c["title"].as_str().map(String::from),
            workspace: raw_workspace(&c["workspace"]),
            monitor: c["monitor"].as_i64().unwrap(),
            floating: c["floating"].as_bool().unwrap(),
            mapped: c["mapped"].as_bool(),
            hidden: c["hidden"].as_bool(),
            at: pair(&c["at"]),
            size: pair(&c["size"]),
            focus_history_id: c["focusHistoryID"].as_i64().unwrap(),
            stable_id: text(&c["stableId"]),
        })
        .collect();
    parse_clients(&raw)
}

fn single(value: f32) -> Single {
    Single {
        bits: value.to_bits(),
    }
}

fn monitors(json: &str) -> Vec<Monitor> {
    let list: Value = serde_json::from_str(json).unwrap();
    let raw: Vec<RawMonitor> = list
        .as_array()
        .unwrap()
        .iter()
        .map(|m| RawMonitor {
            id: m["id"].as_i64().unwrap(),
            name: text(&m["name"]),
            description: m["description"].as_str().map(String::from),
            width: m["width"].as_u64().unwrap() as u32,
            height: m["height"].as_u64().unwrap() as u32,
            x: m["x"].as_i64().unwrap() as i32,
            y: m["y"].as_i64().unwrap() as i32,
            scale: single(m["scale"].as_f64().unwrap() as f32),
            refresh_rate: m["refreshRate"]
                .as_f64()
                .map(|rate| single(rate as f32)),
            transform: m["transform"].as_u64().unwrap_or(0) as u32,
            focused: m["focused"].as_bool().unwrap(),
            reserved: m["reserved"].as_array().map(|sides| {
                let side = |i: usize| sides[i].as_i64().unwrap() as i32;
                [side(0), side(1), side(2), side(3)]
            }),
            active_workspace: raw_workspace(&m["activeWorkspace"]),
            special_workspace: m
                .get("specialWorkspace")
                .map(|workspace| raw_workspace(workspace)),
        })
        .collect();
    parse_monitors(&raw)
}

fn test_client() -> Client {
    clients(r#"[{"address":"0x1","mapped":true,"hidden":false,"at":[0,0],"size":[100,100],"workspace":{"id":1,"name":"1"},"monitor":0,"class":"foot","title":"term","stableId":"window-1","floating":false,"focusHistoryID":0}]"#).remove(0)
}

#[test]
fn portal_matching_rejects_ambiguous_or_conflicting_identities() {
    let client = test_client();
    let one = PortalWindow {
        id: 1,
        class: "foot".into(),
        title: "term".into(),
        address: None,
    };
    let mut two = one.clone();
    two.id = 2;
    assert_eq!(match_portal_id(&client, &[one.clone()]), Some(1));
    assert_eq!(match_portal_id(&client, &[one.clone(), two.clone()]), None);
    two.address = Some(2);
    assert_eq!(match_portal_id(&client, &[two.clone()]), None);
    two.address = Some(1);
    assert_eq!(match_portal_id(&client, &[one.clone(), two]), Some(2));
    let mut fuzzy = one.clone();
    fuzzy.title = "term — editor".into();
    let mut other = fuzzy.clone();
    other.id = 3;
    assert_eq!(match_portal_id(&client, &[fuzzy.clone(), other]), None);
    assert_eq!(match_portal_id(&client, &[one, fuzzy]), Some(1));
}

#[test]
fn refreshing_selection_tracks_moves_and_clears_closed_or_replaced_windows() {
    let old = test_client();
    let mut snapshot = Snapshot {
        clients: vec![old.clone()],
        monitors: vec![],
        workspaces: vec![],
        active_workspace: old.workspace.clone(),
    };
    snapshot.clients[0].at = [300, 200];
    snapshot.clients[0].size = [200, 150];
    assert_eq!(
        retain_selected_window(Some(&old), &snapshot),
        Some(old.address.clone())
    );
    snapshot.clients[0].stable_id = "replacement".into();
    assert_eq!(retain_selected_window(Some(&old), &snapshot), None);
    snapshot.clients.clear();
    assert_eq!(retain_selected_window(Some(&old), &snapshot), None);
    assert_eq!(retain_selected_window(None, &snapshot), None);
}

#[test]
fn parses_client_snapshot() {
    let json = r#"[{
        "address": "0x55a8474cd360",
        "mapped": true,
        "hidden": false,
        "at": [12, 38],
        "size": [749, 814],
        "workspace": {"id": 1, "name": "1"},
        "floating": false,
        "monitor": 0,
        "class": "foot",
        "title": "term",
        "focusHistoryID": 1
    }]"#;
    let clients = clients(json);
    assert_eq!(clients[0].class, "foot");
    assert_eq!(
        clients[0].rect(),
        Rect {
            x: 12,
            y: 38,
            w: 749,
            h: 814
        }
    );
}

#[test]
fn parses_scaled_monitor_canvas() {
    let json = r#"[{
        "id": 0,
        "name": "HDMI-A-1",
        "description": "ASUS",
        "width": 1920,
        "height": 1080,
        "x": 0,
        "y": 0,
        "scale": 1.25,
        "focused": true,
        "reserved": [0, 26, 0, 0],
        "activeWorkspace": {"id": 1, "name": "1"}
    }]"#;
    let monitors = monitors(json);
    let canvas = monitors[0].canvas();
    assert_eq!(canvas.w, 1536);
    assert_eq!(canvas.h, 864);
    assert_eq!(
        monitors[0].usable_size(),
        (single(1536.0), single(838.0))
    );
    assert_eq!(monitors[0].special_workspace.name, "");
}

#[test]
fn parses_special_workspace_overlay() {
    let json = r#"[{
        "id": 0,
        "name": "HDMI-A-1",
        "description": "ASUS",
        "width": 1920,
        "height": 1080,
        "x": 0,
        "y": 0,
        "scale": 1.25,
        "focused": true,
        "reserved": [0, 26, 0, 0],
        "activeWorkspace": {"id": 1, "name": "1"},
        "specialWorkspace": {"id": -98, "name": "special:omabeam"}
    }]"#;
    let monitors = monitors(json);
    assert_eq!(monitors[0].special_workspace.name, "special:omabeam");
    assert!(monitors[0].special_workspace.id < 0);
    let snapshot = Snapshot {
        clients: Vec::new(),
        monitors,
        workspaces: Vec::new(),
        active_workspace: Workspace {
            id: 1,
            name: "1".into(),
        },
    };
    assert!(omabeam_overlay_visible(&snapshot));
}

#[test]
fn hide_picker_lua_stays_off_the_output() {
    let expr = hide_picker_lua("class:omabeam").unwrap();
    assert!(expr.contains("follow = false"), "{expr}");
    assert!(expr.contains(r#"workspace = "special:omabeam""#), "{expr}");
    assert!(!expr.contains("follow = true"), "{expr}");
    assert!(hide_picker_lua(r#"address:0xabc"; os.execute(1)"#).is_none());
    assert_eq!(
        lua_window_selector("address:0xabc"),
        Some(r#""address:0xabc""#.into())
    );
    assert_eq!(lua_quote(r#"1"; evil"#).as_deref(), Some(r#""1\"; evil""#));
}

#[test]
fn parses_hex_and_decimal_addresses() {
    assert_eq!(parse_address("0x55a8474cd360"), Some(0x55a8474cd360));
    assert_eq!(parse_address("0"), None);
    assert_eq!(parse_address("42"), Some(42));
}

#[test]
fn addresses_that_are_no_numbers_are_none() {
    assert_eq!(parse_address(""), None);
    assert_eq!(parse_address("0x"), None);
    assert_eq!(parse_address("0xzz"), None);
    assert_eq!(parse_address("-1"), None);
    assert_eq!(parse_address("0xffffffffffffffff"), Some(u64::MAX));
    assert_eq!(parse_address("18446744073709551616"), None);
}

fn client(x: i32, y: i32, w: i32, h: i32) -> Client {
    Client {
        address: "0x1".into(),
        class: "foot".into(),
        title: "term".into(),
        workspace: Workspace {
            id: 1,
            name: "1".into(),
        },
        monitor: 0,
        floating: false,
        mapped: true,
        hidden: false,
        at: [x, y],
        size: [w, h],
        focus_history_id: 0,
        portal_id: None,
        stable_id: String::new(),
    }
}

fn monitor() -> Monitor {
    Monitor {
        transform: 0,
        id: 0,
        name: "HDMI-A-1".into(),
        description: String::new(),
        width: 1920,
        height: 1080,
        x: 0,
        y: 0,
        scale: single(1.25),
        refresh_rate: single(60.),
        focused: true,
        reserved: [0, 26, 0, 0],
        active_workspace: Workspace {
            id: 1,
            name: "1".into(),
        },
        special_workspace: Workspace {
            id: 0,
            name: String::new(),
        },
    }
}

fn part(value: Single) -> f32 {
    f32::from_bits(value.bits)
}

#[test]
fn maps_side_by_side_tiles() {
    let left = client(12, 38, 749, 814);
    let right = client(775, 38, 749, 814);
    let refs = vec![&left, &right];
    let tiles = tiles_for(&refs, &monitor());
    assert_eq!(tiles.len(), 2);
    assert!(part(tiles[0].rect.x) < part(tiles[1].rect.x));
    assert!(part(tiles[0].rect.w) > 0.3);
    assert!(part(tiles[1].rect.x) > 0.4);
    for tile in &tiles {
        assert!(part(tile.rect.x) + part(tile.rect.w) <= 1.001);
        assert!(part(tile.rect.y) + part(tile.rect.h) <= 1.001);
    }
}

#[test]
fn clamps_overflowing_windows_inside_the_map() {
    let huge = client(1400, 800, 800, 400);
    let refs = vec![&huge];
    let tiles = tiles_for(&refs, &monitor());
    let rect = &tiles[0].rect;
    assert!(part(rect.x) >= 0.0 && part(rect.y) >= 0.0);
    assert!(part(rect.x) + part(rect.w) <= 1.001);
    assert!(part(rect.y) + part(rect.h) <= 1.001);
}

#[test]
fn finds_right_neighbor() {
    let tiles = vec![
        Tile {
            index: 0,
            rect: RelativeRect {
                x: single(0.0),
                y: single(0.0),
                w: single(0.5),
                h: single(1.0),
            },
        },
        Tile {
            index: 1,
            rect: RelativeRect {
                x: single(0.5),
                y: single(0.0),
                w: single(0.5),
                h: single(1.0),
            },
        },
    ];
    assert_eq!(nearest_in_direction(0, &tiles, 1, 0), Some(1));
    assert_eq!(nearest_in_direction(1, &tiles, -1, 0), Some(0));
    assert_eq!(nearest_in_direction(0, &tiles, 0, 1), None);
}

#[test]
fn a_tile_has_its_exact_share_of_the_map() {
    let quarter = client(0, 0, 768, 432);
    let tiles = tiles_for(&[&quarter], &monitor());
    assert_eq!(
        tiles[0].rect,
        RelativeRect {
            x: single(0.0),
            y: single(0.0),
            w: single(0.5),
            h: single(0.5)
        }
    );
}

#[test]
fn tiles_are_ordered_by_column_and_windows_by_focus() {
    let mut right = client(775, 38, 749, 814);
    right.address = "0x2".into();
    right.focus_history_id = 0;
    let mut left = client(12, 38, 749, 814);
    left.focus_history_id = 1;
    let mut picker = client(0, 0, 10, 10);
    picker.class = "omabeam".into();
    let snapshot = Snapshot {
        clients: vec![right, left, picker],
        monitors: vec![monitor()],
        workspaces: vec![],
        active_workspace: Workspace {
            id: 1,
            name: "1".into(),
        },
    };
    assert_eq!(snapshot.tiles_on(1), [1, 0]);
    assert!(snapshot.tiles_on(2).is_empty());
    assert!(!snapshot.listed_windows().contains(&2));
    assert_eq!(snapshot.monitor_by_id(0).unwrap().name, "HDMI-A-1");
    assert!(snapshot.monitor_by_name("DP-9").is_none());
    assert_eq!(snapshot.focused_monitor().unwrap().id, 0);
}

#[test]
fn portal_windows_get_their_numbers() {
    let mut snapshot = Snapshot {
        clients: vec![test_client()],
        monitors: vec![],
        workspaces: parse_workspaces(&vec![RawWorkspace {
            id: 3,
            name: "three".into(),
        }]),
        active_workspace: Workspace {
            id: 1,
            name: "1".into(),
        },
    };
    assert_eq!(snapshot.workspaces[0].name, "three");
    snapshot.with_portal_windows(&[PortalWindow {
        id: 9,
        class: "foot".into(),
        title: "term".into(),
        address: Some(1),
    }]);
    assert_eq!(snapshot.clients[0].portal_id, Some(9));
}

#[test]
fn only_known_queries_are_passed_on_and_their_replies_are_json() {
    assert_eq!(query("clients").unwrap(), "j/clients");
    assert!(query("clients; reload").is_err());
    let reply = query_reply("clients", "[{\"class\":\"foot\"}]".into());
    assert_eq!(reply.unwrap(), "[{\"class\":\"foot\"}]");
    let error = query_reply("clients", "not json".into()).unwrap_err();
    assert!(error.message().contains("clients"), "{}", error.message());
}

#[test]
fn quoted_text_cannot_end_its_quotes() {
    assert_eq!(lua_quote("a\\b").as_deref(), Some("\"a\\\\b\""));
    assert_eq!(lua_quote("two\nlines"), None);
    assert!(clear_screen_mask_lua("address:0xabc").is_some());
    assert!(clear_screen_mask_lua("address:0xabc\"").is_none());
    assert!(dispatch_lua("hl.x()").contains("hl.x()"));
}

#[test]
fn the_demonstration_has_no_picker_to_activate() {
    let snapshot = demo::snapshot();
    assert_eq!(
        activate_existing_picker(Some(&snapshot), false),
        Activation::Absent
    );
    assert_eq!(activate_existing_picker(None, true), Activation::Absent);
    assert_eq!(hide_overlay(Some(&snapshot)), None);
    assert_eq!(picker_selector(Some(&snapshot)), picker_selector(None));
}

fn with_picker(special: &str) -> Snapshot {
    let mut picker = client(0, 0, 10, 10);
    picker.class = "omabeam".into();
    picker.address = "0xabc".into();
    if !special.is_empty() {
        picker.workspace = Workspace {
            id: -98,
            name: special.into(),
        };
    }
    Snapshot {
        clients: vec![picker],
        monitors: vec![monitor()],
        workspaces: vec![],
        active_workspace: Workspace {
            id: 1,
            name: "1".into(),
        },
    }
}

#[test]
fn an_open_picker_is_hidden_restored_or_focused() {
    let shown = with_picker("");
    let hidden = with_picker("special:omabeam");
    assert_eq!(
        address_selector(&shown.clients[0]).as_deref(),
        Some("address:0xabc")
    );
    assert!(picker_selector(Some(&shown)).contains("0xabc"));
    assert!(hide_picker(Some(&shown))
        .iter()
        .any(|c| c.contains("special:omabeam")));
    assert!(!restore_picker(Some(&hidden)).is_empty());
    assert_eq!(current_regular_workspace(Some(&hidden)), "1");
    assert!(show_picker(Some(&hidden), Some(&hidden))
        .unwrap()
        .contains("0xabc"));
    assert_eq!(
        activate_existing_picker(Some(&shown), true),
        Activation::Hide
    );
    assert!(matches!(
        activate_existing_picker(Some(&hidden), false),
        Activation::Restore(_)
    ));
    assert!(matches!(
        activate_existing_picker(Some(&shown), false),
        Activation::Focus(_)
    ));
}

#[test]
fn focus_is_passed_on_unless_another_window_has_it() {
    assert!(pass_focus_on(Some("omabeam".into())).is_some());
    assert_eq!(pass_focus_on(Some("foot".into())), None);
    assert!(pass_focus_on(Some(String::new())).is_some());
    assert!(pass_focus_on(None).is_some());
    assert!(release_live_focus(Some(r#"{"class":"omabeam"}"#)).is_some());
    assert_eq!(release_live_focus(Some(r#"{"class":"foot"}"#)), None);
    assert!(release_live_focus(Some("not json")).is_some());
    assert!(release_live_focus(None).is_some());
}

#[test]
fn tiles_keep_a_share_at_the_edge_of_the_map() {
    let narrow = client(1535, 0, 1, 864);
    let tiles = tiles_for(&[&narrow], &monitor());
    assert_eq!(part(tiles[0].rect.x), 0.98);
    assert_eq!(part(tiles[0].rect.w), 0.02);
    assert!(part(tiles[0].rect.x) + part(tiles[0].rect.w) <= 1.0);
}

#[test]
fn shares_are_those_of_the_machine() {
    for (x, w) in [(0, 1536), (1, 7), (511, 513), (700, 900), (1535, 1), (-20, 40), (12, 749)] {
        let placed = client(x, 0, w, 864);
        let tiles = tiles_for(&[&placed], &monitor());
        let left = x.min(0);
        let side = ((x + w).max(1536) - left) as f32;
        let mut start = ((x - left) as f32 / side).clamp(0.0, 0.98);
        let mut share = (w as f32 / side).clamp(0.02, 1.0);
        if start + share > 1.0 {
            share = (1.0 - start).max(0.02);
            start = (1.0 - share).clamp(0.0, 0.98);
        }
        assert_eq!(tiles[0].rect.x, single(start), "{x} {w}");
        assert_eq!(tiles[0].rect.w, single(share), "{x} {w}");
    }
}

#[test]
fn the_nearer_of_two_close_tiles_is_next() {
    let tile = |index: usize, x: f32, y: f32| Tile {
        index,
        rect: RelativeRect {
            x: single(x),
            y: single(y),
            w: single(0.1),
            h: single(0.1),
        },
    };
    // Both are as far to six decimals.
    let close = 0.5;
    let closer = f32::from_bits(0.5f32.to_bits() - 1);
    let tiles = [tile(0, 0.1, 0.1), tile(1, close, 0.1), tile(2, closer, 0.1)];
    let center = |x: f32| (x + 0.1f32 / 2.0) - (0.1f32 + 0.1f32 / 2.0);
    let next = if center(closer) < center(close) { 2 } else { 1 };
    assert_eq!(nearest_in_direction(0, &tiles, 1, 0), Some(next));
    let nothing = [tile(0, 0.1, 0.1), tile(1, f32::NAN, 0.1), tile(2, 0.5, 0.1)];
    assert_eq!(nearest_in_direction(0, &nothing, 1, 0), Some(1));
}
