//! What Hyprland shows: windows, monitors and workspaces, and the commands
//! that move the picker's own window around.

use vstd::prelude::*;

use crate::search;
use crate::single;
use crate::single::Single;
use crate::strings;
use crate::text;

verus! {

/// A rectangle of the layout, in logical pixels.
#[derive(Debug, Clone, Copy, PartialEq, Eq, Structural)]
pub struct Rect {
    pub x: i32,
    pub y: i32,
    pub w: i32,
    pub h: i32,
}

#[derive(Debug, Clone, PartialEq, Eq)]
pub struct Workspace {
    pub id: i32,
    pub name: String,
}

/// A window.
#[derive(Debug, Clone, PartialEq, Eq)]
pub struct Client {
    pub address: String,
    pub class: String,
    pub title: String,
    pub workspace: Workspace,
    pub monitor: i64,
    pub floating: bool,
    pub mapped: bool,
    pub hidden: bool,
    pub at: [i32; 2],
    pub size: [i32; 2],
    pub focus_history_id: i64,
    pub portal_id: Option<u64>,
    pub stable_id: String,
}

/// A monitor.
#[derive(Debug, Clone, PartialEq, Eq)]
pub struct Monitor {
    pub id: i64,
    pub name: String,
    pub description: String,
    pub width: u32,
    pub height: u32,
    pub x: i32,
    pub y: i32,
    pub scale: Single,
    pub refresh_rate: Single,
    pub transform: u32,
    pub focused: bool,
    pub reserved: [i32; 4],
    pub active_workspace: Workspace,
    pub special_workspace: Workspace,
}

/// The bits of a hundredth, the smallest scale that counts.
pub const LEAST_SCALE: u32 = 0x3c23_d70a;

impl Client {
    /// The window's part of the layout, at least one pixel.
    pub open spec fn frame(self) -> Rect {
        Rect {
            x: self.at[0],
            y: self.at[1],
            w: if self.size[0] >= 1 {
                self.size[0]
            } else {
                1
            },
            h: if self.size[1] >= 1 {
                self.size[1]
            } else {
                1
            },
        }
    }

    pub fn rect(&self) -> (r: Rect)
        ensures
            r == self.frame(),
    {
        let (w, h): (i32, i32) = (self.size[0], self.size[1]);
        Rect {
            x: self.at[0],
            y: self.at[1],
            w: if w >= 1 {
                w
            } else {
                1
            },
            h: if h >= 1 {
                h
            } else {
                1
            },
        }
    }

    /// The window is the picker's own.
    pub open spec fn own(self) -> bool {
        self.class@ == "omabeam"@
    }

    /// The window can be chosen.
    pub open spec fn visible(self) -> bool {
        self.mapped && !self.hidden && !self.own()
    }

    pub fn is_picker(&self) -> (r: bool)
        ensures
            r == self.own(),
    {
        text::same(self.class.as_str(), "omabeam")
    }

    pub fn visible_on_workspace(&self, workspace_id: i32) -> (r: bool)
        ensures
            r == (self.visible() && self.workspace.id == workspace_id),
    {
        self.mapped && !self.hidden && !self.is_picker() && self.workspace.id == workspace_id
    }

    pub fn is_visible(&self) -> (r: bool)
        ensures
            r == self.visible(),
    {
        self.mapped && !self.hidden && !self.is_picker()
    }
}

/// A length in logical pixels at a scale.
pub open spec fn logical_side(length: u32, scale: Single) -> Single {
    single::of_int(length as int).over(scale.larger(Single { bits: LEAST_SCALE }))
}

/// A length in whole logical pixels, rounded to nearest, at least one.
pub open spec fn logical_pixels(length: u32, scale: Single) -> int {
    let n = logical_side(length, scale).whole();
    if n < 1 {
        1
    } else if n > i32::MAX {
        i32::MAX as int
    } else {
        n
    }
}

pub proof fn lemma_logical_side(length: u32, scale: Single)
    ensures
        !logical_side(length, scale).negative(),
        0 <= logical_side(length, scale).code() < 0x5380_0000,
{
    single::lemma_ratio_bound(length as int, scale.larger(Single { bits: LEAST_SCALE }));
}

fn side(length: u32, scale: Single) -> (r: Single)
    ensures
        r == logical_side(length, scale),
{
    Single::of(length as i64).quotient(scale.max(Single { bits: LEAST_SCALE }))
}

fn pixels(length: u32, scale: Single) -> (r: i32)
    ensures
        r == logical_pixels(length, scale),
{
    proof {
        lemma_logical_side(length, scale);
    }
    let n: u64 = side(length, scale).round();
    if n < 1 {
        1
    } else if n > 0x7fff_ffff {
        0x7fff_ffff
    } else {
        n as i32
    }
}

/// What is left of a side beyond the reserved parts, at least one pixel.
pub open spec fn usable_side(side: Single, first: i32, second: i32) -> Single {
    side.minus(single::of_int(first + second)).larger(Single { bits: single::ONE })
}

impl Monitor {
    /// The pixel sides as the monitor is turned.
    pub open spec fn turned(self) -> (u32, u32) {
        if self.transform % 2 == 1 {
            (self.height, self.width)
        } else {
            (self.width, self.height)
        }
    }

    /// The monitor's part of the layout.
    pub open spec fn area(self) -> Rect {
        Rect {
            x: self.x,
            y: self.y,
            w: logical_pixels(self.turned().0, self.scale) as i32,
            h: logical_pixels(self.turned().1, self.scale) as i32,
        }
    }

    pub fn logical_size(&self) -> (r: (Single, Single))
        ensures
            r.0 == logical_side(self.turned().0, self.scale),
            r.1 == logical_side(self.turned().1, self.scale),
    {
        let (width, height): (u32, u32) = if self.transform % 2 == 1 {
            (self.height, self.width)
        } else {
            (self.width, self.height)
        };
        (side(width, self.scale), side(height, self.scale))
    }

    /// Logical pixels left beside reserved bars. The floating picker sizes
    /// itself to it instead of overflowing the screen.
    pub fn usable_size(&self) -> (r: (Single, Single))
        ensures
            r.0 == usable_side(
                logical_side(self.turned().0, self.scale),
                self.reserved[0],
                self.reserved[2],
            ),
            r.1 == usable_side(
                logical_side(self.turned().1, self.scale),
                self.reserved[1],
                self.reserved[3],
            ),
    {
        let size = self.logical_size();
        (
            usable(size.0, self.reserved[0], self.reserved[2]),
            usable(size.1, self.reserved[1], self.reserved[3]),
        )
    }

    pub fn canvas(&self) -> (r: Rect)
        ensures
            r == self.area(),
    {
        let (width, height): (u32, u32) = if self.transform % 2 == 1 {
            (self.height, self.width)
        } else {
            (self.width, self.height)
        };
        Rect {
            x: self.x,
            y: self.y,
            w: pixels(width, self.scale),
            h: pixels(height, self.scale),
        }
    }

    /// The monitor's name and what it is.
    pub open spec fn label_text(self) -> Seq<char> {
        if strings::trimmed(self.description@).len() == 0 {
            self.name@
        } else {
            self.name@ + " · "@ + self.description@
        }
    }

    pub fn label(&self) -> (r: String)
        ensures
            r@ == self.label_text(),
    {
        if strings::trim(self.description.as_str()).as_str().is_empty() {
            return self.name.clone();
        }
        let mut label = self.name.clone();
        label.append(" · ");
        label.append(self.description.as_str());
        label
    }
}

fn usable(side: Single, first: i32, second: i32) -> (r: Single)
    ensures
        r == usable_side(side, first, second),
{
    let reserved = Single::of(first as i64 + second as i64);
    side.difference(reserved).max(Single { bits: single::ONE })
}

/// The session as Hyprland reports it.
#[derive(Debug)]
pub struct Snapshot {
    pub clients: Vec<Client>,
    pub monitors: Vec<Monitor>,
    pub workspaces: Vec<Workspace>,
    pub active_workspace: Workspace,
}

/// What entries are ordered by, most important first.
#[derive(Debug)]
pub struct Key {
    pub a: i64,
    pub b: i64,
    pub c: i64,
    pub name: String,
}

/// `p` comes strictly before `q`.
pub open spec fn key_before(p: Key, q: Key) -> bool {
    ||| p.a < q.a
    ||| p.a == q.a && p.b < q.b
    ||| p.a == q.a && p.b == q.b && p.c < q.c
    ||| p.a == q.a && p.b == q.b && p.c == q.c && text::precedes(p.name@, q.name@)
}

fn comes_before(p: &Key, q: &Key) -> (r: bool)
    ensures
        r == key_before(*p, *q),
{
    if p.a != q.a {
        p.a < q.a
    } else if p.b != q.b {
        p.b < q.b
    } else if p.c != q.c {
        p.c < q.c
    } else {
        text::comes_before(p.name.as_str(), q.name.as_str())
    }
}

/// Entry `i` is listed before entry `j`: by key, then by position.
pub open spec fn listed_before(keys: Seq<Key>, i: int, j: int) -> bool {
    key_before(keys[i], keys[j]) || (!key_before(keys[j], keys[i]) && i < j)
}

/// `list` holds exactly the chosen positions, in order.
pub open spec fn ordered_by(list: Seq<usize>, keys: Seq<Key>, chosen: Seq<bool>) -> bool {
    &&& forall|i: int| 0 <= i < list.len() ==> (#[trigger] list[i]) < keys.len() && chosen[list[
        i
    ] as int]
    &&& forall|i: int, j: int|
        0 <= i < j < list.len() ==> listed_before(
            keys,
            (#[trigger] list[i]) as int,
            (#[trigger] list[j]) as int,
        )
    &&& forall|k: int|
        0 <= k < keys.len() && #[trigger] chosen[k] ==> exists|i: int|
            0 <= i < list.len() && (#[trigger] list[i]) == k
}

proof fn lemma_key_order(p: Key, q: Key, r: Key)
    ensures
        !key_before(p, p),
        key_before(p, q) ==> !key_before(q, p),
        key_before(p, q) && !key_before(r, q) ==> key_before(p, r),
        !key_before(q, p) && key_before(q, r) ==> key_before(p, r),
        !key_before(q, p) && !key_before(r, q) ==> !key_before(r, p),
{
    text::lemma_order(p.name@, q.name@, r.name@);
    text::lemma_order(q.name@, p.name@, r.name@);
    text::lemma_order(q.name@, r.name@, p.name@);
    text::lemma_order(r.name@, p.name@, q.name@);
    text::lemma_order(r.name@, q.name@, p.name@);
    text::lemma_order(p.name@, r.name@, q.name@);
}

/// The chosen positions in the order of their keys; equal keys keep their
/// order.
pub fn order(keys: &Vec<Key>, chosen: &Vec<bool>) -> (list: Vec<usize>)
    requires
        keys@.len() == chosen@.len(),
    ensures
        ordered_by(list@, keys@, chosen@),
{
    let mut list: Vec<usize> = Vec::new();
    let mut k: usize = 0;
    while k < keys.len()
        invariant
            k <= keys@.len(),
            keys@.len() == chosen@.len(),
            ordered_by(list@, keys@.take(k as int), chosen@.take(k as int)),
        decreases keys@.len() - k,
    {
        let ghost before = list@;
        let ghost some = keys@.take(k as int);
        let ghost picked = chosen@.take(k as int);
        let ghost more = keys@.take(k + 1);
        let ghost also = chosen@.take(k + 1);
        assert forall|i: int, j: int| 0 <= i < k && 0 <= j < k implies listed_before(some, i, j)
            == #[trigger] listed_before(more, i, j) by {}
        if chosen[k] {
            let mut at: usize = list.len();
            while at > 0 && comes_before(&keys[k], &keys[list[at - 1]])
                invariant
                    at <= list@.len(),
                    list@ == before,
                    k < keys@.len(),
                    forall|i: int| 0 <= i < list@.len() ==> (#[trigger] list@[i]) < k,
                    forall|i: int|
                        at <= i < list@.len() ==> key_before(
                            keys@[k as int],
                            keys@[(#[trigger] list@[i]) as int],
                        ),
                decreases at,
            {
                at = at - 1;
            }
            list.insert(at, k);
            proof {
                let now = list@;
                assert forall|i: int| 0 <= i < now.len() implies (#[trigger] now[i]) < more.len()
                    && also[now[i] as int] by {
                    if i < at {
                        assert(now[i] == before[i]);
                    } else if i > at {
                        assert(now[i] == before[i - 1]);
                    }
                }
                assert forall|i: int, j: int| 0 <= i < j < now.len() implies listed_before(
                    more,
                    (#[trigger] now[i]) as int,
                    (#[trigger] now[j]) as int,
                ) by {
                    let pi = if i > at { i - 1 } else { i };
                    let pj = if j > at { j - 1 } else { j };
                    if i != at && j != at {
                        assert(now[i] == before[pi] && now[j] == before[pj]);
                        assert(listed_before(some, before[pi] as int, before[pj] as int));
                        assert(listed_before(more, before[pi] as int, before[pj] as int));
                    } else if i == at {
                        assert(now[j] == before[pj]);
                    } else {
                        assert(now[i] == before[i]);
                        let last = before[at - 1] as int;
                        assert(!key_before(keys@[k as int], keys@[last]));
                        if i < at - 1 {
                            assert(listed_before(some, before[i] as int, last));
                            lemma_key_order(keys@[before[i] as int], keys@[last], keys@[k as int]);
                        }
                    }
                }
                assert forall|m: int| 0 <= m < more.len() && #[trigger] also[m] implies exists|
                    i: int,
                |
                    0 <= i < now.len() && (#[trigger] now[i]) == m by {
                    if m == k {
                        assert(now[at as int] == m);
                    } else {
                        assert(picked[m]);
                        let i = choose|i: int| 0 <= i < before.len() && (#[trigger] before[i]) == m;
                        let p = if i >= at { i + 1 } else { i };
                        assert(now[p] == m);
                    }
                }
            }
        } else {
            assert forall|m: int| 0 <= m < more.len() && #[trigger] also[m] implies exists|i: int|
                0 <= i < list@.len() && (#[trigger] list@[i]) == m by {
                assert(picked[m]);
            }
            assert forall|i: int, j: int| 0 <= i < j < list@.len() implies listed_before(
                more,
                (#[trigger] list@[i]) as int,
                (#[trigger] list@[j]) as int,
            ) by {
                assert(listed_before(some, list@[i] as int, list@[j] as int));
            }
        }
        k = k + 1;
    }
    assert(keys@.take(k as int) =~= keys@);
    assert(chosen@.take(k as int) =~= chosen@);
    list
}

/// What tiles are ordered by: top to bottom, left to right, then most recent.
pub open spec fn is_tile_key(key: Key, client: Client) -> bool {
    key.a == client.at[1] && key.b == client.at[0] && key.c == client.focus_history_id
        && key.name@.len() == 0
}

/// What the window list is ordered by: workspace, most recent, then class.
pub open spec fn is_list_key(key: Key, client: Client) -> bool {
    key.a == client.workspace.id && key.b == client.focus_history_id && key.c == 0 && key.name@
        == client.class@
}

/// The positions of the windows to tile, in order.
pub open spec fn tile_order(list: Seq<usize>, clients: Seq<Client>, workspace: i32) -> bool {
    exists|keys: Seq<Key>, chosen: Seq<bool>| #[trigger]
        ordered_by(list, keys, chosen) && keys.len() == clients.len() && chosen.len()
            == clients.len() && forall|i: int|
            0 <= i < clients.len() ==> is_tile_key(keys[i], #[trigger] clients[i]) && chosen[i] == (
            clients[i].visible() && clients[i].workspace.id == workspace)
}

/// The positions of the windows to list, in order.
pub open spec fn list_order(list: Seq<usize>, clients: Seq<Client>) -> bool {
    exists|keys: Seq<Key>, chosen: Seq<bool>| #[trigger]
        ordered_by(list, keys, chosen) && keys.len() == clients.len() && chosen.len()
            == clients.len() && forall|i: int|
            0 <= i < clients.len() ==> is_list_key(keys[i], #[trigger] clients[i]) && chosen[i]
                == clients[i].visible()
}

/// Keys that compare alike determine the same list.
proof fn lemma_list_is_determined(
    a: Seq<usize>,
    keys_a: Seq<Key>,
    b: Seq<usize>,
    keys_b: Seq<Key>,
    chosen: Seq<bool>,
)
    requires
        ordered_by(a, keys_a, chosen),
        ordered_by(b, keys_b, chosen),
        keys_a.len() == keys_b.len() == chosen.len(),
        keys_a.len() <= usize::MAX,
        forall|i: int, j: int|
            0 <= i < keys_a.len() && 0 <= j < keys_a.len() ==> (#[trigger] key_before(
                keys_a[i],
                keys_a[j],
            )) == key_before(keys_b[i], keys_b[j]),
    ensures
        a == b,
{
    let n = keys_a.len();
    let before = |x: usize, y: usize| x < n && y < n && listed_before(keys_a, x as int, y as int);
    assert forall|x: usize, y: usize| #[trigger] before(x, y) implies !before(y, x) by {
        lemma_key_order(keys_a[x as int], keys_a[y as int], keys_a[x as int]);
    }
    assert forall|i: int, j: int| 0 <= i < j < a.len() implies before(
        #[trigger] a[i],
        #[trigger] a[j],
    ) by {
        assert(listed_before(keys_a, a[i] as int, a[j] as int));
    }
    assert forall|i: int, j: int| 0 <= i < j < b.len() implies before(
        #[trigger] b[i],
        #[trigger] b[j],
    ) by {
        assert(listed_before(keys_b, b[i] as int, b[j] as int));
        assert(key_before(keys_a[b[i] as int], keys_a[b[j] as int]) == key_before(
            keys_b[b[i] as int],
            keys_b[b[j] as int],
        ));
        assert(key_before(keys_a[b[j] as int], keys_a[b[i] as int]) == key_before(
            keys_b[b[j] as int],
            keys_b[b[i] as int],
        ));
    }
    assert forall|x: usize| #[trigger] a.contains(x) <==> b.contains(x) by {
        if a.contains(x) {
            let i = choose|i: int| 0 <= i < a.len() && a[i] == x;
            assert(chosen[a[i] as int]);
            let k = choose|k: int| 0 <= k < b.len() && (#[trigger] b[k]) == x as int;
            assert(b[k] == x);
        }
        if b.contains(x) {
            let i = choose|i: int| 0 <= i < b.len() && b[i] == x;
            assert(chosen[b[i] as int]);
            let k = choose|k: int| 0 <= k < a.len() && (#[trigger] a[k]) == x as int;
            assert(a[k] == x);
        }
    }
    search::lemma_order_determines(a, b, before);
}

/// The windows to tile, by their positions in order.
pub open spec fn tiles(clients: Seq<Client>, workspace: i32) -> Seq<usize> {
    choose|list: Seq<usize>| tile_order(list, clients, workspace)
}

/// The windows to list, by their positions in order.
pub open spec fn listing(clients: Seq<Client>) -> Seq<usize> {
    choose|list: Seq<usize>| list_order(list, clients)
}

/// The order of the tiles leaves no choice.
pub proof fn the_order_of_tiles_is_determined(
    a: Seq<usize>,
    b: Seq<usize>,
    clients: Seq<Client>,
    workspace: i32,
)
    requires
        tile_order(a, clients, workspace),
        tile_order(b, clients, workspace),
        clients.len() <= usize::MAX,
    ensures
        a == b,
{
    let (ka, ca) = choose|keys: Seq<Key>, chosen: Seq<bool>| #[trigger]
        ordered_by(a, keys, chosen) && keys.len() == clients.len() && chosen.len()
            == clients.len() && forall|i: int|
            0 <= i < clients.len() ==> is_tile_key(keys[i], #[trigger] clients[i]) && chosen[i] == (
            clients[i].visible() && clients[i].workspace.id == workspace);
    let (kb, cb) = choose|keys: Seq<Key>, chosen: Seq<bool>| #[trigger]
        ordered_by(b, keys, chosen) && keys.len() == clients.len() && chosen.len()
            == clients.len() && forall|i: int|
            0 <= i < clients.len() ==> is_tile_key(keys[i], #[trigger] clients[i]) && chosen[i] == (
            clients[i].visible() && clients[i].workspace.id == workspace);
    assert(ca =~= cb) by {
        assert forall|i: int| 0 <= i < ca.len() implies ca[i] == cb[i] by {
            assert(is_tile_key(ka[i], clients[i]));
            assert(is_tile_key(kb[i], clients[i]));
        }
    }
    assert forall|i: int, j: int| 0 <= i < ka.len() && 0 <= j < ka.len() implies (
    #[trigger] key_before(ka[i], ka[j])) == key_before(kb[i], kb[j]) by {
        assert(is_tile_key(ka[i], clients[i]) && is_tile_key(kb[i], clients[i]));
        assert(is_tile_key(ka[j], clients[j]) && is_tile_key(kb[j], clients[j]));
        assert(ka[i].name@ =~= kb[i].name@);
        assert(ka[j].name@ =~= kb[j].name@);
    }
    lemma_list_is_determined(a, ka, b, kb, ca);
}

/// The order of the list of windows leaves no choice.
pub proof fn the_order_of_windows_is_determined(
    a: Seq<usize>,
    b: Seq<usize>,
    clients: Seq<Client>,
)
    requires
        list_order(a, clients),
        list_order(b, clients),
        clients.len() <= usize::MAX,
    ensures
        a == b,
{
    let (ka, ca) = choose|keys: Seq<Key>, chosen: Seq<bool>| #[trigger]
        ordered_by(a, keys, chosen) && keys.len() == clients.len() && chosen.len()
            == clients.len() && forall|i: int|
            0 <= i < clients.len() ==> is_list_key(keys[i], #[trigger] clients[i]) && chosen[i]
                == clients[i].visible();
    let (kb, cb) = choose|keys: Seq<Key>, chosen: Seq<bool>| #[trigger]
        ordered_by(b, keys, chosen) && keys.len() == clients.len() && chosen.len()
            == clients.len() && forall|i: int|
            0 <= i < clients.len() ==> is_list_key(keys[i], #[trigger] clients[i]) && chosen[i]
                == clients[i].visible();
    assert(ca =~= cb) by {
        assert forall|i: int| 0 <= i < ca.len() implies ca[i] == cb[i] by {
            assert(is_list_key(ka[i], clients[i]));
            assert(is_list_key(kb[i], clients[i]));
        }
    }
    assert forall|i: int, j: int| 0 <= i < ka.len() && 0 <= j < ka.len() implies (
    #[trigger] key_before(ka[i], ka[j])) == key_before(kb[i], kb[j]) by {
        assert(is_list_key(ka[i], clients[i]) && is_list_key(kb[i], clients[i]));
        assert(is_list_key(ka[j], clients[j]) && is_list_key(kb[j], clients[j]));
    }
    lemma_list_is_determined(a, ka, b, kb, ca);
}

/// The first monitor that has the focus, otherwise the first one.
pub open spec fn focused_index(monitors: Seq<Monitor>) -> Option<int> {
    match search::first_where(monitors, |m: Monitor| m.focused) {
        Some(i) => Some(i),
        None => if monitors.len() > 0 {
            Some(0int)
        } else {
            None
        },
    }
}

/// The place of the focused monitor.
pub fn focused_place(monitors: &Vec<Monitor>) -> (r: Option<usize>)
    ensures
        match r {
            Some(i) => i < monitors@.len() && focused_index(monitors@) == Some(i as int),
            None => focused_index(monitors@) is None,
        },
{
    let ghost test = |m: Monitor| m.focused;
    let mut i: usize = 0;
    while i < monitors.len()
        invariant
            i <= monitors@.len(),
            test == (|m: Monitor| m.focused),
            forall|j: int| 0 <= j < i ==> !test(#[trigger] monitors@[j]),
        decreases monitors@.len() - i,
    {
        if monitors[i].focused {
            proof {
                search::lemma_first(monitors@, test, i as int);
            }
            return Some(i);
        }
        i = i + 1;
    }
    proof {
        search::lemma_none(monitors@, test);
    }
    if monitors.len() > 0 {
        Some(0)
    } else {
        None
    }
}

/// The monitor at a place, if there is one.
pub open spec fn monitor_at(monitors: Seq<Monitor>, i: Option<int>) -> Option<Monitor> {
    match i {
        Some(i) => Some(monitors[i]),
        None => None,
    }
}

/// What a reference refers to, if there is one.
pub open spec fn referred(monitor: Option<&Monitor>) -> Option<Monitor> {
    match monitor {
        Some(monitor) => Some(*monitor),
        None => None,
    }
}

/// The place of the first monitor with a number.
pub open spec fn index_by_id(monitors: Seq<Monitor>, id: i64) -> Option<int> {
    search::first_where(monitors, |m: Monitor| m.id == id)
}

/// The place of the first monitor with a name.
pub open spec fn index_by_name(monitors: Seq<Monitor>, name: Seq<char>) -> Option<int> {
    search::first_where(monitors, |m: Monitor| m.name@ == name)
}

impl Snapshot {
    pub fn focused_monitor(&self) -> (r: Option<&Monitor>)
        ensures
            referred(r) == monitor_at(self.monitors@, focused_index(self.monitors@)),
    {
        match focused_place(&self.monitors) {
            Some(i) => Some(&self.monitors[i]),
            None => None,
        }
    }

    pub fn monitor_by_id(&self, id: i64) -> (r: Option<&Monitor>)
        ensures
            referred(r) == monitor_at(self.monitors@, index_by_id(self.monitors@, id)),
    {
        let ghost test = |m: Monitor| m.id == id;
        let mut i: usize = 0;
        while i < self.monitors.len()
            invariant
                i <= self.monitors@.len(),
                test == (|m: Monitor| m.id == id),
                forall|j: int| 0 <= j < i ==> !test(#[trigger] self.monitors@[j]),
            decreases self.monitors@.len() - i,
        {
            if self.monitors[i].id == id {
                proof {
                    search::lemma_first(self.monitors@, test, i as int);
                }
                return Some(&self.monitors[i]);
            }
            i = i + 1;
        }
        proof {
            search::lemma_none(self.monitors@, test);
        }
        None
    }

    pub fn monitor_by_name(&self, name: &str) -> (r: Option<&Monitor>)
        ensures
            referred(r) == monitor_at(self.monitors@, index_by_name(self.monitors@, name@)),
    {
        let ghost test = |m: Monitor| m.name@ == name@;
        let mut i: usize = 0;
        while i < self.monitors.len()
            invariant
                i <= self.monitors@.len(),
                test == (|m: Monitor| m.name@ == name@),
                forall|j: int| 0 <= j < i ==> !test(#[trigger] self.monitors@[j]),
            decreases self.monitors@.len() - i,
        {
            if text::same(self.monitors[i].name.as_str(), name) {
                proof {
                    search::lemma_first(self.monitors@, test, i as int);
                }
                return Some(&self.monitors[i]);
            }
            i = i + 1;
        }
        proof {
            search::lemma_none(self.monitors@, test);
        }
        None
    }

    /// The positions of the visible windows of a workspace: top to bottom,
    /// left to right, most recent first.
    pub fn tiles_on(&self, workspace_id: i32) -> (r: Vec<usize>)
        ensures
            tile_order(r@, self.clients@, workspace_id),
            r@ == tiles(self.clients@, workspace_id),
    {
        let mut keys: Vec<Key> = Vec::new();
        let mut chosen: Vec<bool> = Vec::new();
        let mut i: usize = 0;
        while i < self.clients.len()
            invariant
                i <= self.clients@.len(),
                keys@.len() == i,
                chosen@.len() == i,
                forall|k: int|
                    0 <= k < i ==> is_tile_key(keys@[k], #[trigger] self.clients@[k]) && chosen@[k]
                        == (self.clients@[k].visible() && self.clients@[k].workspace.id
                        == workspace_id),
            decreases self.clients@.len() - i,
        {
            let client = &self.clients[i];
            keys.push(
                Key {
                    a: client.at[1] as i64,
                    b: client.at[0] as i64,
                    c: client.focus_history_id,
                    name: String::new(),
                },
            );
            chosen.push(client.visible_on_workspace(workspace_id));
            i = i + 1;
        }
        let list = order(&keys, &chosen);
        assert(ordered_by(list@, keys@, chosen@));
        assert(tile_order(list@, self.clients@, workspace_id));
        proof {
            the_order_of_tiles_is_determined(
                list@,
                tiles(self.clients@, workspace_id),
                self.clients@,
                workspace_id,
            );
        }
        list
    }

    /// The positions of all visible windows: by workspace, most recent first,
    /// then by class.
    pub fn listed_windows(&self) -> (r: Vec<usize>)
        ensures
            list_order(r@, self.clients@),
            r@ == listing(self.clients@),
    {
        let mut keys: Vec<Key> = Vec::new();
        let mut chosen: Vec<bool> = Vec::new();
        let mut i: usize = 0;
        while i < self.clients.len()
            invariant
                i <= self.clients@.len(),
                keys@.len() == i,
                chosen@.len() == i,
                forall|k: int|
                    0 <= k < i ==> is_list_key(keys@[k], #[trigger] self.clients@[k]) && chosen@[k]
                        == self.clients@[k].visible(),
            decreases self.clients@.len() - i,
        {
            let client = &self.clients[i];
            keys.push(
                Key {
                    a: client.workspace.id as i64,
                    b: client.focus_history_id,
                    c: 0,
                    name: client.class.clone(),
                },
            );
            chosen.push(client.is_visible());
            i = i + 1;
        }
        let list = order(&keys, &chosen);
        assert(ordered_by(list@, keys@, chosen@));
        assert(list_order(list@, self.clients@));
        proof {
            the_order_of_windows_is_determined(
                list@,
                listing(self.clients@),
                self.clients@,
            );
        }
        list
    }
}

/// Tiles read like a page: each visible window of the workspace is one of them,
/// once, and none comes before one that lies higher, or as high and further
/// left.
pub proof fn tiles_read_like_a_page(
    list: Seq<usize>,
    clients: Seq<Client>,
    workspace: i32,
    i: int,
    j: int,
)
    requires
        tile_order(list, clients, workspace),
        0 <= i < j < list.len(),
    ensures
        ({
            let (a, b) = (clients[list[i] as int], clients[list[j] as int]);
            &&& list[i] < clients.len() && list[j] < clients.len() && list[i] != list[j]
            &&& a.visible() && a.workspace.id == workspace
            &&& b.visible() && b.workspace.id == workspace
            &&& a.frame().y <= b.frame().y
            &&& a.frame().y == b.frame().y ==> a.frame().x <= b.frame().x
            &&& a.frame().y == b.frame().y && a.frame().x == b.frame().x ==> a.focus_history_id
                <= b.focus_history_id
        }),
{
    let (keys, chosen) = choose|keys: Seq<Key>, chosen: Seq<bool>| #[trigger]
        ordered_by(list, keys, chosen) && keys.len() == clients.len() && chosen.len()
            == clients.len() && forall|i: int|
            0 <= i < clients.len() ==> is_tile_key(keys[i], #[trigger] clients[i]) && chosen[i] == (
            clients[i].visible() && clients[i].workspace.id == workspace);
    let (p, q) = (list[i] as int, list[j] as int);
    assert(listed_before(keys, p, q));
    lemma_key_order(keys[p], keys[q], keys[q]);
    assert(is_tile_key(keys[p], clients[p]) && is_tile_key(keys[q], clients[q]));
    assert(!text::precedes(keys[p].name@, keys[q].name@) && !text::precedes(
        keys[q].name@,
        keys[p].name@,
    ));
}

/// Every visible window of the workspace is a tile, and nothing else is.
pub proof fn every_visible_window_is_a_tile(
    list: Seq<usize>,
    clients: Seq<Client>,
    workspace: i32,
    k: int,
)
    requires
        tile_order(list, clients, workspace),
        0 <= k < clients.len(),
    ensures
        (exists|i: int| 0 <= i < list.len() && (#[trigger] list[i]) == k) <==> clients[k].visible()
            && clients[k].workspace.id == workspace,
{
    let (keys, chosen) = choose|keys: Seq<Key>, chosen: Seq<bool>| #[trigger]
        ordered_by(list, keys, chosen) && keys.len() == clients.len() && chosen.len()
            == clients.len() && forall|i: int|
            0 <= i < clients.len() ==> is_tile_key(keys[i], #[trigger] clients[i]) && chosen[i] == (
            clients[i].visible() && clients[i].workspace.id == workspace);
    assert(is_tile_key(keys[k], clients[k]));
    assert(chosen[k] == (clients[k].visible() && clients[k].workspace.id == workspace));
}

/// The list of windows goes by workspace, and on each by how recently a window
/// had the focus; every visible window is in it.
pub proof fn windows_are_listed_by_workspace(
    list: Seq<usize>,
    clients: Seq<Client>,
    i: int,
    j: int,
    k: int,
)
    requires
        list_order(list, clients),
        0 <= i < j < list.len(),
        0 <= k < clients.len(),
    ensures
        ({
            let (a, b) = (clients[list[i] as int], clients[list[j] as int]);
            &&& list[i] < clients.len() && list[j] < clients.len() && list[i] != list[j]
            &&& a.visible() && b.visible()
            &&& a.workspace.id <= b.workspace.id
            &&& a.workspace.id == b.workspace.id ==> a.focus_history_id <= b.focus_history_id
            &&& a.workspace.id == b.workspace.id && a.focus_history_id == b.focus_history_id
                ==> !text::precedes(b.class@, a.class@)
        }),
        (exists|n: int| 0 <= n < list.len() && (#[trigger] list[n]) == k) <==> clients[k].visible(),
{
    let (keys, chosen) = choose|keys: Seq<Key>, chosen: Seq<bool>| #[trigger]
        ordered_by(list, keys, chosen) && keys.len() == clients.len() && chosen.len()
            == clients.len() && forall|i: int|
            0 <= i < clients.len() ==> is_list_key(keys[i], #[trigger] clients[i]) && chosen[i]
                == clients[i].visible();
    let (p, q) = (list[i] as int, list[j] as int);
    assert(listed_before(keys, p, q));
    lemma_key_order(keys[p], keys[q], keys[q]);
    assert(is_list_key(keys[p], clients[p]) && is_list_key(keys[q], clients[q]));
    text::lemma_order(keys[p].name@, keys[q].name@, keys[p].name@);
    assert(is_list_key(keys[k], clients[k]));
}

/// At a scale of one a monitor covers its mode, turned upright: a monitor that
/// is turned by a quarter covers as much the other way round.
pub proof fn a_monitor_covers_its_mode(monitor: Monitor)
    requires
        monitor.scale == (Single { bits: single::ONE }),
        1 <= monitor.width <= 0x100_0000,
        1 <= monitor.height <= 0x100_0000,
    ensures
        ({
            let area = monitor.area();
            &&& area.x == monitor.x && area.y == monitor.y
            &&& monitor.transform % 2 == 0 ==> area.w == monitor.width && area.h == monitor.height
            &&& monitor.transform % 2 == 1 ==> area.w == monitor.height && area.h == monitor.width
        }),
{
    lemma_unscaled(monitor.width);
    lemma_unscaled(monitor.height);
}

proof fn lemma_unscaled(n: u32)
    requires
        1 <= n <= 0x100_0000,
    ensures
        logical_side(n, Single { bits: single::ONE }) == single::of_int(n as int),
        logical_pixels(n, Single { bits: single::ONE }) == n,
{
    let u = single::unit();
    let one = Single { bits: single::ONE };
    let value = single::of_int(n as int);
    vstd::arithmetic::power2::lemma2_to64();
    vstd::arithmetic::power2::lemma_pow2_pos(149);
    vstd::arithmetic::power2::lemma_pow2_adds(23, 126);
    single::lemma_amount(single::ONE as int);
    assert(single::amount(single::ONE as int) == u);
    single::small_whole_numbers_are_exact(n as int);
    single::lemma_of_int(n as int);
    let a = single::amount(value.code());
    assert(a == n * u);
    assert(one.larger(Single { bits: LEAST_SCALE }) == one);
    single::lemma_near_cancel(a, 1, 149);
    assert(1 * u == u);
    assert(single::near(a * u, u) == single::near(a, 1));
    single::lemma_near_amount(value.code());
    assert(value.over(one) == value);
    assert(2 * (n * u) + u == n * (2 * u) + u) by (nonlinear_arith);
    vstd::arithmetic::div_mod::lemma_fundamental_div_mod_converse(
        2 * (n * u) + u,
        2 * u,
        n as int,
        u,
    );
}

/// What is usable of a screen is what its bars leave, where that is at least a
/// pixel.
pub proof fn bars_take_what_they_reserve(length: u32, first: i32, second: i32)
    requires
        1 <= length <= 0x100_0000,
        0 <= first,
        0 <= second,
        first + second < length,
    ensures
        usable_side(logical_side(length, Single { bits: single::ONE }), first, second)
            == single::of_int(length - first - second),
{
    lemma_unscaled(length);
    single::small_whole_numbers_add_up(length as int, first + second);
    let rest = length - first - second;
    single::small_whole_numbers_add_up(rest, 1);
    single::small_whole_numbers_are_exact(rest);
    single::lemma_one();
}

/// A name that a monitor has is found, at a monitor that has it.
pub proof fn lemma_index_by_name(monitors: Seq<Monitor>, name: String, i: int)
    requires
        0 <= i < monitors.len(),
        monitors[i].name@ == name@,
    ensures
        index_by_name(monitors, name@) matches Some(k) && 0 <= k < monitors.len()
            && monitors[k].name@ == name@,
{
    let test = |m: Monitor| m.name@ == name@;
    search::lemma_found(monitors, test);
    assert(test(monitors[i]));
}

/// A number that a monitor has is found, at a monitor that has it.
pub proof fn lemma_index_by_id(monitors: Seq<Monitor>, id: i64, i: int)
    requires
        0 <= i < monitors.len(),
        monitors[i].id == id,
    ensures
        index_by_id(monitors, id) matches Some(k) && 0 <= k < monitors.len() && monitors[k].id
            == id,
{
    let test = |m: Monitor| m.id == id;
    search::lemma_found(monitors, test);
    assert(test(monitors[i]));
}

} // verus!
