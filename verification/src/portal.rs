//! Windows as the desktop portal lists them, and which window of the
//! compositor each one is.

use vstd::prelude::*;

use crate::hypr::Client;
use crate::hypr::Snapshot;
use crate::search;
use crate::strings;
use crate::text;

verus! {

/// A window as the portal lists it.
#[derive(Debug, Clone, PartialEq, Eq)]
pub struct PortalWindow {
    pub id: u64,
    pub class: String,
    pub title: String,
    pub address: Option<u64>,
}

/// A window's address: hexadecimal behind `0x`, otherwise decimal or, failing
/// that, hexadecimal. Zero is no address.
pub open spec fn address_value(s: Seq<char>) -> Option<int> {
    let t = strings::trimmed(s);
    if t.len() == 0 || t == "0"@ || strings::same_ignoring_case(t, "0x0"@) {
        None
    } else if strings::starts(t, "0x"@) || strings::starts(t, "0X"@) {
        strings::number_value(t.skip(2), 16, u64::MAX as int)
    } else {
        match strings::number_value(t, 10, u64::MAX as int) {
            Some(v) => Some(v),
            None => strings::number_value(t, 16, u64::MAX as int),
        }
    }
}

/// The number is the value.
pub open spec fn is_value(number: Option<u64>, value: Option<int>) -> bool {
    match number {
        Some(v) => value == Some(v as int),
        None => value is None,
    }
}

pub fn parse_address(value: &str) -> (r: Option<u64>)
    ensures
        is_value(r, address_value(value@)),
{
    let trimmed = strings::trim(value);
    let t = trimmed.as_str();
    proof {
        reveal_strlit("0x");
        reveal_strlit("0X");
    }
    if t.is_empty() || text::same(t, "0") || strings::equals_ignoring_case(t, "0x0") {
        return None;
    }
    if let Some(hex) = strings::strip_prefix(t, "0x") {
        return strings::parse_number(hex.as_str(), 16, 0xffff_ffff_ffff_ffff);
    }
    if let Some(hex) = strings::strip_prefix(t, "0X") {
        return strings::parse_number(hex.as_str(), 16, 0xffff_ffff_ffff_ffff);
    }
    match strings::parse_number(t, 10, 0xffff_ffff_ffff_ffff) {
        Some(v) => Some(v),
        None => strings::parse_number(t, 16, 0xffff_ffff_ffff_ffff),
    }
}

/// One title, as shown, continues the other.
pub open spec fn close(left: Seq<char>, right: Seq<char>) -> bool {
    let l = strings::trimmed(left);
    let r = strings::trimmed(right);
    l.len() > 0 && (l == r || strings::starts(l, r) || strings::starts(r, l))
}

pub fn titles_close(left: &str, right: &str) -> (r: bool)
    ensures
        r == close(left@, right@),
{
    let l = strings::trim(left);
    let r = strings::trim(right);
    !l.as_str().is_empty() && (text::same(l.as_str(), r.as_str()) || strings::starts_with(
        l.as_str(),
        r.as_str(),
    ) || strings::starts_with(r.as_str(), l.as_str()))
}

/// How a listed window can be recognised, best first.
#[derive(Debug, Clone, Copy, PartialEq, Eq, Structural)]
pub enum Sign {
    Address,
    Title,
    CloseTitle,
}

/// The listed window bears the sign of the client. One whose address is known
/// is recognised by its address alone.
pub open spec fn bears(window: PortalWindow, client: Client, sign: Sign) -> bool {
    match sign {
        Sign::Address => address_value(client.address@) is Some && window.address is Some
            && window.address->0 as int == address_value(client.address@)->0,
        Sign::Title => window.address is None && window.class@ == client.class@ && window.title@
            == client.title@,
        Sign::CloseTitle => window.address is None && window.class@ == client.class@ && close(
            window.title@,
            client.title@,
        ),
    }
}

/// Some listed window bears the sign.
pub open spec fn borne(windows: Seq<PortalWindow>, client: Client, sign: Sign) -> bool {
    exists|i: int| 0 <= i < windows.len() && bears(#[trigger] windows[i], client, sign)
}

/// The listed window at `i` alone bears the sign.
pub open spec fn alone(windows: Seq<PortalWindow>, client: Client, sign: Sign, i: int) -> bool {
    &&& 0 <= i < windows.len()
    &&& bears(windows[i], client, sign)
    &&& forall|j: int| 0 <= j < windows.len() && j != i ==> !bears(#[trigger] windows[j], client, sign)
}

/// The best sign that any listed window bears.
pub open spec fn best_sign(windows: Seq<PortalWindow>, client: Client) -> Sign {
    if borne(windows, client, Sign::Address) {
        Sign::Address
    } else if borne(windows, client, Sign::Title) {
        Sign::Title
    } else {
        Sign::CloseTitle
    }
}

fn has_sign(window: &PortalWindow, client: &Client, sign: Sign) -> (r: bool)
    ensures
        r == bears(*window, *client, sign),
{
    match sign {
        Sign::Address => match (parse_address(client.address.as_str()), window.address) {
            (Some(wanted), Some(address)) => wanted == address,
            _ => false,
        },
        Sign::Title => window.address.is_none() && text::same(
            window.class.as_str(),
            client.class.as_str(),
        ) && text::same(window.title.as_str(), client.title.as_str()),
        Sign::CloseTitle => window.address.is_none() && text::same(
            window.class.as_str(),
            client.class.as_str(),
        ) && titles_close(window.title.as_str(), client.title.as_str()),
    }
}

/// Where the first listed window with the sign stands, and whether there is
/// another.
fn find_sign(windows: &[PortalWindow], client: &Client, sign: Sign) -> (r: (Option<usize>, bool))
    ensures
        r.0 is Some <==> borne(windows@, *client, sign),
        r.0 is Some ==> 0 <= r.0->0 < windows@.len() && bears(
            windows@[r.0->0 as int],
            *client,
            sign,
        ),
        r.0 is Some && !r.1 ==> alone(windows@, *client, sign, r.0->0 as int),
        r.1 ==> forall|i: int| !#[trigger] alone(windows@, *client, sign, i),
{
    let mut first: Option<usize> = None;
    let mut more = false;
    let mut i: usize = 0;
    while i < windows.len()
        invariant
            i <= windows@.len(),
            first is Some ==> first->0 < i && bears(
                windows@[first->0 as int],
                *client,
                sign,
            ),
            first is None ==> !more && forall|j: int|
                0 <= j < i ==> !bears(#[trigger] windows@[j], *client, sign),
            first is Some && !more ==> forall|j: int|
                0 <= j < i && j != first->0 ==> !bears(#[trigger] windows@[j], *client, sign),
            more ==> forall|k: int| !#[trigger] alone(windows@, *client, sign, k),
        decreases windows@.len() - i,
    {
        if has_sign(&windows[i], client, sign) {
            if let Some(f) = first {
                more = true;
                assert forall|k: int| !#[trigger] alone(windows@, *client, sign, k) by {
                    assert(bears(windows@[f as int], *client, sign));
                    assert(bears(windows@[i as int], *client, sign));
                }
            } else {
                first = Some(i);
            }
        }
        i = i + 1;
    }
    (first, more)
}

/// The listed window that is the client: the only one with the best sign.
pub fn match_portal_id(client: &Client, portal: &[PortalWindow]) -> (r: Option<u64>)
    ensures
        match r {
            Some(id) => exists|i: int|
                #[trigger] alone(portal@, *client, best_sign(portal@, *client), i)
                    && portal@[i].id == id,
            None => forall|i: int|
                !#[trigger] alone(portal@, *client, best_sign(portal@, *client), i),
        },
{
    let ghost best = best_sign(portal@, *client);
    let mut found = find_sign(portal, client, Sign::Address);
    if found.0.is_none() {
        found = find_sign(portal, client, Sign::Title);
        if found.0.is_none() {
            found = find_sign(portal, client, Sign::CloseTitle);
        }
    }
    match found.0 {
        Some(i) => {
            if found.1 {
                None
            } else {
                assert(alone(portal@, *client, best, i as int));
                Some(portal[i].id)
            }
        },
        None => {
            assert(!borne(portal@, *client, best));
            assert forall|i: int| !#[trigger] alone(portal@, *client, best, i) by {
                if alone(portal@, *client, best, i) {
                    assert(bears(portal@[i], *client, best));
                }
            }
            None
        },
    }
}

/// At most one listed window is the client: a match leaves no choice.
pub proof fn a_match_is_unique(portal: Seq<PortalWindow>, client: Client, i: int, j: int)
    requires
        alone(portal, client, best_sign(portal, client), i),
        alone(portal, client, best_sign(portal, client), j),
    ensures
        i == j,
{
}

/// A listed window whose known address is not the client's is never matched,
/// whatever its title.
pub proof fn a_conflicting_address_never_matches(
    portal: Seq<PortalWindow>,
    client: Client,
    i: int,
)
    requires
        0 <= i < portal.len(),
        portal[i].address is Some,
        address_value(client.address@) != Some(portal[i].address->0 as int),
    ensures
        !alone(portal, client, best_sign(portal, client), i),
{
}

/// The client is as before but for the number the portal gives it.
pub open spec fn renumbered(before: Client, after: Client) -> bool {
    after == (Client { portal_id: after.portal_id, ..before })
}

/// The number is the one that the portal gives the client.
pub open spec fn numbered(portal: Seq<PortalWindow>, client: Client, id: Option<u64>) -> bool {
    match id {
        Some(id) => exists|i: int|
            #[trigger] alone(portal, client, best_sign(portal, client), i) && portal[i].id == id,
        None => forall|i: int| !#[trigger] alone(portal, client, best_sign(portal, client), i),
    }
}

impl Snapshot {
    /// Gives every window the number under which the portal lists it.
    pub fn with_portal_windows(&mut self, portal: &[PortalWindow])
        ensures
            final(self).monitors == old(self).monitors,
            final(self).workspaces == old(self).workspaces,
            final(self).active_workspace == old(self).active_workspace,
            final(self).clients@.len() == old(self).clients@.len(),
            forall|i: int|
                0 <= i < old(self).clients@.len() ==> renumbered(
                    old(self).clients@[i],
                    #[trigger] final(self).clients@[i],
                ) && numbered(portal@, old(self).clients@[i], final(self).clients@[i].portal_id),
    {
        let mut k: usize = 0;
        while k < self.clients.len()
            invariant
                k <= self.clients@.len(),
                self.monitors == old(self).monitors,
                self.workspaces == old(self).workspaces,
                self.active_workspace == old(self).active_workspace,
                self.clients@.len() == old(self).clients@.len(),
                forall|i: int|
                    0 <= i < k ==> renumbered(
                        old(self).clients@[i],
                        #[trigger] self.clients@[i],
                    ) && numbered(portal@, old(self).clients@[i], self.clients@[i].portal_id),
                forall|i: int|
                    k <= i < self.clients@.len() ==> self.clients@[i] == old(self).clients@[i],
            decreases self.clients@.len() - k,
        {
            let id = match_portal_id(&self.clients[k], portal);
            self.clients[k].portal_id = id;
            k = k + 1;
        }
    }
}

/// The window is the one that was selected.
pub open spec fn is_selected(old: Client, client: Client) -> bool {
    client.visible() && if old.stable_id@.len() > 0 {
        client.stable_id@ == old.stable_id@
    } else {
        client.address@ == old.address@ && client.class@ == old.class@
    }
}

/// The address of the window that was selected, if it is still there.
pub open spec fn retained(selected: Option<Client>, clients: Seq<Client>) -> Option<Seq<char>> {
    match selected {
        Some(old) => match search::first_where(clients, |c: Client| is_selected(old, c)) {
            Some(i) => Some(clients[i].address@),
            None => None,
        },
        None => None,
    }
}

/// Preserves identity across refreshes, but clears a closed or replaced
/// selection.
pub fn retain_selected_window(selected: Option<&Client>, snapshot: &Snapshot) -> (r: Option<String>)
    ensures
        crate::dispatch::is_text(
            r,
            retained(
                match selected {
                    Some(old) => Some(*old),
                    None => None,
                },
                snapshot.clients@,
            ),
        ),
{
    let chosen = match selected {
        Some(chosen) => chosen,
        None => {
            return None;
        },
    };
    let by_id = !chosen.stable_id.as_str().is_empty();
    let mut i: usize = 0;
    while i < snapshot.clients.len()
        invariant
            selected == Some(chosen),
            by_id == (chosen.stable_id@.len() > 0),
            i <= snapshot.clients@.len(),
            forall|j: int|
                0 <= j < i ==> !is_selected(*chosen, #[trigger] snapshot.clients@[j]),
        decreases snapshot.clients@.len() - i,
    {
        let client = &snapshot.clients[i];
        let same = if by_id {
            text::same(client.stable_id.as_str(), chosen.stable_id.as_str())
        } else {
            text::same(client.address.as_str(), chosen.address.as_str()) && text::same(
                client.class.as_str(),
                chosen.class.as_str(),
            )
        };
        if same && client.is_visible() {
            proof {
                search::lemma_first(
                    snapshot.clients@,
                    |c: Client| is_selected(*chosen, c),
                    i as int,
                );
            }
            return Some(client.address.clone());
        }
        i = i + 1;
    }
    proof {
        search::lemma_none(snapshot.clients@, |c: Client| is_selected(*chosen, c));
    }
    None
}

/// A listed window with the client's address is the match where any has it:
/// titles count only between windows without a known address, and then the
/// class has to be the same.
pub proof fn a_known_address_decides(portal: Seq<PortalWindow>, client: Client, i: int)
    requires
        alone(portal, client, best_sign(portal, client), i),
    ensures
        match portal[i].address {
            Some(address) => address_value(client.address@) == Some(address as int),
            None => {
                &&& portal[i].class@ == client.class@
                &&& close(portal[i].title@, client.title@) || portal[i].title@ == client.title@
                &&& forall|j: int|
                    0 <= j < portal.len() && (#[trigger] portal[j]).address is Some
                        ==> address_value(client.address@) != Some(portal[j].address->0 as int)
            },
        },
{
    if portal[i].address is None {
        assert forall|j: int|
            0 <= j < portal.len() && (#[trigger] portal[j]).address is Some implies address_value(
            client.address@,
        ) != Some(portal[j].address->0 as int) by {
            if address_value(client.address@) == Some(portal[j].address->0 as int) {
                assert(bears(portal[j], client, Sign::Address));
            }
        }
    }
}

/// A selection that is kept is a window that can still be seen: the one with
/// the same stable name, or with the same address and class where it has none.
pub proof fn a_kept_selection_is_the_same_window(selected: Client, clients: Seq<Client>)
    ensures
        match retained(Some(selected), clients) {
            Some(address) => exists|i: int|
                0 <= i < clients.len() && (#[trigger] clients[i]).address@ == address
                    && clients[i].visible() && if selected.stable_id@.len() > 0 {
                    clients[i].stable_id@ == selected.stable_id@
                } else {
                    clients[i].address@ == selected.address@ && clients[i].class@
                        == selected.class@
                },
            None => forall|i: int|
                0 <= i < clients.len() && (#[trigger] clients[i]).visible() ==> if selected.stable_id@.len()
                    > 0 {
                    clients[i].stable_id@ != selected.stable_id@
                } else {
                    clients[i].address@ != selected.address@ || clients[i].class@
                        != selected.class@
                },
        },
{
    let test = |c: Client| is_selected(selected, c);
    search::lemma_found(clients, test);
    match search::first_where(clients, test) {
        Some(i) => {
            assert(is_selected(selected, clients[i]));
        },
        None => {
            assert forall|i: int|
                0 <= i < clients.len() && (#[trigger] clients[i]).visible() implies if selected.stable_id@.len()
                > 0 {
                clients[i].stable_id@ != selected.stable_id@
            } else {
                clients[i].address@ != selected.address@ || clients[i].class@ != selected.class@
            } by {
                assert(!test(clients[i]));
            }
        },
    }
}

} // verus!
