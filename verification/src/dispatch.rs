//! The requests that move the picker's own window around, written as Lua
//! expressions for the compositor.

use vstd::prelude::*;

use crate::hypr;
use crate::hypr::Client;
use crate::hypr::Snapshot;
use crate::json;
use crate::portal;
use crate::strings;
use crate::text;

verus! {

#[derive(Debug, PartialEq, Eq)]
pub enum Error {
    /// The query is not among those that are passed on.
    Unsupported(String),
    /// The compositor's answer to the query is no JSON document.
    InvalidJson(String),
}

impl Error {
    pub open spec fn text(self) -> Seq<char> {
        match self {
            Error::Unsupported(command) => "unsupported Hyprland query: "@ + command@,
            Error::InvalidJson(command) => "invalid Hyprland "@ + command@ + " JSON"@,
        }
    }

    pub fn message(&self) -> (r: String)
        ensures
            r@ == self.text(),
    {
        match self {
            Error::Unsupported(command) => joined("unsupported Hyprland query: ", command),
            Error::InvalidJson(command) => around("invalid Hyprland ", command, " JSON"),
        }
    }
}

fn joined(before: &str, after: &str) -> (r: String)
    ensures
        r@ == before@ + after@,
{
    let mut all = before.to_owned();
    all.append(after);
    all
}

fn around(before: &str, middle: &str, after: &str) -> (r: String)
    ensures
        r@ == before@ + middle@ + after@,
{
    let mut all = before.to_owned();
    all.append(middle);
    all.append(after);
    all
}

/// The query may be passed on.
pub open spec fn supported(command: Seq<char>) -> bool {
    ||| command == "clients"@
    ||| command == "monitors"@
    ||| command == "workspaces"@
    ||| command == "activeworkspace"@
    ||| command == "activewindow"@
    ||| command == "version"@
    ||| command == "configerrors"@
}

/// The request for compositor metadata; its answer is for `query_reply`.
pub fn query(command: &str) -> (r: Result<String, Error>)
    ensures
        match r {
            Ok(request) => supported(command@) && request@ == "j/"@ + command@,
            Err(error) => !supported(command@) && error.text() == "unsupported Hyprland query: "@
                + command@,
        },
{
    if text::same(command, "clients") || text::same(command, "monitors") || text::same(
        command,
        "workspaces",
    ) || text::same(command, "activeworkspace") || text::same(command, "activewindow")
        || text::same(command, "version") || text::same(command, "configerrors") {
        Ok(joined("j/", command))
    } else {
        Err(Error::Unsupported(command.to_owned()))
    }
}

/// The compositor's answer to a query, which has to be JSON.
pub fn query_reply(command: &str, reply: String) -> (r: Result<String, Error>)
    ensures
        match r {
            Ok(answer) => json::json_valid(vstd::utf8::encode_utf8(reply@)) && answer == reply,
            Err(error) => !json::json_valid(vstd::utf8::encode_utf8(reply@)) && error.text()
                == "invalid Hyprland "@ + command@ + " JSON"@,
        },
{
    checked_reply(command, json::is_valid(reply.as_str().as_bytes()), reply)
}

/// The answer to a query, given whether it is JSON.
pub fn checked_reply(command: &str, valid: bool, reply: String) -> (r: Result<String, Error>)
    ensures
        match r {
            Ok(answer) => valid && answer == reply,
            Err(error) => !valid && error.text() == "invalid Hyprland "@ + command@ + " JSON"@,
        },
{
    if valid {
        Ok(reply)
    } else {
        Err(Error::InvalidJson(command.to_owned()))
    }
}

/// The request to read the configuration again.
pub fn reload() -> (r: String)
    ensures
        r@ == "/reload"@,
{
    "/reload".to_owned()
}

/// The request to evaluate a Lua expression.
pub fn dispatch_lua(expr: &str) -> (r: String)
    ensures
        r@ == "/dispatch "@ + expr@,
{
    joined("/dispatch ", expr)
}

/// A character inside a Lua string.
pub open spec fn lua_escaped(s: Seq<char>) -> Seq<char>
    decreases s.len(),
{
    if s.len() == 0 {
        Seq::empty()
    } else if s[0] == '\\' || s[0] == '"' {
        seq!['\\', s[0]] + lua_escaped(s.drop_first())
    } else {
        seq![s[0]] + lua_escaped(s.drop_first())
    }
}

/// What a Lua string with these characters between its quotes holds; nothing
/// where a quote among them ends it.
pub open spec fn lua_read(s: Seq<char>) -> Option<Seq<char>>
    decreases s.len(),
{
    if s.len() == 0 {
        Some(Seq::empty())
    } else if s[0] == '"' {
        None
    } else if s[0] == '\\' {
        if s.len() < 2 {
            None
        } else {
            match lua_read(s.skip(2)) {
                Some(rest) => Some(seq![s[1]] + rest),
                None => None,
            }
        }
    } else {
        match lua_read(s.drop_first()) {
            Some(rest) => Some(seq![s[0]] + rest),
            None => None,
        }
    }
}

/// A quoted value reads back as it was: no character of it ends the string.
pub proof fn quoted_values_are_read_back(s: Seq<char>)
    ensures
        lua_read(lua_escaped(s)) == Some(s),
    decreases s.len(),
{
    if s.len() > 0 {
        let rest = s.drop_first();
        quoted_values_are_read_back(rest);
        let e = lua_escaped(s);
        if s[0] == '\\' || s[0] == '"' {
            assert(e.skip(2) =~= lua_escaped(rest));
        } else {
            assert(e.drop_first() =~= lua_escaped(rest));
        }
        assert(seq![s[0]] + rest =~= s);
    }
}

/// A control character.
pub open spec fn is_control(c: char) -> bool {
    (c as int) < 0x20 || c as int == 0x7f
}

fn control(c: char) -> (r: bool)
    ensures
        r == is_control(c),
{
    (c as u32) < 0x20 || c as u32 == 0x7f
}

/// The value can be quoted.
pub open spec fn quotable(s: Seq<char>) -> bool {
    &&& s.len() > 0
    &&& vstd::utf8::encode_utf8(s).len() <= 128
    &&& forall|i: int| 0 <= i < s.len() ==> !is_control(#[trigger] s[i])
}

/// The value as a Lua string.
pub open spec fn lua_quoted(s: Seq<char>) -> Seq<char> {
    seq!['"'] + lua_escaped(s) + seq!['"']
}

/// A value as a Lua string. Empty, long and control values are refused.
pub fn lua_quote(value: &str) -> (r: Option<String>)
    ensures
        match r {
            Some(quoted) => quotable(value@) && quoted@ == lua_quoted(value@),
            None => !quotable(value@),
        },
{
    if value.is_empty() || value.as_bytes().len() > 128 {
        assert(value@.len() > 0 ==> vstd::utf8::encode_utf8(value@).len() > 128);
        return None;
    }
    let chars = text::chars(value);
    let mut out = String::new();
    out.push('"');
    let mut i: usize = 0;
    assert(value@.skip(0) =~= value@);
    while i < chars.len()
        invariant
            chars@ == value@,
            0 < value@.len(),
            vstd::utf8::encode_utf8(value@).len() <= 128,
            i <= chars@.len(),
            out@ + lua_escaped(value@.skip(i as int)) =~= seq!['"'] + lua_escaped(value@),
            forall|k: int| 0 <= k < i ==> !is_control(#[trigger] value@[k]),
        decreases chars@.len() - i,
    {
        let c: char = chars[i];
        if control(c) {
            assert(is_control(value@[i as int]));
            return None;
        }
        let ghost rest = value@.skip(i as int);
        assert(rest.drop_first() =~= value@.skip(i + 1));
        if c == '\\' || c == '"' {
            out.push('\\');
        }
        out.push(c);
        i = i + 1;
    }
    assert(lua_escaped(value@.skip(i as int)) =~= Seq::<char>::empty());
    out.push('"');
    Some(out)
}

/// How a window is named in a Lua expression: the picker's class, or an
/// address of at most sixteen digits.
pub open spec fn window_lua(selector: Seq<char>) -> Option<Seq<char>> {
    let hex = selector.skip("address:0x"@.len() as int);
    if selector == "class:omabeam"@ {
        Some("\"class:omabeam\""@)
    } else if strings::starts(selector, "address:0x"@) && 0 < hex.len() <= 16 && strings::all_hex(
        hex,
    ) {
        Some("\"address:0x"@ + hex + "\""@)
    } else {
        None
    }
}

/// The text is what is expected, or neither is there.
pub open spec fn is_text(r: Option<String>, expected: Option<Seq<char>>) -> bool {
    match r {
        Some(s) => expected == Some(s@),
        None => expected is None,
    }
}

pub fn lua_window_selector(selector: &str) -> (r: Option<String>)
    ensures
        is_text(r, window_lua(selector@)),
{
    if text::same(selector, "class:omabeam") {
        return Some("\"class:omabeam\"".to_owned());
    }
    match strings::strip_prefix(selector, "address:0x") {
        Some(hex) => {
            let digits = text::chars(hex.as_str());
            if digits.len() == 0 || digits.len() > 16 || !strings::only_hex(hex.as_str()) {
                None
            } else {
                Some(around("\"address:0x", hex.as_str(), "\""))
            }
        },
        None => None,
    }
}

/// Every window name is a Lua string that holds no quote and no backslash, so
/// nothing in a selector can end it.
pub proof fn window_names_cannot_be_broken_out_of(selector: Seq<char>)
    ensures
        match window_lua(selector) {
            Some(name) => {
                &&& name.len() > 2
                &&& name[0] == '"' && name.last() == '"'
                &&& forall|i: int|
                    0 < i < name.len() - 1 ==> #[trigger] name[i] != '"' && name[i] != '\\'
            },
            None => true,
        },
{
    reveal_strlit("\"class:omabeam\"");
    reveal_strlit("\"address:0x");
    reveal_strlit("\"");
}

/// The window name in place of the blank in an expression.
pub open spec fn filled(
    selector: Seq<char>,
    before: Seq<char>,
    after: Seq<char>,
) -> Option<Seq<char>> {
    match window_lua(selector) {
        Some(name) => Some(before + name + after),
        None => None,
    }
}

fn fill(selector: &str, before: &str, after: &str) -> (r: Option<String>)
    ensures
        is_text(r, filled(selector@, before@, after@)),
{
    match lua_window_selector(selector) {
        Some(name) => Some(around(before, name.as_str(), after)),
        None => None,
    }
}

/// Moves the window to the picker's own special workspace, which no output
/// shows, without following it there.
pub fn hide_picker_lua(selector: &str) -> (r: Option<String>)
    ensures
        is_text(
            r,
            filled(
                selector@,
                "hl.dsp.window.move({ workspace = \"special:omabeam\", follow = false, window = "@,
                " })"@,
            ),
        ),
{
    fill(
        selector,
        "hl.dsp.window.move({ workspace = \"special:omabeam\", follow = false, window = ",
        " })",
    )
}

/// Lets screen shares show the window again.
pub fn clear_screen_mask_lua(selector: &str) -> (r: Option<String>)
    ensures
        is_text(
            r,
            filled(
                selector@,
                "hl.dsp.window.set_prop({ prop = \"no_screen_share\", value = \"0\", window = "@,
                " })"@,
            ),
        ),
{
    fill(
        selector,
        "hl.dsp.window.set_prop({ prop = \"no_screen_share\", value = \"0\", window = ",
        " })",
    )
}

/// How a window is selected by its address.
pub open spec fn address_of(client: Client) -> Option<Seq<char>> {
    match portal::address_value(client.address@) {
        Some(n) => Some("address:0x"@ + strings::hexadecimal(n as nat)),
        None => None,
    }
}

pub fn address_selector(client: &Client) -> (r: Option<String>)
    ensures
        is_text(r, address_of(*client)),
{
    match portal::parse_address(client.address.as_str()) {
        Some(n) => {
            let mut selector = "address:0x".to_owned();
            strings::push_hexadecimal(&mut selector, n);
            Some(selector)
        },
        None => None,
    }
}

/// The first of the picker's own windows.
pub open spec fn first_own(clients: Seq<Client>) -> Option<Client>
    decreases clients.len(),
{
    if clients.len() == 0 {
        None
    } else if clients[0].own() {
        Some(clients[0])
    } else {
        first_own(clients.drop_first())
    }
}

fn find_own(clients: &Vec<Client>) -> (r: Option<usize>)
    ensures
        match r {
            Some(i) => i < clients@.len() && first_own(clients@) == Some(clients@[i as int]),
            None => first_own(clients@) is None,
        },
{
    let mut i: usize = 0;
    assert(clients@.skip(0) =~= clients@);
    while i < clients.len()
        invariant
            i <= clients@.len(),
            first_own(clients@) == first_own(clients@.skip(i as int)),
        decreases clients@.len() - i,
    {
        let ghost rest = clients@.skip(i as int);
        assert(rest[0] == clients@[i as int]);
        assert(rest.drop_first() =~= clients@.skip(i + 1));
        if clients[i].is_picker() {
            return Some(i);
        }
        i = i + 1;
    }
    None
}

/// How a window of the picker is selected: by its address where it is known.
pub open spec fn selector_of(client: Option<Client>) -> Seq<char> {
    match client {
        Some(client) => match address_of(client) {
            Some(selector) => selector,
            None => "class:omabeam"@,
        },
        None => "class:omabeam"@,
    }
}

/// How the picker's window is selected, given the session where it is known.
pub open spec fn picker_of(snapshot: Option<&Snapshot>) -> Seq<char> {
    match snapshot {
        Some(snapshot) => selector_of(first_own(snapshot.clients@)),
        None => "class:omabeam"@,
    }
}

pub fn picker_selector(snapshot: Option<&Snapshot>) -> (r: String)
    ensures
        r@ == picker_of(snapshot),
{
    if let Some(snapshot) = snapshot {
        if let Some(i) = find_own(&snapshot.clients) {
            if let Some(selector) = address_selector(&snapshot.clients[i]) {
                return selector;
            }
        }
    }
    "class:omabeam".to_owned()
}

/// The picker can always be named in an expression.
pub proof fn the_picker_can_always_be_named(snapshot: Option<&Snapshot>)
    ensures
        window_lua(picker_of(snapshot)) is Some,
{
    reveal_strlit("class:omabeam");
    reveal_strlit("address:0x");
    if let Some(snapshot) = snapshot {
        if let Some(client) = first_own(snapshot.clients@) {
            if let Some(n) = portal::address_value(client.address@) {
                lemma_address_range(client.address@);
                strings::lemma_hexadecimal_digits(n as nat);
                let digits = strings::hexadecimal(n as nat);
                let selector = "address:0x"@ + digits;
                assert(selector.subrange(0, 10) =~= "address:0x"@);
                assert(selector.skip(10) =~= digits);
                assert(strings::stands_at(selector, "address:0x"@, 0));
            }
        }
    }
}

proof fn lemma_address_range(s: Seq<char>)
    ensures
        portal::address_value(s) matches Some(n) ==> 0 <= n <= u64::MAX,
{
    let t = strings::trimmed(s);
    strings::lemma_number_range(t.skip(2), 16, u64::MAX as int);
    strings::lemma_number_range(t, 10, u64::MAX as int);
    strings::lemma_number_range(t, 16, u64::MAX as int);
}

/// The expressions that fill the blank with a window.
pub open spec fn picker_expressions(
    selector: Seq<char>,
    parts: Seq<(Seq<char>, Seq<char>)>,
) -> Seq<Seq<char>>
    decreases parts.len(),
{
    if parts.len() == 0 {
        Seq::empty()
    } else {
        let last = parts.last();
        let before = picker_expressions(selector, parts.drop_last());
        match filled(selector, last.0, last.1) {
            Some(expression) => before.push(expression),
            None => before,
        }
    }
}

/// The strings are these texts.
pub open spec fn are_texts(list: Seq<String>, texts: Seq<Seq<char>>) -> bool {
    list.len() == texts.len() && forall|i: int| 0 <= i < list.len() ==> (#[trigger] list[i])@ == texts[i]
}

fn fill_all(selector: &str, parts: &Vec<(&str, &str)>) -> (r: Vec<String>)
    ensures
        are_texts(
            r@,
            picker_expressions(
                selector@,
                Seq::new(parts@.len(), |i: int| (parts@[i].0@, parts@[i].1@)),
            ),
        ),
{
    let ghost all = Seq::new(parts@.len(), |i: int| (parts@[i].0@, parts@[i].1@));
    let mut list: Vec<String> = Vec::new();
    let mut i: usize = 0;
    assert(all.take(0) =~= Seq::empty());
    while i < parts.len()
        invariant
            i <= parts@.len(),
            all == Seq::new(parts@.len(), |i: int| (parts@[i].0@, parts@[i].1@)),
            are_texts(list@, picker_expressions(selector@, all.take(i as int))),
        decreases parts@.len() - i,
    {
        let ghost some = all.take(i + 1);
        assert(some.drop_last() =~= all.take(i as int));
        assert(some.last() == (parts@[i as int].0@, parts@[i as int].1@));
        if let Some(expression) = fill(selector, parts[i].0, parts[i].1) {
            list.push(expression);
        }
        i = i + 1;
    }
    assert(all.take(i as int) =~= all);
    list
}

/// What hides the picker, in order: nothing of it may stay on an output.
pub open spec fn hiding() -> Seq<(Seq<char>, Seq<char>)> {
    seq![
        (
            "hl.dsp.window.set_prop({ prop = \"no_screen_share\", value = \"0\", window = "@,
            " })"@,
        ),
        ("hl.dsp.window.resize({ x = 1, y = 1, relative = false, window = "@, " })"@),
        ("hl.dsp.window.move({ x = -5000, y = -5000, relative = false, window = "@, " })"@),
        (
            "hl.dsp.window.move({ workspace = \"special:omabeam\", follow = false, window = "@,
            " })"@,
        ),
    ]
}

/// The expressions that hide the picker. `hide_overlay` tells what is left to
/// do once they have been evaluated.
pub fn hide_picker(snapshot: Option<&Snapshot>) -> (r: Vec<String>)
    ensures
        are_texts(r@, picker_expressions(picker_of(snapshot), hiding())),
{
    let selector = picker_selector(snapshot);
    let mut parts: Vec<(&str, &str)> = Vec::new();
    parts.push(
        ("hl.dsp.window.set_prop({ prop = \"no_screen_share\", value = \"0\", window = ", " })"),
    );
    parts.push(("hl.dsp.window.resize({ x = 1, y = 1, relative = false, window = ", " })"));
    parts.push(("hl.dsp.window.move({ x = -5000, y = -5000, relative = false, window = ", " })"));
    parts.push(
        ("hl.dsp.window.move({ workspace = \"special:omabeam\", follow = false, window = ", " })"),
    );
    assert(Seq::new(parts@.len(), |i: int| (parts@[i].0@, parts@[i].1@)) =~= hiding());
    fill_all(selector.as_str(), &parts)
}

/// What gives the shown picker its size and place.
pub open spec fn restoring() -> Seq<(Seq<char>, Seq<char>)> {
    seq![
        ("hl.dsp.window.resize({ x = 980, y = 680, relative = false, window = "@, " })"@),
        ("hl.dsp.window.center({ window = "@, " })"@),
    ]
}

/// The expressions that give the picker its size and place again, once it is
/// shown.
pub fn restore_picker(snapshot: Option<&Snapshot>) -> (r: Vec<String>)
    ensures
        are_texts(r@, picker_expressions(picker_of(snapshot), restoring())),
{
    let selector = picker_selector(snapshot);
    let mut parts: Vec<(&str, &str)> = Vec::new();
    parts.push(("hl.dsp.window.resize({ x = 980, y = 680, relative = false, window = ", " })"));
    parts.push(("hl.dsp.window.center({ window = ", " })"));
    assert(Seq::new(parts@.len(), |i: int| (parts@[i].0@, parts@[i].1@)) =~= restoring());
    fill_all(selector.as_str(), &parts)
}

/// Some workspace of the picker is shown over a monitor.
pub open spec fn overlay_shown(snapshot: Snapshot) -> bool {
    exists|i: int|
        0 <= i < snapshot.monitors@.len() && strings::occurs(
            (#[trigger] snapshot.monitors@[i]).special_workspace.name@,
            "omabeam"@,
        )
}

pub fn omabeam_overlay_visible(snapshot: &Snapshot) -> (r: bool)
    ensures
        r == overlay_shown(*snapshot),
{
    let mut i: usize = 0;
    while i < snapshot.monitors.len()
        invariant
            i <= snapshot.monitors@.len(),
            forall|j: int|
                0 <= j < i ==> !strings::occurs(
                    (#[trigger] snapshot.monitors@[j]).special_workspace.name@,
                    "omabeam"@,
                ),
        decreases snapshot.monitors@.len() - i,
    {
        if strings::contains(snapshot.monitors[i].special_workspace.name.as_str(), "omabeam") {
            assert(strings::occurs(
                snapshot.monitors@[i as int].special_workspace.name@,
                "omabeam"@,
            ));
            return true;
        }
        i = i + 1;
    }
    false
}

/// The expression that takes the picker's workspace off the monitors, where
/// the session shows it.
pub fn hide_overlay(snapshot: Option<&Snapshot>) -> (r: Option<String>)
    ensures
        is_text(
            r,
            if snapshot is Some && overlay_shown(*snapshot->0) {
                Some("hl.dsp.workspace.toggle_special(\"omabeam\")"@)
            } else {
                None
            },
        ),
{
    match snapshot {
        Some(snapshot) => if omabeam_overlay_visible(snapshot) {
            Some("hl.dsp.workspace.toggle_special(\"omabeam\")".to_owned())
        } else {
            None
        },
        None => None,
    }
}

/// A workspace that is not special.
pub open spec fn regular(name: Seq<char>) -> bool {
    !strings::occurs(name, "special"@)
}

/// The regular workspace in use: the focused monitor's, else the active one,
/// else the first.
pub open spec fn in_use(snapshot: Option<&Snapshot>) -> Seq<char> {
    match snapshot {
        Some(snapshot) => match hypr::monitor_at(
            snapshot.monitors@,
            hypr::focused_index(snapshot.monitors@),
        ) {
            Some(monitor) if regular(monitor.active_workspace.name@) =>
                monitor.active_workspace.name@,
            _ => if regular(snapshot.active_workspace.name@) {
                snapshot.active_workspace.name@
            } else {
                "1"@
            },
        },
        None => "1"@,
    }
}

pub fn current_regular_workspace(snapshot: Option<&Snapshot>) -> (r: String)
    ensures
        r@ == in_use(snapshot),
{
    let snapshot = match snapshot {
        Some(snapshot) => snapshot,
        None => {
            return "1".to_owned();
        },
    };
    if let Some(i) = hypr::focused_place(&snapshot.monitors) {
        let name = snapshot.monitors[i].active_workspace.name.clone();
        if !strings::contains(name.as_str(), "special") {
            return name;
        }
    }
    let name = snapshot.active_workspace.name.clone();
    if !strings::contains(name.as_str(), "special") {
        return name;
    }
    "1".to_owned()
}

/// The picker is moved to a workspace.
pub open spec fn shown_on(workspace: Seq<char>, selector: Seq<char>) -> Option<Seq<char>> {
    let quoted = if quotable(workspace) { lua_quoted(workspace) } else { "\"1\""@ };
    filled(selector, "hl.dsp.window.move({ workspace = "@ + quoted + ", window = "@, " })"@)
}

/// The expression that brings the picker to the regular workspace in use.
pub fn show_picker(snapshot: Option<&Snapshot>, current: Option<&Snapshot>) -> (r: Option<String>)
    ensures
        is_text(r, shown_on(in_use(current), picker_of(snapshot))),
{
    let selector = picker_selector(snapshot);
    let workspace = current_regular_workspace(current);
    let quoted = match lua_quote(workspace.as_str()) {
        Some(quoted) => quoted,
        None => "\"1\"".to_owned(),
    };
    let before = around("hl.dsp.window.move({ workspace = ", quoted.as_str(), ", window = ");
    fill(selector.as_str(), before.as_str(), " })")
}

/// What to do with a picker that is already open.
#[derive(Debug, PartialEq, Eq)]
pub enum Activation {
    /// None is open.
    Absent,
    /// It streams: hide it, and give the focus back.
    Hide,
    /// It is put away: evaluate the expression if there is one, then show and
    /// restore it.
    Restore(Option<String>),
    /// It is in sight: evaluate the expression if there is one.
    Focus(Option<String>),
}

pub open spec fn is_activation(snapshot: Option<&Snapshot>, live: bool, r: Activation) -> bool {
    let own = match snapshot {
        Some(snapshot) => first_own(snapshot.clients@),
        None => None,
    };
    match own {
        None => r == Activation::Absent,
        Some(client) => if live {
            r == Activation::Hide
        } else if strings::occurs(client.workspace.name@, "special"@) {
            &&& r is Restore
            &&& is_text(
                r->Restore_0,
                if overlay_shown(*snapshot->0) {
                    None
                } else {
                    Some("hl.dsp.workspace.toggle_special(\"omabeam\")"@)
                },
            )
        } else {
            &&& r is Focus
            &&& is_text(
                r->Focus_0,
                filled(selector_of(own), "hl.dsp.focus({ window = "@, " })"@),
            )
        },
    }
}

/// Decides what to do instead of opening a second picker.
pub fn activate_existing_picker(snapshot: Option<&Snapshot>, live: bool) -> (r: Activation)
    ensures
        is_activation(snapshot, live, r),
{
    let snapshot = match snapshot {
        Some(snapshot) => snapshot,
        None => {
            return Activation::Absent;
        },
    };
    let client = match find_own(&snapshot.clients) {
        Some(i) => &snapshot.clients[i],
        None => {
            return Activation::Absent;
        },
    };
    if live {
        return Activation::Hide;
    }
    if strings::contains(client.workspace.name.as_str(), "special") {
        if omabeam_overlay_visible(snapshot) {
            Activation::Restore(None)
        } else {
            Activation::Restore(Some("hl.dsp.workspace.toggle_special(\"omabeam\")".to_owned()))
        }
    } else {
        let selector = match address_selector(client) {
            Some(selector) => selector,
            None => "class:omabeam".to_owned(),
        };
        Activation::Focus(fill(selector.as_str(), "hl.dsp.focus({ window = ", " })"))
    }
}

/// The expression that gives the focus back to the window that last had it.
pub fn focus_last() -> (r: String)
    ensures
        r@ == "hl.dsp.focus({ last = true })"@,
{
    "hl.dsp.focus({ last = true })".to_owned()
}

/// The focus would stay on the picker or nowhere.
pub open spec fn focus_is_lost(class: Option<Seq<char>>) -> bool {
    match class {
        Some(class) => class == "omabeam"@ || class.len() == 0,
        None => true,
    }
}

/// The expression that passes the focus on, where after `focus_last` the
/// picker still has it. `reply` is the compositor's description of the active
/// window.
pub fn release_live_focus(reply: Option<&str>) -> (r: Option<String>)
    ensures
        is_text(
            r,
            if focus_is_lost(
                match reply {
                    Some(reply) => json::json_string(
                        vstd::utf8::encode_utf8(reply@),
                        "class"@,
                    ),
                    None => None,
                },
            ) {
                Some("hl.dsp.window.cycle_next({ tiled = true })"@)
            } else {
                None
            },
        ),
{
    match reply {
        Some(reply) => pass_focus_on(json::string_at(reply.as_bytes(), "class")),
        None => pass_focus_on(None),
    }
}

/// The expression that passes the focus on from a window of the given class.
pub fn pass_focus_on(class: Option<String>) -> (r: Option<String>)
    ensures
        is_text(
            r,
            if focus_is_lost(
                match class {
                    Some(class) => Some(class@),
                    None => None,
                },
            ) {
                Some("hl.dsp.window.cycle_next({ tiled = true })"@)
            } else {
                None
            },
        ),
{
    let lost = match &class {
        Some(class) => text::same(class.as_str(), "omabeam") || class.as_str().is_empty(),
        None => true,
    };
    if lost {
        Some("hl.dsp.window.cycle_next({ tiled = true })".to_owned())
    } else {
        None
    }
}

/// A window is selected by its own address: what stands behind the selector's
/// colon is read as the address that the compositor reported.
pub proof fn selectors_hold_the_address(client: Client)
    requires
        portal::address_value(client.address@) != Some(0int),
    ensures
        address_of(client) matches Some(selector) ==> {
            &&& strings::before(selector, ':') == "address"@
            &&& portal::address_value(strings::behind(selector, ':')) == portal::address_value(
                client.address@,
            )
        },
{
    if let Some(n) = portal::address_value(client.address@) {
        lemma_address_range(client.address@);
        let hex = strings::hexadecimal(n as nat);
        let address = "0x"@ + hex;
        strings::hexadecimals_are_read_back(n as nat);
        strings::lemma_hexadecimal_digits(n as nat);
        reveal_strlit("address:0x");
        reveal_strlit("address");
        reveal_strlit("0x");
        reveal_strlit("0X");
        reveal_strlit("0");
        reveal_strlit("0x0");
        assert("address:0x"@ + hex =~= "address"@ + seq![':'] + address);
        strings::lemma_parted("address"@, ':', address);
        assert(strings::is_hex(hex[0]) && strings::is_hex(hex.last()));
        lemma_no_space(address);
        assert(address.skip(2) =~= hex);
        assert(strings::starts(address, "0x"@)) by {
            assert(address.subrange(0, 2) =~= "0x"@);
        }
        if strings::same_ignoring_case(address, "0x0"@) {
            assert(hex.len() == 1);
            assert(strings::lower(address[2]) == strings::lower("0x0"@[2]));
            assert(hex[0] == '0');
            assert(strings::digits_value(hex, 16) == Some(0int)) by {
                assert(hex.drop_last() =~= Seq::empty());
                assert(strings::digits_value(hex.drop_last(), 16) == Some(0int));
            }
        }
    }
}

/// Nothing is trimmed off a text without spaces around it.
proof fn lemma_no_space(s: Seq<char>)
    requires
        s.len() > 0,
        !strings::is_space(s[0]),
        !strings::is_space(s.last()),
    ensures
        strings::trimmed(s) == s,
{
}

/// The picker comes back on a regular workspace, the focused monitor's where
/// that is one.
pub proof fn the_picker_returns_to_a_regular_workspace(snapshot: Option<&Snapshot>)
    ensures
        regular(in_use(snapshot)),
        snapshot matches Some(s) ==> match hypr::monitor_at(
            s.monitors@,
            hypr::focused_index(s.monitors@),
        ) {
            Some(monitor) => regular(monitor.active_workspace.name@) ==> in_use(snapshot)
                == monitor.active_workspace.name@,
            None => regular(s.active_workspace.name@) ==> in_use(snapshot)
                == s.active_workspace.name@,
        },
{
    reveal_strlit("1");
    reveal_strlit("special");
    assert(regular("1"@));
}

} // verus!
