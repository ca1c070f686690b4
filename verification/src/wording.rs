//! What windows and failures are called.

use vstd::prelude::*;

use crate::hypr::Client;
use crate::strings;
use crate::text;

verus! {

/// A window's name: its class and its title, as far as it has them.
pub open spec fn label_of(client: Client) -> Seq<char> {
    let class = strings::trimmed(client.class@);
    let title = strings::trimmed(client.title@);
    if class.len() == 0 && title.len() == 0 {
        "Untitled window"@
    } else if class.len() == 0 {
        title
    } else if title.len() == 0 {
        class
    } else {
        class + " — "@ + title
    }
}

pub fn client_label(client: &Client) -> (r: String)
    ensures
        r@ == label_of(*client),
{
    let class = strings::trim(client.class.as_str());
    let title = strings::trim(client.title.as_str());
    if class.as_str().is_empty() {
        if title.as_str().is_empty() {
            return "Untitled window".to_owned();
        }
        return title;
    }
    if title.as_str().is_empty() {
        return class;
    }
    let mut label = class;
    label.append(" — ");
    label.append(title.as_str());
    label
}

/// A failure in the user's language.
pub open spec fn explained(raw: Seq<char>) -> Seq<char> {
    let lower = strings::lowered(raw);
    if strings::occurs(lower, "region selection cancelled"@) {
        "Area selection cancelled. Nothing was shared."@
    } else if strings::occurs(lower, "wl-copy"@) {
        "Couldn’t copy the screenshot. Check that wl-copy is installed and try again."@
    } else if strings::occurs(lower, "capture"@) || strings::occurs(lower, "wayland"@)
        || strings::occurs(lower, "selected output"@) {
        "Couldn’t capture the selection. "@ + raw
    } else if strings::occurs(lower, "omarchy share"@) {
        "Couldn’t open LocalSend. Check that Omarchy sharing is available and try again."@
    } else if strings::occurs(lower, "live share"@) || strings::occurs(lower, "bind"@) {
        "Couldn’t start live sharing. "@ + raw
    } else {
        "Something went wrong: "@ + raw
    }
}

fn before(prefix: &str, raw: &str) -> (r: String)
    ensures
        r@ == prefix@ + raw@,
{
    let mut message = prefix.to_owned();
    message.append(raw);
    message
}

pub fn friendly_error(raw: &str) -> (r: String)
    ensures
        r@ == explained(raw@),
{
    let lower = strings::lowercase(raw);
    let l = lower.as_str();
    if strings::contains(l, "region selection cancelled") {
        "Area selection cancelled. Nothing was shared.".to_owned()
    } else if strings::contains(l, "wl-copy") {
        "Couldn’t copy the screenshot. Check that wl-copy is installed and try again.".to_owned()
    } else if strings::contains(l, "capture") || strings::contains(l, "wayland")
        || strings::contains(l, "selected output") {
        before("Couldn’t capture the selection. ", raw)
    } else if strings::contains(l, "omarchy share") {
        "Couldn’t open LocalSend. Check that Omarchy sharing is available and try again.".to_owned()
    } else if strings::contains(l, "live share") || strings::contains(l, "bind") {
        before("Couldn’t start live sharing. ", raw)
    } else {
        before("Something went wrong: ", raw)
    }
}

/// The text, cut to `max` characters with an ellipsis.
pub open spec fn cut(s: Seq<char>, max: nat) -> Seq<char> {
    if s.len() <= max {
        s
    } else if max == 0 {
        seq!['…']
    } else {
        s.take(max - 1).push('…')
    }
}

pub fn truncate(s: &str, max: usize) -> (r: String)
    ensures
        r@ == cut(s@, max as nat),
{
    let chars = text::chars(s);
    if chars.len() <= max {
        return s.to_owned();
    }
    let mut out = strings::part(&chars, 0, max.saturating_sub(1));
    out.push('…');
    assert(out@ =~= cut(s@, max as nat));
    out
}

/// A text that was cut is never longer than it may be, unless no room was left
/// for the ellipsis itself.
pub proof fn cut_texts_fit(s: Seq<char>, max: nat)
    requires
        max >= 1,
    ensures
        cut(s, max).len() <= max,
        s.len() <= max ==> cut(s, max) == s,
{
}

/// A text that is cut begins as it did, and ends in an ellipsis.
pub proof fn cut_texts_begin_as_they_did(s: Seq<char>, max: nat, i: int)
    requires
        max >= 1,
        s.len() > max,
        0 <= i < max - 1,
    ensures
        cut(s, max)[i] == s[i],
        cut(s, max).last() == '…',
        cut(s, max).len() == max,
{
}

} // verus!
