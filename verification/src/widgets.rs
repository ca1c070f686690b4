//! Menus as they are shown.

use vstd::prelude::*;

verus! {

/// An entry of a menu.
#[derive(Debug)]
pub struct Item {
    pub label: String,
    pub checked: bool,
    pub disabled: bool,
}

/// A menu: what its button says, and its entries.
#[derive(Debug)]
pub struct Menu {
    pub label: String,
    pub disabled: bool,
    pub items: Vec<Item>,
}

/// An entry: its label, whether it is checked, whether it is disabled.
pub open spec fn entry(item: Item) -> (Seq<char>, bool, bool) {
    (item.label@, item.checked, item.disabled)
}

impl Menu {
    /// The menu says this and offers exactly these entries.
    pub open spec fn shows(
        self,
        label: Seq<char>,
        disabled: bool,
        entries: Seq<(Seq<char>, bool, bool)>,
    ) -> bool {
        &&& self.label@ == label
        &&& self.disabled == disabled
        &&& self.items@.len() == entries.len()
        &&& forall|i: int|
            0 <= i < entries.len() ==> entry(#[trigger] self.items@[i]) == entries[i]
    }

    pub fn new(label: String, disabled: bool) -> (r: Self)
        ensures
            r.label == label,
            r.shows(label@, disabled, Seq::empty()),
    {
        Menu { label, disabled, items: Vec::new() }
    }

    /// Adds an entry.
    pub fn offer(&mut self, label: String, checked: bool, disabled: bool)
        ensures
            final(self).label == old(self).label,
            final(self).disabled == old(self).disabled,
            final(self).items@ == old(self).items@.push(Item { label, checked, disabled }),
    {
        self.items.push(Item { label, checked, disabled });
    }
}

} // verus!
