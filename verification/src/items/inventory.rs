//! What the player carries.

use crate::items::item::Item;
use crate::shandle::{RefState, SHandle};
use vstd::prelude::*;

verus! {

/// The number of slots of an inventory.
pub const SLOTS: usize = 8;

/// The slot that a picked-up item goes to.
pub const PICKUP_SLOT: usize = 3;

/// Eight slots, each empty or holding a reference to an item.
#[derive(Debug, PartialEq, Eq)]
pub struct Inventory {
    pub contents: [Option<SHandle<Item>>; 8],
}

/// The view of a slot.
pub open spec fn slot_view(slot: Option<SHandle<Item>>) -> Option<RefState> {
    match slot {
        Some(item) => Some(item@),
        None => None,
    }
}

impl View for Inventory {
    type V = Seq<Option<RefState>>;

    open spec fn view(&self) -> Seq<Option<RefState>> {
        Seq::new(8, |i: int| slot_view(self.contents[i]))
    }
}

impl Inventory {
    /// An inventory with nothing in it.
    pub fn new() -> (inventory: Self)
        ensures
            inventory@ == Seq::new(8, |i: int| None::<RefState>),
    {
        let inventory = Inventory { contents: [None, None, None, None, None, None, None, None] };
        assert(inventory@ =~= Seq::new(8, |i: int| None::<RefState>));
        inventory
    }

    /// Puts a picked-up item into the pickup slot, in place of what was
    /// there. The other slots keep what they hold.
    pub fn pick_up(&mut self, item: SHandle<Item>)
        ensures
            final(self)@ == old(self)@.update(PICKUP_SLOT as int, Some(item@)),
    {
        self.contents[PICKUP_SLOT] = Some(item);
        assert(self@ =~= old(self)@.update(PICKUP_SLOT as int, Some(item@)));
    }
}

} // verus!
