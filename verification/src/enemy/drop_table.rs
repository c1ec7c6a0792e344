//! What an enemy leaves behind.

use crate::asset::{holds_path, AssetView, SHandleLoad};
use crate::items::item::Item;
use crate::kind::{AssetKind, ChildRef};
use crate::scalar::Scalar;
use crate::search::{
    first_index, is_first, lemma_first_index_found, lemma_first_index_is,
    lemma_first_index_none, lemma_weight_update, lemma_weight_zero, weight,
};
use crate::shandle::{Handle, RefState, SHandle};
use vstd::prelude::*;

verus! {

/// The items an enemy may drop, in order, each with the probability,
/// between zero and one, with which it drops.
#[derive(Clone, Debug, PartialEq, Eq)]
pub struct DropTable {
    pub drops: Vec<(SHandle<Item>, Scalar)>,
}

/// A `DropTable` as a mathematical value.
pub struct DropTableView {
    pub drops: Seq<(RefState, Scalar)>,
}

impl View for DropTable {
    type V = DropTableView;

    open spec fn view(&self) -> DropTableView {
        DropTableView { drops: self.drops@.map_values(|d: (SHandle<Item>, Scalar)| (d.0@, d.1)) }
    }
}

/// The property of an entry of waiting for its item.
pub open spec fn drop_is_pending() -> spec_fn((RefState, Scalar)) -> bool {
    |d: (RefState, Scalar)| d.0 is Unresolved
}

/// One for an entry that waits for its item, zero for another.
pub open spec fn drop_weight() -> spec_fn((RefState, Scalar)) -> nat {
    |d: (RefState, Scalar)|
        if d.0 is Unresolved {
            1nat
        } else {
            0nat
        }
}

/// The items, in the order of the table, whose roll came out true. An
/// entry without a roll does not drop.
pub open spec fn picked(drops: Seq<(RefState, Scalar)>, rolls: Seq<bool>) -> Seq<RefState>
    decreases drops.len(),
{
    if drops.len() == 0 {
        Seq::empty()
    } else {
        let last = drops.len() - 1;
        let before = picked(drops.drop_last(), rolls);
        if last < rolls.len() && rolls[last] {
            before.push(drops[last].0)
        } else {
            before
        }
    }
}

impl DropTableView {
    /// The path of the first item, in the order of the table, that is not
    /// loaded yet.
    pub open spec fn pending(self) -> Option<Seq<char>> {
        match first_index(self.drops, drop_is_pending()) {
            Some(i) => Some(self.drops[i].0->Unresolved_0),
            None => None,
        }
    }

    /// The table with the first unresolved reference resolved to `id`.
    pub open spec fn resolve_first(self, id: u64) -> DropTableView {
        match first_index(self.drops, drop_is_pending()) {
            Some(i) => DropTableView {
                drops: self.drops.update(i, (RefState::Resolved(id), self.drops[i].1)),
            },
            None => self,
        }
    }

    /// How many references are not resolved.
    pub open spec fn unresolved(self) -> nat {
        weight(self.drops, drop_weight())
    }

    /// Whether every reference to an item satisfies `p`.
    pub open spec fn all_items(self, p: spec_fn(RefState) -> bool) -> bool {
        forall|i: int| 0 <= i < self.drops.len() ==> p((#[trigger] self.drops[i]).0)
    }
}

/// A table waits for an item exactly as long as one of its references is
/// unresolved.
pub proof fn lemma_drops_pending(table: DropTableView)
    ensures
        table.pending() is None <==> table.all_items(|r: RefState| r is Resolved),
        table.pending() is None ==> table.unresolved() == 0,
{
    lemma_first_index_found(table.drops, drop_is_pending());
    if table.pending() is None {
        assert forall|i: int| 0 <= i < table.drops.len() implies (#[trigger] table.drops[i]).0 is Resolved by {
            assert(!drop_is_pending()(table.drops[i]));
        }
        assert forall|i: int| 0 <= i < table.drops.len() implies drop_weight()(
            #[trigger] table.drops[i],
        ) == 0 by {
            assert(!drop_is_pending()(table.drops[i]));
        }
        lemma_weight_zero(table.drops, drop_weight());
    } else {
        let i = first_index(table.drops, drop_is_pending()).unwrap();
        assert(drop_is_pending()(table.drops[i]));
        assert(!(table.drops[i].0 is Resolved));
    }
}

/// Resolving the first unresolved reference of a table that has one
/// leaves one reference fewer unresolved, and keeps every property that
/// all references had and that a reference resolved to `id` has.
pub proof fn lemma_drops_resolve(table: DropTableView, id: u64, p: spec_fn(RefState) -> bool)
    requires
        table.pending() is Some,
    ensures
        table.resolve_first(id).unresolved() < table.unresolved(),
        table.all_items(p) && p(RefState::Resolved(id)) ==> table.resolve_first(id).all_items(p),
{
    lemma_first_index_found(table.drops, drop_is_pending());
    let i = first_index(table.drops, drop_is_pending()).unwrap();
    assert(drop_is_pending()(table.drops[i]));
    let after = (RefState::Resolved(id), table.drops[i].1);
    assert(drop_weight()(after) < drop_weight()(table.drops[i]));
    lemma_weight_update(table.drops, drop_weight(), i, after);
    if table.all_items(p) && p(RefState::Resolved(id)) {
        let then = table.resolve_first(id);
        assert forall|k: int| 0 <= k < then.drops.len() implies p((#[trigger] then.drops[k]).0) by {
            if k != i {
                assert(p(table.drops[k].0));
            }
        }
    }
}

/// The order of the traversal: while an entry waits for its item, the next
/// item is that of this entry or of one before it, and resolving it leaves
/// every later entry as it is.
pub proof fn lemma_drops_in_order(table: DropTableView, early: int, late: int, id: u64)
    requires
        0 <= early < late < table.drops.len(),
        table.drops[early].0 is Unresolved,
    ensures
        first_index(table.drops, drop_is_pending()) matches Some(k) && k <= early
            && table.pending() == Some(table.drops[k].0->Unresolved_0),
        table.resolve_first(id).drops[late] == table.drops[late],
{
    assert(drop_is_pending()(table.drops[early]));
    lemma_first_index_found(table.drops, drop_is_pending());
    let k = first_index(table.drops, drop_is_pending()).unwrap();
    if early < k {
        assert(!drop_is_pending()(table.drops[early]));
    }
}

impl DropTable {
    /// The position of the first entry that waits for its item.
    fn pending_index(&self) -> (r: Option<usize>)
        ensures
            match r {
                Some(i) => first_index(self@.drops, drop_is_pending()) == Some(i as int),
                None => first_index(self@.drops, drop_is_pending()) is None,
            },
    {
        let mut i: usize = 0;
        while i < self.drops.len()
            invariant
                i <= self.drops.len(),
                forall|k: int| 0 <= k < i ==> !drop_is_pending()(#[trigger] self@.drops[k]),
            decreases self.drops.len() - i,
        {
            if !self.drops[i].0.is_loaded() {
                proof {
                    assert(is_first(self@.drops, drop_is_pending(), i as int));
                    lemma_first_index_is(self@.drops, drop_is_pending(), i as int);
                }
                return Some(i);
            }
            i = i + 1;
        }
        proof {
            lemma_first_index_none(self@.drops, drop_is_pending());
        }
        None
    }

    /// The path of the next item this table waits for.
    pub fn next_item(&self) -> (path: Option<String>)
        ensures
            match path {
                Some(p) => self@.pending() == Some(p@),
                None => self@.pending() is None,
            },
    {
        match self.pending_index() {
            Some(i) => match self.drops[i].0.path() {
                Ok(path) => Some(path),
                Err(_) => None,
            },
            None => None,
        }
    }

    /// Resolves the reference that `next_item` names to the slot `id`. A
    /// table without one stays as it is.
    fn resolve_item(&mut self, id: u64)
        ensures
            final(self)@ == old(self)@.resolve_first(id),
    {
        match self.pending_index() {
            Some(i) => {
                self.drops[i].0.load(Handle::new(id));
                proof {
                    assert(self@.drops =~= old(self)@.drops.update(
                        i as int,
                        (RefState::Resolved(id), old(self)@.drops[i as int].1),
                    ));
                }
            },
            None => {},
        }
    }

    /// Whether every reference to an item is still a path, as the parser
    /// leaves it.
    fn holds_paths_only(&self) -> (fresh: bool)
        ensures
            fresh == self@.all_items(|r: RefState| r is Unresolved),
    {
        let mut i: usize = 0;
        while i < self.drops.len()
            invariant
                i <= self.drops.len(),
                forall|k: int| 0 <= k < i ==> (#[trigger] self@.drops[k]).0 is Unresolved,
            decreases self.drops.len() - i,
        {
            if self.drops[i].0.is_loaded() {
                assert(!(self@.drops[i as int].0 is Unresolved));
                return false;
            }
            i = i + 1;
        }
        true
    }

    /// The items that drop, given the outcome of the roll of each entry:
    /// those whose roll came out true, in the order of the table.
    pub fn get_items(&self, rolls: &Vec<bool>) -> (items: Vec<SHandle<Item>>)
        ensures
            items@.map_values(|i: SHandle<Item>| i@) == picked(self@.drops, rolls@),
    {
        let ghost all = self@.drops;
        let mut items: Vec<SHandle<Item>> = Vec::new();
        let mut i: usize = 0;
        while i < self.drops.len()
            invariant
                i <= self.drops.len(),
                all == self@.drops,
                items@.map_values(|i: SHandle<Item>| i@) == picked(all.take(i as int), rolls@),
            decreases self.drops.len() - i,
        {
            proof {
                assert(all.take(i + 1).drop_last() =~= all.take(i as int));
            }
            if i < rolls.len() && rolls[i] {
                let ghost before = items@.map_values(|i: SHandle<Item>| i@);
                let item = self.drops[i].0.clone();
                items.push(item);
                proof {
                    assert(items@.map_values(|i: SHandle<Item>| i@) =~= before.push(all[i as int].0));
                }
            }
            i = i + 1;
        }
        proof {
            assert(all.take(i as int) =~= all);
        }
        items
    }
}

impl SHandleLoad for DropTable {
    open spec fn node(&self) -> AssetView {
        AssetView::DropTable(self@)
    }

    fn next_child(&self) -> (c: Option<ChildRef>) {
        match self.next_item() {
            Some(path) => Some(ChildRef { kind: AssetKind::Item, path }),
            None => None,
        }
    }

    fn resolve_next(&mut self, id: u64) {
        self.resolve_item(id);
    }

    fn is_fresh(&self) -> (fresh: bool) {
        let fresh = self.holds_paths_only();
        proof {
            let p = holds_path();
            assert(self@.all_items(|r: RefState| p(AssetKind::Item, r)) == self@.all_items(
                |r: RefState| r is Unresolved,
            ));
        }
        fresh
    }
}

} // verus!
