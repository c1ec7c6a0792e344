//! What holds of every resolution, whatever the driver answers.

use crate::asset::{lemma_pending_none_is_resolved, lemma_resolve_first, AssetView};
use crate::enemy::ai::AiView;
use crate::enemy::drop_table::DropTableView;
use crate::kind::{AssetKind, ChildView};
use crate::resolver::{
    has_path, in_flight, lookup, settle, ActionView, EventView, FrameView, KnownView,
    ResolverView, Settled, StageView,
};
use crate::search::{first_index, is_first, lemma_first_index_found, lemma_first_index_is};
use crate::shandle::RefState;
use vstd::prelude::*;

verus! {

/// Whether the store gave the slot `id` to something of `kind` in this
/// resolution.
pub open spec fn registered_as(known: Seq<KnownView>, kind: AssetKind, id: u64) -> bool {
    exists|i: int| 0 <= i < known.len() && (#[trigger] known[i]).kind == kind && known[i].id == id
}

/// The property of a reference of holding, if it holds a handle, one that
/// the store gave to something of the right kind in this resolution.
pub open spec fn from_store(known: Seq<KnownView>) -> spec_fn(AssetKind, RefState) -> bool {
    |kind: AssetKind, r: RefState| r matches RefState::Resolved(id) ==> registered_as(known, kind, id)
}

/// What a frame is to the record that waits for it.
pub open spec fn frame_child(frame: FrameView) -> ChildView {
    ChildView { kind: frame.asset.kind(), path: frame.path }
}

/// Whether the record at position `i` waits for the one after it.
pub open spec fn linked(stack: Seq<FrameView>, i: int) -> bool {
    stack[i].asset.pending() == Some(frame_child(stack[i + 1]))
}

/// Every record in flight but the innermost waits for the one after it.
pub open spec fn chained(stack: Seq<FrameView>) -> bool {
    forall|i: int| 0 <= i < stack.len() - 1 ==> #[trigger] linked(stack, i)
}

/// No two records in flight were read from the same path.
pub open spec fn distinct_frames(stack: Seq<FrameView>) -> bool {
    forall|i: int, j: int|
        0 <= i < j < stack.len() ==> (#[trigger] stack[i]).path != (#[trigger] stack[j]).path
}

/// No path is registered twice.
pub open spec fn distinct_known(known: Seq<KnownView>) -> bool {
    forall|i: int, j: int|
        0 <= i < j < known.len() ==> (#[trigger] known[i]).path != (#[trigger] known[j]).path
}

/// No record in flight is registered.
pub open spec fn unregistered(stack: Seq<FrameView>, known: Seq<KnownView>) -> bool {
    forall|i: int| 0 <= i < stack.len() ==> lookup(known, (#[trigger] stack[i]).path) is None
}

/// Every handle in a record in flight was given out by the store in this
/// resolution.
pub open spec fn handles_from_store(stack: Seq<FrameView>, known: Seq<KnownView>) -> bool {
    forall|i: int| 0 <= i < stack.len() ==> (#[trigger] stack[i]).asset.all_refs(from_store(known))
}

/// What holds of the records in flight and the registrations at every
/// moment.
pub open spec fn coherent(stack: Seq<FrameView>, known: Seq<KnownView>) -> bool {
    &&& chained(stack)
    &&& distinct_frames(stack)
    &&& distinct_known(known)
    &&& unregistered(stack, known)
    &&& handles_from_store(stack, known)
}

/// Whether the record that was registered at position `i` has every
/// reference resolved, is of the kind it was registered with, and holds
/// handles of earlier registrations only.
pub open spec fn grounded_at(known: Seq<KnownView>, log: Seq<AssetView>, i: int) -> bool {
    &&& log[i].resolved()
    &&& log[i].kind() == known[i].kind
    &&& log[i].all_refs(from_store(known.take(i)))
}

/// Every registered record is resolved and refers to records that were
/// registered before it. So, by induction on the position, everything
/// that can be reached from a registered record is resolved.
pub open spec fn grounded(known: Seq<KnownView>, log: Seq<AssetView>) -> bool {
    &&& log.len() == known.len()
    &&& forall|i: int| 0 <= i < log.len() ==> #[trigger] grounded_at(known, log, i)
}

/// No path was asked for twice.
pub open spec fn distinct_reads(reads: Seq<Seq<char>>) -> bool {
    forall|i: int, j: int| 0 <= i < j < reads.len() ==> #[trigger] reads[i] != #[trigger] reads[j]
}

/// Whether what was read from `path` is in flight or registered.
pub open spec fn held(stack: Seq<FrameView>, known: Seq<KnownView>, path: Seq<char>) -> bool {
    in_flight(stack, path) || lookup(known, path) is Some
}

/// Every path that was asked for is in flight or registered, but for
/// `awaited`, if the machine waits for a child.
pub open spec fn accounted(
    reads: Seq<Seq<char>>,
    stack: Seq<FrameView>,
    known: Seq<KnownView>,
    awaited: Option<Seq<char>>,
) -> bool {
    forall|i: int|
        0 <= i < reads.len() ==> awaited == Some(#[trigger] reads[i]) || held(
            stack,
            known,
            reads[i],
        )
}

impl ResolverView {
    /// The child that the machine waits for, while it waits for one.
    pub open spec fn awaited(self) -> Option<ChildView> {
        match self.stage {
            StageView::Reading(child) => Some(child),
            StageView::Parsing(child) => Some(child),
            StageView::Registering(child) => Some(child),
            StageView::Done => None,
            StageView::Failed => None,
        }
    }

    /// The invariant of the machine. While it waits for a child, that
    /// child is the one that the innermost record in flight waits for, and
    /// its path is neither in flight nor registered; once it is done or
    /// has failed, nothing is in flight.
    pub open spec fn wf(self) -> bool {
        &&& coherent(self.stack, self.known)
        &&& distinct_reads(self.reads)
        &&& grounded(self.known, self.log)
        &&& match self.awaited() {
            Some(child) => {
                &&& self.stack.len() > 0 ==> self.stack.last().asset.pending() == Some(child)
                &&& self.stage is Registering ==> {
                    &&& self.stack.len() > 0
                    &&& self.handed matches Some(asset)
                    &&& asset.resolved()
                    &&& asset.kind() == child.kind
                    &&& asset.all_refs(from_store(self.known))
                }
                &&& !in_flight(self.stack, child.path)
                &&& lookup(self.known, child.path) is None
                &&& accounted(self.reads, self.stack, self.known, Some(child.path))
            },
            None => self.stack.len() == 0,
        }
    }
}

/// A path is looked up in vain exactly when no registration has it.
pub proof fn lemma_lookup(known: Seq<KnownView>, path: Seq<char>)
    ensures
        match lookup(known, path) {
            Some(k) => exists|i: int|
                0 <= i < known.len() && #[trigger] known[i] == k && k.path == path,
            None => forall|i: int| 0 <= i < known.len() ==> (#[trigger] known[i]).path != path,
        },
{
    lemma_first_index_found(known, has_path(path));
    match first_index(known, has_path(path)) {
        Some(i) => {
            assert(has_path(path)(known[i]));
        },
        None => {
            assert forall|i: int| 0 <= i < known.len() implies (#[trigger] known[i]).path != path by {
                assert(!has_path(path)(known[i]));
            }
        },
    }
}

/// A registration, once made, is found from then on, and a new one
/// is found under its own path if that path was not registered.
pub proof fn lemma_lookup_push(known: Seq<KnownView>, entry: KnownView, path: Seq<char>)
    ensures
        lookup(known.push(entry), path) == match lookup(known, path) {
            Some(k) => Some(k),
            None => if entry.path == path {
                Some(entry)
            } else {
                None
            },
        },
{
    let more = known.push(entry);
    lemma_first_index_found(known, has_path(path));
    match first_index(known, has_path(path)) {
        Some(i) => {
            assert(has_path(path)(known[i]));
            assert(more[i] == known[i]);
            assert forall|k: int| 0 <= k < i implies !has_path(path)(#[trigger] more[k]) by {
                assert(more[k] == known[k]);
            }
            assert(is_first(more, has_path(path), i));
            lemma_first_index_is(more, has_path(path), i);
        },
        None => {
            assert forall|k: int| 0 <= k < known.len() implies !has_path(path)(#[trigger] more[k]) by {
                assert(more[k] == known[k]);
            }
            if entry.path == path {
                let n = known.len() as int;
                assert(more[n] == entry);
                assert(has_path(path)(more[n]));
                assert(is_first(more, has_path(path), n));
                lemma_first_index_is(more, has_path(path), n);
            } else {
                assert forall|k: int| 0 <= k < more.len() implies !has_path(path)(#[trigger] more[k]) by {
                    if k < known.len() {
                        assert(more[k] == known[k]);
                    }
                }
                crate::search::lemma_first_index_none(more, has_path(path));
            }
        },
    }
}

/// A property that all bullets of the phases have, they have in every
/// weaker form.
proof fn lemma_bullets_weaken(
    ai: AiView,
    p: spec_fn(RefState) -> bool,
    q: spec_fn(RefState) -> bool,
)
    requires
        forall|r: RefState| #[trigger] p(r) ==> q(r),
        ai.all_bullets(p),
    ensures
        ai.all_bullets(q),
{
    assert forall|i: int, j: int|
        0 <= i < ai.phases.len() && 0 <= j < ai.phases[i].1.behaviors.len() implies (
    #[trigger] ai.phases[i].1.behaviors[j].bullet() matches Some(bullet) ==> q(bullet)) by {
        if ai.phases[i].1.behaviors[j].bullet() is Some {
            assert(p(ai.phases[i].1.behaviors[j].bullet().unwrap()));
        }
    }
}

/// A property that all items of a table have, they have in every weaker
/// form.
proof fn lemma_items_weaken(
    table: DropTableView,
    p: spec_fn(RefState) -> bool,
    q: spec_fn(RefState) -> bool,
)
    requires
        forall|r: RefState| #[trigger] p(r) ==> q(r),
        table.all_items(p),
    ensures
        table.all_items(q),
{
    assert forall|i: int| 0 <= i < table.drops.len() implies q((#[trigger] table.drops[i]).0) by {
        assert(p(table.drops[i].0));
    }
}

/// A property that all references of a node have, they have in every
/// weaker form.
pub proof fn lemma_all_refs_weaken(
    asset: AssetView,
    p: spec_fn(AssetKind, RefState) -> bool,
    q: spec_fn(AssetKind, RefState) -> bool,
)
    requires
        forall|k: AssetKind, r: RefState| #[trigger] p(k, r) ==> q(k, r),
        asset.all_refs(p),
    ensures
        asset.all_refs(q),
{
    let pb = |r: RefState| p(AssetKind::Bullet, r);
    let qb = |r: RefState| q(AssetKind::Bullet, r);
    let pi = |r: RefState| p(AssetKind::Item, r);
    let qi = |r: RefState| q(AssetKind::Item, r);
    match asset {
        AssetView::Enemy(enemy) => {
            lemma_bullets_weaken(enemy.ai, pb, qb);
            lemma_items_weaken(enemy.drop_table, pi, qi);
        },
        AssetView::Ai(ai) => {
            lemma_bullets_weaken(ai, pb, qb);
        },
        AssetView::DropTable(table) => {
            lemma_items_weaken(table, pi, qi);
        },
        _ => {},
    }
}

/// What settling a record comes to. A record that is complete has every
/// reference resolved; one that needs a child waits for it, and the path
/// of the child is not registered; a mismatch is a path that is registered
/// with another kind. Settling keeps the kind, and every property of the
/// references that the registered slots have.
pub proof fn lemma_settle(
    asset: AssetView,
    known: Seq<KnownView>,
    p: spec_fn(AssetKind, RefState) -> bool,
)
    requires
        forall|i: int|
            0 <= i < known.len() ==> p((#[trigger] known[i]).kind, RefState::Resolved(known[i].id)),
    ensures
        match settle(asset, known) {
            Settled::Complete(r) => {
                &&& r.pending() is None
                &&& r.resolved()
                &&& r.kind() == asset.kind()
                &&& asset.all_refs(p) ==> r.all_refs(p)
            },
            Settled::Needs(r, child) => {
                &&& r.pending() == Some(child)
                &&& lookup(known, child.path) is None
                &&& r.kind() == asset.kind()
                &&& asset.all_refs(p) ==> r.all_refs(p)
            },
            Settled::Mismatch(child) => lookup(known, child.path) matches Some(k) && k.kind
                != child.kind,
        },
    decreases asset.unresolved(),
{
    match asset.pending() {
        None => {
            lemma_pending_none_is_resolved(asset);
        },
        Some(child) => {
            match lookup(known, child.path) {
                None => {},
                Some(k) => {
                    if k.kind == child.kind {
                        lemma_lookup(known, child.path);
                        lemma_resolve_first(asset, k.id, p);
                        lemma_settle(asset.resolve_first(k.id), known, p);
                    }
                },
            }
        },
    }
}

/// The slots that are registered are handles from the store.
proof fn lemma_known_from_store(known: Seq<KnownView>)
    ensures
        forall|i: int|
            0 <= i < known.len() ==> from_store(known)(
                (#[trigger] known[i]).kind,
                RefState::Resolved(known[i].id),
            ),
{
    assert forall|i: int| 0 <= i < known.len() implies from_store(known)(
        (#[trigger] known[i]).kind,
        RefState::Resolved(known[i].id),
    ) by {
        assert(registered_as(known, known[i].kind, known[i].id));
    }
}

/// A handle from the store stays one when more is registered.
proof fn lemma_from_store_grows(asset: AssetView, known: Seq<KnownView>, entry: KnownView)
    requires
        asset.all_refs(from_store(known)),
    ensures
        asset.all_refs(from_store(known.push(entry))),
{
    let more = known.push(entry);
    assert forall|k: AssetKind, r: RefState| #[trigger] from_store(known)(k, r) implies from_store(
        more,
    )(k, r) by {
        if let RefState::Resolved(id) = r {
            let i = choose|i: int|
                0 <= i < known.len() && (#[trigger] known[i]).kind == k && known[i].id == id;
            assert(more[i] == known[i]);
        }
    }
    lemma_all_refs_weaken(asset, from_store(known), from_store(more));
}

/// A record as the parser leaves it holds no handle, so none that the
/// store did not give out.
proof fn lemma_fresh_from_store(asset: AssetView, known: Seq<KnownView>)
    requires
        asset.fresh(),
    ensures
        asset.all_refs(from_store(known)),
{
    lemma_all_refs_weaken(asset, crate::asset::holds_path(), from_store(known));
}

/// Going on with the innermost record in flight keeps the invariant and
/// the registrations. What it commits is resolved throughout, to handles
/// from the store; what it asks to read is neither registered nor in
/// flight.
pub proof fn lemma_advance(s: ResolverView)
    requires
        coherent(s.stack, s.known),
        distinct_reads(s.reads),
        grounded(s.known, s.log),
        accounted(s.reads, s.stack, s.known, None),
        s.stack.len() > 0,
    ensures
        s.advance().0.wf(),
        s.advance().0.known == s.known,
        s.advance().0.log == s.log,
        s.advance().1 matches ActionView::Register { asset, .. } ==> s.advance().0.handed == Some(
            asset,
        ),
        s.advance().0.reads == match s.advance().1 {
            ActionView::Read { path } => s.reads.push(path),
            _ => s.reads,
        },
        s.advance().1 matches ActionView::Read { path } ==> !s.reads.contains(path),
        s.advance().1.committed() matches Some(asset) ==> asset.resolved() && asset.all_refs(
            from_store(s.known),
        ),
        s.advance().1 matches ActionView::Read { path } ==> lookup(s.known, path) is None
            && !in_flight(s.stack, path),
{
    let last = s.stack.len() - 1;
    let top = s.stack[last];
    let after = s.advance().0;
    lemma_known_from_store(s.known);
    lemma_settle(top.asset, s.known, from_store(s.known));
    assert(top.asset.all_refs(from_store(s.known)));
    match settle(top.asset, s.known) {
        Settled::Complete(asset) => {
            if s.stack.len() > 1 {
                let rest = s.stack.drop_last();
                assert(after.stack == rest);
                assert forall|i: int| 0 <= i < rest.len() implies #[trigger] rest[i] == s.stack[i] by {}
                assert(chained(rest)) by {
                    assert forall|i: int| 0 <= i < rest.len() - 1 implies #[trigger] linked(rest, i) by {
                        assert(linked(s.stack, i));
                    }
                }
                assert(distinct_frames(rest)) by {
                    assert forall|i: int, j: int| 0 <= i < j < rest.len() implies (#[trigger] rest[i]).path != (
                    #[trigger] rest[j]).path by {
                        assert(s.stack[i].path != s.stack[j].path);
                    }
                }
                assert(unregistered(rest, s.known)) by {
                    assert forall|i: int| 0 <= i < rest.len() implies lookup(
                        s.known,
                        (#[trigger] rest[i]).path,
                    ) is None by {
                        assert(lookup(s.known, s.stack[i].path) is None);
                    }
                }
                assert(handles_from_store(rest, s.known)) by {
                    assert forall|i: int| 0 <= i < rest.len() implies (#[trigger] rest[i]).asset.all_refs(
                        from_store(s.known),
                    ) by {
                        assert(s.stack[i].asset.all_refs(from_store(s.known)));
                    }
                }
                let child = ChildView { kind: asset.kind(), path: top.path };
                assert(rest.last() == s.stack[last - 1]);
                assert(linked(s.stack, last - 1));
                assert(!in_flight(rest, top.path)) by {
                    if in_flight(rest, top.path) {
                        let i = choose|i: int| 0 <= i < rest.len() && (#[trigger] rest[i]).path == top.path;
                        assert(s.stack[i].path != s.stack[last].path);
                    }
                }
                assert(lookup(s.known, s.stack[last].path) is None);
                assert(accounted(s.reads, rest, s.known, Some(top.path))) by {
                    assert forall|i: int| 0 <= i < s.reads.len() implies Some(top.path) == Some(
                        #[trigger] s.reads[i],
                    ) || held(rest, s.known, s.reads[i]) by {
                        assert(held(s.stack, s.known, s.reads[i]));
                        if in_flight(s.stack, s.reads[i]) {
                            let k = choose|k: int|
                                0 <= k < s.stack.len() && (#[trigger] s.stack[k]).path == s.reads[i];
                            if k < last {
                                assert(rest[k].path == s.reads[i]);
                            }
                        }
                    }
                }
            }
        },
        Settled::Needs(asset, child) => {
            if !in_flight(s.stack, child.path) {
                let then = s.stack.update(last, FrameView { path: top.path, asset });
                assert(after.stack == then);
                assert(chained(then)) by {
                    assert forall|i: int| 0 <= i < then.len() - 1 implies #[trigger] linked(then, i) by {
                        assert(linked(s.stack, i));
                    }
                }
                assert(distinct_frames(then)) by {
                    assert forall|i: int, j: int| 0 <= i < j < then.len() implies (#[trigger] then[i]).path != (
                    #[trigger] then[j]).path by {
                        assert(s.stack[i].path != s.stack[j].path);
                    }
                }
                assert(unregistered(then, s.known)) by {
                    assert forall|i: int| 0 <= i < then.len() implies lookup(
                        s.known,
                        (#[trigger] then[i]).path,
                    ) is None by {
                        assert(lookup(s.known, s.stack[i].path) is None);
                    }
                }
                assert(handles_from_store(then, s.known)) by {
                    assert forall|i: int| 0 <= i < then.len() implies (#[trigger] then[i]).asset.all_refs(
                        from_store(s.known),
                    ) by {
                        assert(s.stack[i].asset.all_refs(from_store(s.known)));
                    }
                }
                assert(!in_flight(then, child.path)) by {
                    if in_flight(then, child.path) {
                        let i = choose|i: int| 0 <= i < then.len() && (#[trigger] then[i]).path == child.path;
                        assert(s.stack[i].path == child.path);
                    }
                }
                let more = s.reads.push(child.path);
                assert(after.reads == more);
                assert(!s.reads.contains(child.path)) by {
                    if s.reads.contains(child.path) {
                        let i = choose|i: int| 0 <= i < s.reads.len() && s.reads[i] == child.path;
                        assert(held(s.stack, s.known, s.reads[i]));
                    }
                }
                assert(distinct_reads(more)) by {
                    assert forall|i: int, j: int| 0 <= i < j < more.len() implies #[trigger] more[i]
                        != #[trigger] more[j] by {
                        if j < s.reads.len() {
                            assert(s.reads[i] != s.reads[j]);
                        } else {
                            assert(s.reads.contains(s.reads[i]));
                        }
                    }
                }
                assert(accounted(more, then, s.known, Some(child.path))) by {
                    assert forall|i: int| 0 <= i < more.len() implies Some(child.path) == Some(
                        #[trigger] more[i],
                    ) || held(then, s.known, more[i]) by {
                        if i < s.reads.len() {
                            assert(held(s.stack, s.known, s.reads[i]));
                            if in_flight(s.stack, s.reads[i]) {
                                let k = choose|k: int|
                                    0 <= k < s.stack.len() && (#[trigger] s.stack[k]).path
                                        == s.reads[i];
                                assert(then[k].path == s.reads[i]);
                            }
                        }
                    }
                }
            }
        },
        Settled::Mismatch(child) => {},
    }
}

/// Taking up a loaded record keeps the invariant.
proof fn lemma_enter(s: ResolverView, child: ChildView, asset: AssetView)
    requires
        s.wf(),
        s.awaited() == Some(child),
        !(s.stage is Registering),
    ensures
        s.enter(child, asset).0.wf(),
        s.enter(child, asset).0.known == s.known,
        s.enter(child, asset).0.log == s.log,
        s.enter(child, asset).1 matches ActionView::Register { asset: a, .. } ==> s.enter(
            child,
            asset,
        ).0.handed == Some(a),
        s.enter(child, asset).0.reads == match s.enter(child, asset).1 {
            ActionView::Read { path } => s.reads.push(path),
            _ => s.reads,
        },
        s.enter(child, asset).1 matches ActionView::Read { path } ==> !s.reads.contains(path),
        s.enter(child, asset).1.committed() matches Some(a) ==> a.resolved() && a.all_refs(
            from_store(s.known),
        ),
        s.enter(child, asset).1 matches ActionView::Read { path } ==> lookup(s.known, path) is None
            && !in_flight(s.stack, path) && path != child.path,
{
    if asset.kind() == child.kind && asset.fresh() {
        let frame = FrameView { path: child.path, asset };
        let more = s.stack.push(frame);
        let pushed = ResolverView { stack: more, ..s };
        lemma_fresh_from_store(asset, s.known);
        assert forall|i: int| 0 <= i < s.stack.len() implies #[trigger] more[i] == s.stack[i] by {}
        assert(more[s.stack.len() as int] == frame);
        assert(chained(more)) by {
            assert forall|i: int| 0 <= i < more.len() - 1 implies #[trigger] linked(more, i) by {
                if i + 1 < s.stack.len() {
                    assert(linked(s.stack, i));
                } else {
                    assert(s.stack.last() == s.stack[i]);
                }
            }
        }
        assert(distinct_frames(more)) by {
            assert forall|i: int, j: int| 0 <= i < j < more.len() implies (#[trigger] more[i]).path != (
            #[trigger] more[j]).path by {
                if j < s.stack.len() {
                    assert(s.stack[i].path != s.stack[j].path);
                } else {
                    assert(s.stack[i].path != child.path);
                }
            }
        }
        assert(unregistered(more, s.known)) by {
            assert forall|i: int| 0 <= i < more.len() implies lookup(s.known, (#[trigger] more[i]).path) is None by {
                if i < s.stack.len() {
                    assert(lookup(s.known, s.stack[i].path) is None);
                }
            }
        }
        assert(handles_from_store(more, s.known)) by {
            assert forall|i: int| 0 <= i < more.len() implies (#[trigger] more[i]).asset.all_refs(
                from_store(s.known),
            ) by {
                if i < s.stack.len() {
                    assert(s.stack[i].asset.all_refs(from_store(s.known)));
                }
            }
        }
        assert(accounted(s.reads, more, s.known, None)) by {
            assert forall|i: int| 0 <= i < s.reads.len() implies None::<Seq<char>> == Some(
                #[trigger] s.reads[i],
            ) || held(more, s.known, s.reads[i]) by {
                assert(Some(child.path) == Some(s.reads[i]) || held(s.stack, s.known, s.reads[i]));
                if s.reads[i] == child.path {
                    assert(more[s.stack.len() as int].path == s.reads[i]);
                } else if in_flight(s.stack, s.reads[i]) {
                    let k = choose|k: int|
                        0 <= k < s.stack.len() && (#[trigger] s.stack[k]).path == s.reads[i];
                    assert(more[k].path == s.reads[i]);
                }
            }
        }
        lemma_advance(pushed);
        if let ActionView::Read { path } = pushed.advance().1 {
            if in_flight(s.stack, path) {
                let i = choose|i: int| 0 <= i < s.stack.len() && (#[trigger] s.stack[i]).path == path;
                assert(more[i].path == path);
            }
            assert(more[s.stack.len() as int].path == child.path);
        }
    }
}

/// Taking up the handle of a registered child keeps the invariant.
proof fn lemma_registered(s: ResolverView, child: ChildView, id: u64)
    requires
        s.wf(),
        s.stage == StageView::Registering(child),
    ensures
        s.step(EventView::Registered(id)).0.wf(),
        s.step(EventView::Registered(id)).0.known == s.known.push(
            KnownView { path: child.path, kind: child.kind, id },
        ),
        s.handed is Some,
        s.step(EventView::Registered(id)).0.log == s.log.push(s.handed.unwrap()),
        s.step(EventView::Registered(id)).1 matches ActionView::Register { asset, .. } ==> s.step(
            EventView::Registered(id),
        ).0.handed == Some(asset),
        s.step(EventView::Registered(id)).0.reads == match s.step(EventView::Registered(id)).1 {
            ActionView::Read { path } => s.reads.push(path),
            _ => s.reads,
        },
        s.step(EventView::Registered(id)).1 matches ActionView::Read { path }
            ==> !s.reads.contains(path),
        s.step(EventView::Registered(id)).1.committed() matches Some(a) ==> a.resolved()
            && a.all_refs(from_store(s.step(EventView::Registered(id)).0.known)),
        s.step(EventView::Registered(id)).1 matches ActionView::Read { path } ==> lookup(
            s.step(EventView::Registered(id)).0.known,
            path,
        ) is None && !in_flight(s.stack, path),
{
    let last = s.stack.len() - 1;
    let parent = s.stack[last];
    let entry = KnownView { path: child.path, kind: child.kind, id };
    let known = s.known.push(entry);
    let then = s.stack.update(
        last,
        FrameView { path: parent.path, asset: parent.asset.resolve_first(id) },
    );
    let log = s.log.push(s.handed.unwrap());
    let resolved = ResolverView { stack: then, known, handed: None, log, ..s };
    assert(known[s.known.len() as int] == entry);
    assert(grounded(known, log)) by {
        assert forall|i: int| 0 <= i < log.len() implies #[trigger] grounded_at(known, log, i) by {
            if i < s.log.len() {
                assert(grounded_at(s.known, s.log, i));
                assert(known.take(i) =~= s.known.take(i));
                assert(log[i] == s.log[i]);
                assert(known[i] == s.known[i]);
            } else {
                assert(known.take(i) =~= s.known);
            }
        }
    }
    assert(registered_as(known, child.kind, id));
    lemma_from_store_grows(parent.asset, s.known, entry);
    lemma_resolve_first(parent.asset, id, from_store(known));
    assert(chained(then)) by {
        assert forall|i: int| 0 <= i < then.len() - 1 implies #[trigger] linked(then, i) by {
            assert(linked(s.stack, i));
        }
    }
    assert(distinct_frames(then)) by {
        assert forall|i: int, j: int| 0 <= i < j < then.len() implies (#[trigger] then[i]).path != (
        #[trigger] then[j]).path by {
            assert(s.stack[i].path != s.stack[j].path);
        }
    }
    assert(distinct_known(known)) by {
        lemma_lookup(s.known, child.path);
        assert forall|i: int, j: int| 0 <= i < j < known.len() implies (#[trigger] known[i]).path != (
        #[trigger] known[j]).path by {
            if j < s.known.len() {
                assert(s.known[i].path != s.known[j].path);
            } else {
                assert(s.known[i].path != child.path);
            }
        }
    }
    assert(unregistered(then, known)) by {
        assert forall|i: int| 0 <= i < then.len() implies lookup(known, (#[trigger] then[i]).path) is None by {
            assert(lookup(s.known, s.stack[i].path) is None);
            assert(s.stack[i].path != child.path);
            lemma_lookup_push(s.known, entry, s.stack[i].path);
        }
    }
    assert(handles_from_store(then, known)) by {
        assert forall|i: int| 0 <= i < then.len() implies (#[trigger] then[i]).asset.all_refs(
            from_store(known),
        ) by {
            assert(s.stack[i].asset.all_refs(from_store(s.known)));
            lemma_from_store_grows(s.stack[i].asset, s.known, entry);
        }
    }
    assert(accounted(s.reads, then, known, None)) by {
        assert forall|i: int| 0 <= i < s.reads.len() implies None::<Seq<char>> == Some(
            #[trigger] s.reads[i],
        ) || held(then, known, s.reads[i]) by {
            assert(Some(child.path) == Some(s.reads[i]) || held(s.stack, s.known, s.reads[i]));
            lemma_lookup_push(s.known, entry, s.reads[i]);
            if s.reads[i] != child.path && in_flight(s.stack, s.reads[i]) {
                let k = choose|k: int|
                    0 <= k < s.stack.len() && (#[trigger] s.stack[k]).path == s.reads[i];
                assert(then[k].path == s.reads[i]);
            }
        }
    }
    lemma_advance(resolved);
    if let ActionView::Read { path } = resolved.advance().1 {
        if in_flight(s.stack, path) {
            let i = choose|i: int| 0 <= i < s.stack.len() && (#[trigger] s.stack[i]).path == path;
            assert(then[i].path == path);
        }
    }
}

/// A resolution begins in a state that meets the invariant.
pub proof fn lemma_initial_is_well_formed(kind: AssetKind, path: Seq<char>)
    ensures
        ResolverView::initial(kind, path).wf(),
{
    let s = ResolverView::initial(kind, path);
    crate::search::lemma_first_index_none(s.known, has_path(path));
    assert(s.reads[0] == path);
}

/// Every transition keeps the invariant.
pub proof fn lemma_step_keeps_well_formed(s: ResolverView, event: EventView)
    requires
        s.wf(),
    ensures
        s.step(event).0.wf(),
{
    lemma_step(s, event);
}

/// No partial commit. Whatever the state and whatever the event, a record
/// that the machine commits, as the root or as a labelled sub-asset, has
/// every reference resolved. Where the machine has been driven from the
/// start, more holds: each of these references holds a handle that the
/// store gave out in this resolution for a record of the kind referred to;
/// the record that is handed to the store is the one that is entered in
/// the log when its handle comes back; and the log is grounded, which is
/// to say that every record in it is resolved and refers to earlier
/// entries only. Together: every reference that can be reached from a
/// committed record is resolved (`lemma_reachable_is_resolved`).
pub proof fn lemma_commits_are_resolved(s: ResolverView, event: EventView)
    ensures
        s.step(event).1.committed() matches Some(asset) ==> asset.resolved(),
        s.wf() ==> (s.step(event).1.committed() matches Some(asset) ==> asset.all_refs(
            from_store(s.step(event).0.known),
        )),
        s.wf() ==> grounded(s.step(event).0.known, s.step(event).0.log),
        s.wf() ==> (s.step(event).1 matches ActionView::Register { asset, .. } ==> s.step(
            event,
        ).0.handed == Some(asset)),
        s.wf() ==> s.step(event).0.log == match (s.stage, event) {
            (StageView::Registering(child), EventView::Registered(id)) => s.log.push(
                s.handed.unwrap(),
            ),
            _ => s.log,
        },
{
    if s.wf() {
        lemma_step(s, event);
    }
    if s.step(event).1.committed() is Some {
        lemma_commit_is_complete(s, event);
    }
}

/// Whether `asset` holds a reference to something of `kind` that is
/// resolved to the slot `id`.
pub open spec fn refers_to(asset: AssetView, kind: AssetKind, id: u64) -> bool {
    !asset.all_refs(|k: AssetKind, r: RefState| !(k == kind && r == RefState::Resolved(id)))
}

/// Whether `target` was registered with `kind` under the slot `id`.
pub open spec fn names(
    known: Seq<KnownView>,
    log: Seq<AssetView>,
    kind: AssetKind,
    id: u64,
    target: AssetView,
) -> bool {
    exists|i: int|
        0 <= i < known.len() && i < log.len() && (#[trigger] known[i]).kind == kind && known[i].id
            == id && log[i] == target
}

/// Whether `to` can be reached from `from` by following handles `steps`
/// times.
pub open spec fn reachable(
    known: Seq<KnownView>,
    log: Seq<AssetView>,
    from: AssetView,
    to: AssetView,
    steps: nat,
) -> bool
    decreases steps,
{
    if steps == 0 {
        from == to
    } else {
        exists|kind: AssetKind, id: u64, mid: AssetView|
            refers_to(from, kind, id) && #[trigger] names(known, log, kind, id, mid) && reachable(
                known,
                log,
                mid,
                to,
                (steps - 1) as nat,
            )
    }
}

/// No handle dangles: a handle from the store that a record holds names a
/// record in the log.
pub proof fn lemma_handles_name_records(
    known: Seq<KnownView>,
    log: Seq<AssetView>,
    asset: AssetView,
    kind: AssetKind,
    id: u64,
)
    requires
        log.len() == known.len(),
        asset.all_refs(from_store(known)),
        refers_to(asset, kind, id),
    ensures
        exists|target: AssetView| names(known, log, kind, id, target),
{
    let other = |k: AssetKind, r: RefState| !(k == kind && r == RefState::Resolved(id));
    if !registered_as(known, kind, id) {
        assert forall|k: AssetKind, r: RefState| #[trigger] from_store(known)(k, r) implies other(
            k,
            r,
        ) by {}
        lemma_all_refs_weaken(asset, from_store(known), other);
    }
    let i = choose|i: int|
        0 <= i < known.len() && (#[trigger] known[i]).kind == kind && known[i].id == id;
    assert(names(known, log, kind, id, log[i]));
}

/// In a grounded log, whatever can be reached from a resolved record, in
/// any number of steps, is resolved.
pub proof fn lemma_reachable_is_resolved(
    known: Seq<KnownView>,
    log: Seq<AssetView>,
    from: AssetView,
    to: AssetView,
    steps: nat,
)
    requires
        grounded(known, log),
        from.resolved(),
        reachable(known, log, from, to, steps),
    ensures
        to.resolved(),
    decreases steps,
{
    if steps > 0 {
        let (kind, id, mid) = choose|kind: AssetKind, id: u64, mid: AssetView|
            refers_to(from, kind, id) && #[trigger] names(known, log, kind, id, mid) && reachable(
                known,
                log,
                mid,
                to,
                (steps - 1) as nat,
            );
        let i = choose|i: int|
            0 <= i < known.len() && i < log.len() && (#[trigger] known[i]).kind == kind
                && known[i].id == id && log[i] == mid;
        assert(grounded_at(known, log, i));
        lemma_reachable_is_resolved(known, log, mid, to, (steps - 1) as nat);
    }
}

/// Each path is read at most once. The history of reads of a machine
/// that has been driven from the start holds no path twice; a transition
/// adds to it exactly the path that it asks to read, and that path is
/// not in it before. So the bytes of a path are decoded or parsed once in
/// a resolution, however many references name the path.
pub proof fn lemma_reads_once(s: ResolverView, event: EventView)
    requires
        s.wf(),
    ensures
        distinct_reads(s.step(event).0.reads),
        s.step(event).0.reads == match s.step(event).1 {
            ActionView::Read { path } => s.reads.push(path),
            _ => s.reads,
        },
        s.step(event).1 matches ActionView::Read { path } ==> !s.reads.contains(path),
{
    lemma_step(s, event);
}

/// The same path, the same handle. The slot that a path is registered
/// under never changes while the resolution goes on, and the handle that
/// the store answers a registration with is registered under the path of
/// the child that was handed to it. Every other reference to that path is
/// resolved by `settle`, to the slot that the path is registered under.
pub proof fn lemma_same_path_same_slot(s: ResolverView, event: EventView, path: Seq<char>)
    requires
        s.wf(),
    ensures
        lookup(s.known, path) matches Some(k) ==> lookup(s.step(event).0.known, path) == Some(k),
        s.stage matches StageView::Registering(child) ==> (event matches EventView::Registered(id)
            ==> lookup(s.step(event).0.known, child.path) == Some(
            KnownView { path: child.path, kind: child.kind, id },
        )),
{
    lemma_step(s, event);
    if let StageView::Registering(child) = s.stage {
        if let EventView::Registered(id) = event {
            let entry = KnownView { path: child.path, kind: child.kind, id };
            lemma_lookup_push(s.known, entry, path);
            lemma_lookup_push(s.known, entry, child.path);
        }
    }
}

/// One step of settling: a reference whose path is registered with the
/// kind referred to is resolved to the slot of the path, and settling goes
/// on from there.
pub proof fn lemma_settle_uses_the_slot(asset: AssetView, known: Seq<KnownView>)
    requires
        asset.pending() matches Some(child) && lookup(known, child.path) matches Some(k) && k.kind
            == child.kind,
    ensures
        settle(asset, known) == settle(
            asset.resolve_first(lookup(known, asset.pending().unwrap().path).unwrap().id),
            known,
        ),
{
}

/// What the machine asks to read is the first reference, in traversal
/// order, of the innermost record in flight that is unresolved and whose
/// path is not registered.
pub proof fn lemma_reads_follow_the_traversal(s: ResolverView, event: EventView)
    requires
        s.wf(),
    ensures
        s.step(event).1 matches ActionView::Read { path } ==> {
            let after = s.step(event).0;
            &&& after.stage matches StageView::Reading(child)
            &&& child.path == path
            &&& after.stack.len() > 0
            &&& after.stack.last().asset.pending() == Some(child)
            &&& lookup(after.known, path) is None
        },
{
    lemma_step(s, event);
    if let ActionView::Read { path } = s.step(event).1 {
        lemma_read_enters_reading(s, event);
    }
}

/// A transition that asks for a read leaves the machine reading, with a
/// record in flight.
proof fn lemma_read_enters_reading(s: ResolverView, event: EventView)
    ensures
        s.step(event).1 matches ActionView::Read { path } ==> {
            &&& s.step(event).0.stage matches StageView::Reading(child)
            &&& child.path == path
            &&& s.step(event).0.stack.len() > 0
        },
{
}

/// The end is final. A machine that is done or has failed stays as it is
/// and asks for nothing, so nothing is committed after the root, and
/// nothing after a failure. A transition that commits the root ends in
/// `Done`, one that fails ends in `Failed`, and either leaves nothing in
/// flight.
pub proof fn lemma_the_end_is_final(s: ResolverView, event: EventView)
    ensures
        s.stage is Done || s.stage is Failed ==> s.step(event) == (s, ActionView::Idle),
        s.step(event).1 is Finish ==> s.step(event).0.stage is Done && s.step(event).0.stack.len() == 0,
        s.step(event).1 is Fail ==> s.step(event).0.stage is Failed && s.step(event).0.stack.len()
            == 0,
{
}

/// What an advance commits is resolved, whatever the state.
proof fn lemma_advance_commit(s: ResolverView)
    ensures
        s.advance().1.committed() matches Some(asset) ==> asset.resolved(),
{
    lemma_settle(s.stack.last().asset, s.known, |k: AssetKind, r: RefState| true);
}

/// What a transition commits is resolved, whatever the state.
proof fn lemma_commit_is_complete(s: ResolverView, event: EventView)
    ensures
        s.step(event).1.committed() matches Some(asset) ==> asset.resolved(),
{
    match s.stage {
        StageView::Reading(child) => {
            match event {
                EventView::Bytes(bytes) => {
                    if child.kind == AssetKind::Image {
                        let outcome = match crate::image::extension(child.path) {
                            Some(e) => crate::image::decoded_image(bytes, e),
                            None => None,
                        };
                        if let Some(image) = outcome {
                            let asset = AssetView::Image(image);
                            lemma_advance_commit(
                                ResolverView {
                                    stack: s.stack.push(FrameView { path: child.path, asset }),
                                    ..s
                                },
                            );
                        }
                    }
                },
                EventView::Decoded(outcome) => {
                    if let Some(image) = outcome {
                        let asset = AssetView::Image(image);
                        lemma_advance_commit(
                            ResolverView {
                                stack: s.stack.push(FrameView { path: child.path, asset }),
                                ..s
                            },
                        );
                    }
                },
                _ => {},
            }
        },
        StageView::Parsing(child) => {
            if let EventView::Parsed(asset) = event {
                lemma_advance_commit(
                    ResolverView {
                        stack: s.stack.push(FrameView { path: child.path, asset }),
                        ..s
                    },
                );
            }
        },
        StageView::Registering(child) => {
            if let EventView::Registered(id) = event {
                if s.stack.len() > 0 {
                    let parent = s.stack.last();
                    lemma_advance_commit(
                        ResolverView {
                            stack: s.stack.update(
                                s.stack.len() - 1,
                                FrameView {
                                    path: parent.path,
                                    asset: parent.asset.resolve_first(id),
                                },
                            ),
                            known: s.known.push(
                                KnownView { path: child.path, kind: child.kind, id },
                            ),
                            ..s
                        },
                    );
                }
            }
        },
        _ => {},
    }
}

/// What a transition from a state that meets the invariant comes to.
proof fn lemma_step(s: ResolverView, event: EventView)
    requires
        s.wf(),
    ensures
        s.step(event).0.wf(),
        s.step(event).1.committed() matches Some(asset) ==> asset.all_refs(
            from_store(s.step(event).0.known),
        ),
        s.step(event).1 matches ActionView::Read { path } ==> {
            &&& lookup(s.step(event).0.known, path) is None
            &&& !in_flight(s.stack, path)
            &&& s.awaited() matches Some(child) && (child.path != path || s.stage is Registering)
        },
        s.step(event).0.known == match (s.stage, event) {
            (StageView::Registering(child), EventView::Registered(id)) => s.known.push(
                KnownView { path: child.path, kind: child.kind, id },
            ),
            _ => s.known,
        },
        s.step(event).0.reads == match s.step(event).1 {
            ActionView::Read { path } => s.reads.push(path),
            _ => s.reads,
        },
        s.step(event).1 matches ActionView::Read { path } ==> !s.reads.contains(path),
        s.step(event).0.log == match (s.stage, event) {
            (StageView::Registering(child), EventView::Registered(id)) => s.log.push(
                s.handed.unwrap(),
            ),
            _ => s.log,
        },
        s.step(event).1 matches ActionView::Register { asset, .. } ==> s.step(event).0.handed
            == Some(asset),
{
    match s.stage {
        StageView::Reading(child) => {
            match event {
                EventView::Bytes(bytes) => {
                    if child.kind == AssetKind::Image {
                        let outcome = match crate::image::extension(child.path) {
                            Some(e) => crate::image::decoded_image(bytes, e),
                            None => None,
                        };
                        if let Some(image) = outcome {
                            lemma_enter(s, child, AssetView::Image(image));
                        }
                    }
                },
                EventView::Decoded(outcome) => {
                    if child.kind == AssetKind::Image {
                        if let Some(image) = outcome {
                            lemma_enter(s, child, AssetView::Image(image));
                        }
                    }
                },
                _ => {},
            }
        },
        StageView::Parsing(child) => {
            if let EventView::Parsed(asset) = event {
                lemma_enter(s, child, asset);
            }
        },
        StageView::Registering(child) => {
            if let EventView::Registered(id) = event {
                lemma_registered(s, child, id);
            }
        },
        _ => {},
    }
}

} // verus!
