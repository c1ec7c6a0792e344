//! A record of any kind, and the traversal that all kinds share.

use crate::bullet::{BulletOptions, BulletView};
use crate::enemy::ai::{lemma_ai_pending, lemma_ai_resolve, Ai, AiView};
use crate::enemy::drop_table::{lemma_drops_pending, lemma_drops_resolve, DropTable, DropTableView};
use crate::enemy::{EnemyOptions, EnemyView};
use crate::image::{LeafImage, LeafImageView};
use crate::items::item::{Item, ItemView};
use crate::kind::{child_at, child_view, AssetKind, ChildRef, ChildView};
use crate::shandle::RefState;
use vstd::prelude::*;

verus! {

/// A node of the content graph: an image, or a record of one of the
/// composite kinds.
#[derive(Clone, Debug, PartialEq, Eq)]
pub enum Asset {
    Image(LeafImage),
    Bullet(BulletOptions),
    Item(Item),
    Enemy(EnemyOptions),
    Ai(Ai),
    DropTable(DropTable),
}

/// An `Asset` as a mathematical value.
pub enum AssetView {
    Image(LeafImageView),
    Bullet(BulletView),
    Item(ItemView),
    Enemy(EnemyView),
    Ai(AiView),
    DropTable(DropTableView),
}

impl View for Asset {
    type V = AssetView;

    open spec fn view(&self) -> AssetView {
        match self {
            Asset::Image(image) => AssetView::Image(image@),
            Asset::Bullet(bullet) => AssetView::Bullet(bullet@),
            Asset::Item(item) => AssetView::Item(item@),
            Asset::Enemy(enemy) => AssetView::Enemy(enemy@),
            Asset::Ai(ai) => AssetView::Ai(ai@),
            Asset::DropTable(table) => AssetView::DropTable(table@),
        }
    }
}

/// The property of a reference of holding a handle.
pub open spec fn holds_handle() -> spec_fn(AssetKind, RefState) -> bool {
    |k: AssetKind, r: RefState| r is Resolved
}

/// The property of a reference of holding a path.
pub open spec fn holds_path() -> spec_fn(AssetKind, RefState) -> bool {
    |k: AssetKind, r: RefState| r is Unresolved
}

impl AssetView {
    /// The kind of the node.
    pub open spec fn kind(self) -> AssetKind {
        match self {
            AssetView::Image(_) => AssetKind::Image,
            AssetView::Bullet(_) => AssetKind::Bullet,
            AssetView::Item(_) => AssetKind::Item,
            AssetView::Enemy(_) => AssetKind::Enemy,
            AssetView::Ai(_) => AssetKind::Ai,
            AssetView::DropTable(_) => AssetKind::DropTable,
        }
    }

    /// The first reference of the node, in the traversal order of its
    /// kind, that is not resolved. An image has no references.
    pub open spec fn pending(self) -> Option<ChildView> {
        match self {
            AssetView::Image(_) => None,
            AssetView::Bullet(bullet) => bullet.pending(),
            AssetView::Item(item) => item.pending(),
            AssetView::Enemy(enemy) => enemy.pending(),
            AssetView::Ai(ai) => child_at(AssetKind::Bullet, ai.pending()),
            AssetView::DropTable(table) => child_at(AssetKind::Item, table.pending()),
        }
    }

    /// The node with its first unresolved reference resolved to `id`.
    pub open spec fn resolve_first(self, id: u64) -> AssetView {
        match self {
            AssetView::Image(_) => self,
            AssetView::Bullet(bullet) => AssetView::Bullet(bullet.resolve_first(id)),
            AssetView::Item(item) => AssetView::Item(item.resolve_first(id)),
            AssetView::Enemy(enemy) => AssetView::Enemy(enemy.resolve_first(id)),
            AssetView::Ai(ai) => AssetView::Ai(ai.resolve_first(id)),
            AssetView::DropTable(table) => AssetView::DropTable(table.resolve_first(id)),
        }
    }

    /// Whether every reference of the node, taken with the kind of what
    /// it refers to, satisfies `p`.
    pub open spec fn all_refs(self, p: spec_fn(AssetKind, RefState) -> bool) -> bool {
        match self {
            AssetView::Image(_) => true,
            AssetView::Bullet(bullet) => bullet.all_refs(p),
            AssetView::Item(item) => item.all_refs(p),
            AssetView::Enemy(enemy) => enemy.all_refs(p),
            AssetView::Ai(ai) => ai.all_bullets(|r: RefState| p(AssetKind::Bullet, r)),
            AssetView::DropTable(table) => table.all_items(|r: RefState| p(AssetKind::Item, r)),
        }
    }

    /// Whether every reference of the node is resolved.
    pub open spec fn resolved(self) -> bool {
        self.all_refs(holds_handle())
    }

    /// Whether every reference of the node is a path, as the parser
    /// leaves it.
    pub open spec fn fresh(self) -> bool {
        self.all_refs(holds_path())
    }

    /// How many references of the node are not resolved.
    pub open spec fn unresolved(self) -> nat {
        match self {
            AssetView::Image(_) => 0,
            AssetView::Bullet(bullet) => bullet.unresolved(),
            AssetView::Item(item) => item.unresolved(),
            AssetView::Enemy(enemy) => enemy.unresolved(),
            AssetView::Ai(ai) => ai.unresolved(),
            AssetView::DropTable(table) => table.unresolved(),
        }
    }
}

/// A node waits for nothing exactly when every reference of it is
/// resolved.
pub proof fn lemma_pending_none_is_resolved(asset: AssetView)
    ensures
        asset.pending() is None <==> asset.resolved(),
        asset.pending() is None ==> asset.unresolved() == 0,
{
    match asset {
        AssetView::Enemy(enemy) => {
            lemma_ai_pending(enemy.ai);
            lemma_drops_pending(enemy.drop_table);
            let p = holds_handle();
            assert(enemy.ai.all_bullets(|r: RefState| p(AssetKind::Bullet, r)) == enemy.ai.all_bullets(
                |r: RefState| r is Resolved,
            ));
            assert(enemy.drop_table.all_items(|r: RefState| p(AssetKind::Item, r))
                == enemy.drop_table.all_items(|r: RefState| r is Resolved));
        },
        AssetView::Ai(ai) => {
            lemma_ai_pending(ai);
            let p = holds_handle();
            assert(ai.all_bullets(|r: RefState| p(AssetKind::Bullet, r)) == ai.all_bullets(
                |r: RefState| r is Resolved,
            ));
        },
        AssetView::DropTable(table) => {
            lemma_drops_pending(table);
            let p = holds_handle();
            assert(table.all_items(|r: RefState| p(AssetKind::Item, r)) == table.all_items(
                |r: RefState| r is Resolved,
            ));
        },
        _ => {},
    }
}

/// Resolving the first unresolved reference of a node that has one leaves
/// one reference fewer unresolved and the kind as it is, and keeps every
/// property that all references had and that a reference of that kind
/// resolved to `id` has.
pub proof fn lemma_resolve_first(
    asset: AssetView,
    id: u64,
    p: spec_fn(AssetKind, RefState) -> bool,
)
    requires
        asset.pending() is Some,
    ensures
        asset.resolve_first(id).unresolved() < asset.unresolved(),
        asset.resolve_first(id).kind() == asset.kind(),
        asset.all_refs(p) && p(asset.pending().unwrap().kind, RefState::Resolved(id))
            ==> asset.resolve_first(id).all_refs(p),
{
    match asset {
        AssetView::Enemy(enemy) => {
            let bullets = |r: RefState| p(AssetKind::Bullet, r);
            let items = |r: RefState| p(AssetKind::Item, r);
            if enemy.sprite is Unresolved {
            } else if enemy.ai.pending() is Some {
                lemma_ai_resolve(enemy.ai, id, bullets);
            } else {
                lemma_drops_resolve(enemy.drop_table, id, items);
            }
        },
        AssetView::Ai(ai) => {
            lemma_ai_resolve(ai, id, |r: RefState| p(AssetKind::Bullet, r));
        },
        AssetView::DropTable(table) => {
            lemma_drops_resolve(table, id, |r: RefState| p(AssetKind::Item, r));
        },
        _ => {},
    }
}

/// The traversal that every kind of node declares for itself: where its
/// references are, and in which order they are resolved.
pub trait SHandleLoad {
    /// The value as a node of the content graph.
    spec fn node(&self) -> AssetView;

    /// The next piece of content this node waits for: its first
    /// unresolved reference in traversal order.
    fn next_child(&self) -> (c: Option<ChildRef>)
        ensures
            child_view(c) == self.node().pending(),
    ;

    /// Resolves the reference that `next_child` names to the slot `id`.
    /// A node without one stays as it is.
    fn resolve_next(&mut self, id: u64)
        ensures
            final(self).node() == old(self).node().resolve_first(id),
    ;

    /// Whether the node is as the parser leaves it: every reference still
    /// a path.
    fn is_fresh(&self) -> (fresh: bool)
        ensures
            fresh == self.node().fresh(),
    ;
}

impl SHandleLoad for LeafImage {
    open spec fn node(&self) -> AssetView {
        AssetView::Image(self@)
    }

    fn next_child(&self) -> (c: Option<ChildRef>) {
        None
    }

    fn resolve_next(&mut self, id: u64) {
    }

    fn is_fresh(&self) -> (fresh: bool) {
        true
    }
}

impl Asset {
    /// The kind of the node.
    pub fn kind(&self) -> (kind: AssetKind)
        ensures
            kind == self@.kind(),
    {
        match self {
            Asset::Image(_) => AssetKind::Image,
            Asset::Bullet(_) => AssetKind::Bullet,
            Asset::Item(_) => AssetKind::Item,
            Asset::Enemy(_) => AssetKind::Enemy,
            Asset::Ai(_) => AssetKind::Ai,
            Asset::DropTable(_) => AssetKind::DropTable,
        }
    }
}

impl SHandleLoad for Asset {
    open spec fn node(&self) -> AssetView {
        self@
    }

    fn next_child(&self) -> (c: Option<ChildRef>) {
        match self {
            Asset::Image(_) => None,
            Asset::Bullet(bullet) => bullet.next_child(),
            Asset::Item(item) => item.next_child(),
            Asset::Enemy(enemy) => enemy.next_child(),
            Asset::Ai(ai) => ai.next_child(),
            Asset::DropTable(table) => table.next_child(),
        }
    }

    fn resolve_next(&mut self, id: u64) {
        match self {
            Asset::Image(_) => {},
            Asset::Bullet(bullet) => bullet.resolve_next(id),
            Asset::Item(item) => item.resolve_next(id),
            Asset::Enemy(enemy) => enemy.resolve_next(id),
            Asset::Ai(ai) => ai.resolve_next(id),
            Asset::DropTable(table) => table.resolve_next(id),
        }
    }

    fn is_fresh(&self) -> (fresh: bool) {
        match self {
            Asset::Image(_) => true,
            Asset::Bullet(bullet) => bullet.is_fresh(),
            Asset::Item(item) => item.is_fresh(),
            Asset::Enemy(enemy) => enemy.is_fresh(),
            Asset::Ai(ai) => ai.is_fresh(),
            Asset::DropTable(table) => table.is_fresh(),
        }
    }
}

} // verus!
