//! Enemies: their behaviour, their drops and the record that describes
//! them.

pub mod ai;
pub mod drop_table;

use crate::asset::{AssetView, SHandleLoad};
use crate::enemy::ai::{Ai, AiView};
use crate::enemy::drop_table::{DropTable, DropTableView};
use crate::health::Health;
use crate::image::LeafImage;
use crate::kind::{AssetKind, ChildRef, ChildView};
use crate::shandle::{Handle, RefState, SHandle};
use vstd::prelude::*;

verus! {

/// An enemy: its health, its picture, its behaviour and its drops. The
/// behaviour and the drops are written into the record itself; the picture,
/// the bullets of the behaviour and the items of the drops are references.
#[derive(Clone, Debug, PartialEq, Eq)]
pub struct EnemyOptions {
    pub health: Health,
    pub sprite: SHandle<LeafImage>,
    pub ai: Ai,
    pub drop_table: DropTable,
}

/// An `EnemyOptions` as a mathematical value.
pub struct EnemyView {
    pub health: Health,
    pub sprite: RefState,
    pub ai: AiView,
    pub drop_table: DropTableView,
}

impl View for EnemyOptions {
    type V = EnemyView;

    open spec fn view(&self) -> EnemyView {
        EnemyView {
            health: self.health,
            sprite: self.sprite@,
            ai: self.ai@,
            drop_table: self.drop_table@,
        }
    }
}

impl EnemyView {
    /// The first reference, in traversal order, that is not resolved: the
    /// picture, then the bullets of the behaviour, phase by phase, then
    /// the items of the drops.
    pub open spec fn pending(self) -> Option<ChildView> {
        if let RefState::Unresolved(path) = self.sprite {
            Some(ChildView { kind: AssetKind::Image, path })
        } else if let Some(path) = self.ai.pending() {
            Some(ChildView { kind: AssetKind::Bullet, path })
        } else if let Some(path) = self.drop_table.pending() {
            Some(ChildView { kind: AssetKind::Item, path })
        } else {
            None
        }
    }

    /// The record with its first unresolved reference resolved to `id`.
    pub open spec fn resolve_first(self, id: u64) -> EnemyView {
        if self.sprite is Unresolved {
            EnemyView { sprite: RefState::Resolved(id), ..self }
        } else if self.ai.pending() is Some {
            EnemyView { ai: self.ai.resolve_first(id), ..self }
        } else {
            EnemyView { drop_table: self.drop_table.resolve_first(id), ..self }
        }
    }

    /// Whether every reference of the record satisfies `p`.
    pub open spec fn all_refs(self, p: spec_fn(AssetKind, RefState) -> bool) -> bool {
        &&& p(AssetKind::Image, self.sprite)
        &&& self.ai.all_bullets(|r: RefState| p(AssetKind::Bullet, r))
        &&& self.drop_table.all_items(|r: RefState| p(AssetKind::Item, r))
    }

    /// How many references are not resolved.
    pub open spec fn unresolved(self) -> nat {
        let sprite: nat = if self.sprite is Unresolved {
            1
        } else {
            0
        };
        sprite + self.ai.unresolved() + self.drop_table.unresolved()
    }
}

impl SHandleLoad for EnemyOptions {
    open spec fn node(&self) -> AssetView {
        AssetView::Enemy(self@)
    }

    fn next_child(&self) -> (c: Option<ChildRef>) {
        if let Ok(path) = self.sprite.path() {
            return Some(ChildRef { kind: AssetKind::Image, path });
        }
        if let Some(path) = self.ai.next_bullet() {
            return Some(ChildRef { kind: AssetKind::Bullet, path });
        }
        if let Some(path) = self.drop_table.next_item() {
            return Some(ChildRef { kind: AssetKind::Item, path });
        }
        None
    }

    fn resolve_next(&mut self, id: u64) {
        if !self.sprite.is_loaded() {
            self.sprite.load(Handle::new(id));
        } else if self.ai.next_bullet().is_some() {
            self.ai.resolve_next(id);
        } else {
            self.drop_table.resolve_next(id);
        }
    }

    fn is_fresh(&self) -> (fresh: bool) {
        !self.sprite.is_loaded() && self.ai.is_fresh() && self.drop_table.is_fresh()
    }
}

} // verus!
