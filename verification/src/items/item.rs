//! The record of an item.

use crate::asset::{AssetView, SHandleLoad};
use crate::bullet::BulletOptions;
use crate::image::LeafImage;
use crate::kind::{child_of, AssetKind, ChildRef, ChildView};
use crate::shandle::{Handle, RefState, SHandle};
use vstd::prelude::*;

verus! {

/// What an equipable item is. A weapon names the bullet it fires.
#[derive(Clone, Debug, PartialEq, Eq)]
pub enum EquipableType {
    Weapon(SHandle<BulletOptions>),
    Ability,
    Armor,
    Accessory,
}

/// Whether an item can be equipped, and as what.
#[derive(Clone, Debug, PartialEq, Eq)]
pub enum ItemType {
    Regular,
    Equipable(EquipableType),
}

/// An item: its name, its picture and its use.
#[derive(Clone, Debug, PartialEq, Eq)]
pub struct Item {
    pub name: String,
    pub sprite: SHandle<LeafImage>,
    pub item_type: ItemType,
}

/// An `EquipableType` as a mathematical value.
pub enum EquipableView {
    Weapon(RefState),
    Ability,
    Armor,
    Accessory,
}

/// An `ItemType` as a mathematical value.
pub enum ItemTypeView {
    Regular,
    Equipable(EquipableView),
}

/// An `Item` as a mathematical value.
pub struct ItemView {
    pub name: Seq<char>,
    pub sprite: RefState,
    pub item_type: ItemTypeView,
}

impl View for EquipableType {
    type V = EquipableView;

    open spec fn view(&self) -> EquipableView {
        match self {
            EquipableType::Weapon(bullet) => EquipableView::Weapon(bullet@),
            EquipableType::Ability => EquipableView::Ability,
            EquipableType::Armor => EquipableView::Armor,
            EquipableType::Accessory => EquipableView::Accessory,
        }
    }
}

impl View for ItemType {
    type V = ItemTypeView;

    open spec fn view(&self) -> ItemTypeView {
        match self {
            ItemType::Regular => ItemTypeView::Regular,
            ItemType::Equipable(e) => ItemTypeView::Equipable(e@),
        }
    }
}

impl View for Item {
    type V = ItemView;

    open spec fn view(&self) -> ItemView {
        ItemView { name: self.name@, sprite: self.sprite@, item_type: self.item_type@ }
    }
}

impl ItemTypeView {
    /// The reference to the bullet of a weapon; other items have none.
    pub open spec fn weapon(self) -> Option<RefState> {
        match self {
            ItemTypeView::Equipable(EquipableView::Weapon(bullet)) => Some(bullet),
            _ => None,
        }
    }
}

impl ItemView {
    /// The first reference, in traversal order, that is not resolved: the
    /// picture comes before the bullet of a weapon.
    pub open spec fn pending(self) -> Option<ChildView> {
        if self.sprite is Unresolved {
            child_of(AssetKind::Image, self.sprite)
        } else {
            match self.item_type.weapon() {
                Some(bullet) => child_of(AssetKind::Bullet, bullet),
                None => None,
            }
        }
    }

    /// The record with its first unresolved reference resolved to `id`.
    pub open spec fn resolve_first(self, id: u64) -> ItemView {
        if self.sprite is Unresolved {
            ItemView { sprite: RefState::Resolved(id), ..self }
        } else {
            match self.item_type.weapon() {
                Some(RefState::Unresolved(_)) => ItemView {
                    item_type: ItemTypeView::Equipable(
                        EquipableView::Weapon(RefState::Resolved(id)),
                    ),
                    ..self
                },
                _ => self,
            }
        }
    }

    /// Whether every reference of the record satisfies `p`.
    pub open spec fn all_refs(self, p: spec_fn(AssetKind, RefState) -> bool) -> bool {
        &&& p(AssetKind::Image, self.sprite)
        &&& self.item_type.weapon() matches Some(bullet) ==> p(AssetKind::Bullet, bullet)
    }

    /// How many references are not resolved.
    pub open spec fn unresolved(self) -> nat {
        let sprite: nat = if self.sprite is Unresolved {
            1
        } else {
            0
        };
        let bullet: nat = match self.item_type.weapon() {
            Some(RefState::Unresolved(_)) => 1,
            _ => 0,
        };
        sprite + bullet
    }
}

impl SHandleLoad for Item {
    open spec fn node(&self) -> AssetView {
        AssetView::Item(self@)
    }

    fn next_child(&self) -> (c: Option<ChildRef>) {
        match self.sprite.path() {
            Ok(path) => Some(ChildRef { kind: AssetKind::Image, path }),
            Err(_) => match &self.item_type {
                ItemType::Equipable(EquipableType::Weapon(bullet)) => match bullet.path() {
                    Ok(path) => Some(ChildRef { kind: AssetKind::Bullet, path }),
                    Err(_) => None,
                },
                _ => None,
            },
        }
    }

    fn resolve_next(&mut self, id: u64) {
        if !self.sprite.is_loaded() {
            self.sprite.load(Handle::new(id));
        } else {
            match &mut self.item_type {
                ItemType::Equipable(EquipableType::Weapon(bullet)) => {
                    bullet.load(Handle::new(id));
                },
                _ => {},
            }
        }
    }

    fn is_fresh(&self) -> (fresh: bool) {
        if self.sprite.is_loaded() {
            return false;
        }
        match &self.item_type {
            ItemType::Equipable(EquipableType::Weapon(bullet)) => !bullet.is_loaded(),
            _ => true,
        }
    }
}

} // verus!
