//! Teams, and the record that describes what a weapon fires.

use crate::asset::{AssetView, SHandleLoad};
use crate::health::Health;
use crate::image::LeafImage;
use crate::kind::{child_of, AssetKind, ChildRef, ChildView};
use crate::scalar::Scalar;
use crate::shandle::{Handle, RefState, SHandle};
use vstd::prelude::*;

verus! {

/// The side an entity fights on. Bullets hurt the other side only.
#[derive(Clone, Copy, Debug, PartialEq, Eq, Structural)]
pub enum Team {
    Player,
    Enemy,
}

impl Default for Team {
    fn default() -> (t: Self)
        ensures
            t == Team::Enemy,
    {
        Team::Enemy
    }
}

/// What a weapon fires: how hard a bullet hits, how fast it flies, how
/// long it lives, how it looks and whose it is.
#[derive(Clone, Debug, PartialEq, Eq)]
pub struct BulletOptions {
    pub damage: u32,
    pub speed: Scalar,
    pub lifetime: Scalar,
    pub sprite: SHandle<LeafImage>,
    pub diagonal_sprite: bool,
    pub team: Team,
}

/// A `BulletOptions` as a mathematical value.
pub struct BulletView {
    pub damage: u32,
    pub speed: Scalar,
    pub lifetime: Scalar,
    pub sprite: RefState,
    pub diagonal_sprite: bool,
    pub team: Team,
}

impl BulletView {
    /// The first reference, in traversal order, that is not resolved.
    pub open spec fn pending(self) -> Option<ChildView> {
        child_of(AssetKind::Image, self.sprite)
    }

    /// The record with its first unresolved reference resolved to `id`.
    pub open spec fn resolve_first(self, id: u64) -> BulletView {
        match self.sprite {
            RefState::Unresolved(_) => BulletView { sprite: RefState::Resolved(id), ..self },
            RefState::Resolved(_) => self,
        }
    }

    /// Whether every reference of the record satisfies `p`.
    pub open spec fn all_refs(self, p: spec_fn(AssetKind, RefState) -> bool) -> bool {
        p(AssetKind::Image, self.sprite)
    }

    /// How many references are not resolved.
    pub open spec fn unresolved(self) -> nat {
        if self.sprite is Unresolved {
            1
        } else {
            0
        }
    }
}

impl View for BulletOptions {
    type V = BulletView;

    open spec fn view(&self) -> BulletView {
        BulletView {
            damage: self.damage,
            speed: self.speed,
            lifetime: self.lifetime,
            sprite: self.sprite@,
            diagonal_sprite: self.diagonal_sprite,
            team: self.team,
        }
    }
}

impl Default for BulletOptions {
    /// The bullet of an enemy: 40 damage, speed 3, one second to live,
    /// drawn with `bullet.png`.
    fn default() -> (b: Self)
        ensures
            b@ == (BulletView {
                damage: 40,
                speed: Scalar { bits: 0x4040_0000 },
                lifetime: Scalar { bits: 0x3f80_0000 },
                sprite: RefState::Unresolved("bullet.png"@),
                diagonal_sprite: false,
                team: Team::Enemy,
            }),
    {
        BulletOptions {
            damage: 40,
            speed: Scalar { bits: 0x4040_0000 },
            lifetime: Scalar { bits: 0x3f80_0000 },
            sprite: SHandle::new(String::from_str("bullet.png")),
            diagonal_sprite: false,
            team: Team::Enemy,
        }
    }
}

impl SHandleLoad for BulletOptions {
    open spec fn node(&self) -> AssetView {
        AssetView::Bullet(self@)
    }

    fn next_child(&self) -> (c: Option<ChildRef>) {
        match self.sprite.path() {
            Ok(path) => Some(ChildRef { kind: AssetKind::Image, path }),
            Err(_) => None,
        }
    }

    fn resolve_next(&mut self, id: u64) {
        self.sprite.load(Handle::new(id));
    }

    fn is_fresh(&self) -> (fresh: bool) {
        !self.sprite.is_loaded()
    }
}

/// Decides whether a bullet of `team` that touches the owner of `health`
/// hits: it does when they are on different sides, and then takes
/// `damage` points away.
pub fn detect_collisions(health: &mut Health, team: Team, damage: u32) -> (hit: bool)
    ensures
        hit == (team != old(health).team),
        final(health).current == if !hit {
            old(health).current as int
        } else if old(health).current >= damage {
            old(health).current - damage
        } else {
            0
        },
        final(health).max == old(health).max,
        final(health).team == old(health).team,
        final(health).dead == old(health).dead,
{
    if team != health.team {
        health.inflict_damage(damage);
        true
    } else {
        false
    }
}

} // verus!
