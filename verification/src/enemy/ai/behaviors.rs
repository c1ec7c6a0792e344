//! What an enemy does while it is in a phase.

use crate::bullet::BulletOptions;
use crate::scalar::Scalar;
use crate::shandle::{Handle, RefState, SHandle};
use vstd::prelude::*;

verus! {

/// One thing an enemy does in a phase.
#[derive(Clone, Debug, PartialEq, Eq)]
pub enum Behavior {
    /// Nothing.
    Idle,
    /// Moves with a fixed velocity.
    Moving { x: Scalar, y: Scalar },
    /// Runs after the player.
    ChasePlayer { speed: Scalar },
    /// Fires `bullet` at the player every `interval` seconds.
    ShootAtPlayer { bullet: SHandle<BulletOptions>, interval: Scalar },
}

/// A `Behavior` as a mathematical value.
pub enum BehaviorView {
    Idle,
    Moving { x: Scalar, y: Scalar },
    ChasePlayer { speed: Scalar },
    ShootAtPlayer { bullet: RefState, interval: Scalar },
}

impl View for Behavior {
    type V = BehaviorView;

    open spec fn view(&self) -> BehaviorView {
        match self {
            Behavior::Idle => BehaviorView::Idle,
            Behavior::Moving { x, y } => BehaviorView::Moving { x: *x, y: *y },
            Behavior::ChasePlayer { speed } => BehaviorView::ChasePlayer { speed: *speed },
            Behavior::ShootAtPlayer { bullet, interval } => BehaviorView::ShootAtPlayer {
                bullet: bullet@,
                interval: *interval,
            },
        }
    }
}

impl BehaviorView {
    /// The reference to the bullet that the behaviour fires; only firing
    /// has one.
    pub open spec fn bullet(self) -> Option<RefState> {
        match self {
            BehaviorView::ShootAtPlayer { bullet, .. } => Some(bullet),
            _ => None,
        }
    }

    /// The path of the bullet where it is not loaded yet.
    pub open spec fn pending(self) -> Option<Seq<char>> {
        match self {
            BehaviorView::ShootAtPlayer { bullet: RefState::Unresolved(path), .. } => Some(path),
            _ => None,
        }
    }

    /// The behaviour with the reference to its bullet, if it has an
    /// unresolved one, resolved to `id`.
    pub open spec fn resolve(self, id: u64) -> BehaviorView {
        match self {
            BehaviorView::ShootAtPlayer { bullet: RefState::Unresolved(_), interval } => {
                BehaviorView::ShootAtPlayer { bullet: RefState::Resolved(id), interval }
            },
            _ => self,
        }
    }
}

/// The property of waiting for a bullet.
pub open spec fn is_pending() -> spec_fn(BehaviorView) -> bool {
    |b: BehaviorView| b.pending() is Some
}

/// One for a behaviour that waits for a bullet, zero for another.
pub open spec fn pending_weight() -> spec_fn(BehaviorView) -> nat {
    |b: BehaviorView|
        if b.pending() is Some {
            1nat
        } else {
            0nat
        }
}

impl Behavior {
    /// The path of the bullet that this behaviour waits for.
    pub fn pending_path(&self) -> (path: Option<String>)
        ensures
            match path {
                Some(p) => self@.pending() == Some(p@),
                None => self@.pending() is None,
            },
    {
        match self {
            Behavior::ShootAtPlayer { bullet, .. } => match bullet.path() {
                Ok(path) => Some(path),
                Err(_) => None,
            },
            _ => None,
        }
    }

    /// The handle of the bullet that this behaviour fires. A behaviour
    /// that fires nothing has none, and a bullet that is not loaded is
    /// `ReferenceNotResolved`.
    pub fn bullet(&self) -> (r: Option<Result<Handle<BulletOptions>, crate::error::LoadError>>)
        ensures
            match self@.bullet() {
                None => r is None,
                Some(RefState::Resolved(id)) => r matches Some(Ok(h)) && h.id == id,
                Some(RefState::Unresolved(_)) => r matches Some(Err(e)) && e
                    == crate::error::LoadError::ReferenceNotResolved,
            },
    {
        match self {
            Behavior::ShootAtPlayer { bullet, .. } => Some(bullet.value()),
            _ => None,
        }
    }

    /// Resolves the reference to the bullet, if there is an unresolved
    /// one, to the slot `id`.
    pub fn resolve(&mut self, id: u64)
        ensures
            final(self)@ == old(self)@.resolve(id),
    {
        match self {
            Behavior::ShootAtPlayer { bullet, .. } => {
                bullet.load(Handle::new(id));
            },
            _ => {},
        }
    }

    /// Whether the behaviour holds a handle where the parser leaves a
    /// path.
    pub fn holds_handle(&self) -> (loaded: bool)
        ensures
            loaded == (self@.bullet() matches Some(RefState::Resolved(_))),
    {
        match self {
            Behavior::ShootAtPlayer { bullet, .. } => bullet.is_loaded(),
            _ => false,
        }
    }
}

} // verus!
