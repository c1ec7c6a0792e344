//! Hit points.

use crate::bullet::Team;
use vstd::prelude::*;

verus! {

/// The hit points of an entity: how many it has, how many it can have,
/// whose side it is on, and whether its death has been announced.
#[derive(Clone, Copy, Debug, PartialEq, Eq, Structural)]
pub struct Health {
    pub max: u32,
    pub current: u32,
    pub team: Team,
    pub dead: bool,
}

/// The smaller of two numbers.
pub open spec fn min(a: int, b: int) -> int {
    if a <= b {
        a
    } else {
        b
    }
}

impl Health {
    /// Full health of `health` points, alive.
    pub fn new(health: u32, team: Team) -> (h: Self)
        ensures
            h == (Health { max: health, current: health, team, dead: false }),
    {
        Health { max: health, current: health, team, dead: false }
    }

    /// Health as a record states it: the death of what a record describes
    /// has not been announced, whatever the points are.
    pub fn from_parts(max: u32, current: u32, team: Team) -> (h: Self)
        ensures
            h == (Health { max, current, team, dead: false }),
    {
        Health { max, current, team, dead: false }
    }

    /// The points left.
    pub fn current(&self) -> (points: u32)
        ensures
            points == self.current,
    {
        self.current
    }

    /// The most points there can be.
    pub fn max(&self) -> (points: u32)
        ensures
            points == self.max,
    {
        self.max
    }

    /// Takes `value` points away; what is left never goes below zero.
    pub fn inflict_damage(&mut self, value: u32)
        ensures
            final(self).current == if old(self).current >= value {
                old(self).current - value
            } else {
                0
            },
            final(self).max == old(self).max,
            final(self).team == old(self).team,
            final(self).dead == old(self).dead,
    {
        self.current = if self.current >= value {
            self.current - value
        } else {
            0
        };
    }

    /// Gives `value` points back, up to the most there can be.
    pub fn heal(&mut self, value: u32)
        ensures
            final(self).current == min(old(self).current + value, old(self).max as int),
            final(self).max == old(self).max,
            final(self).team == old(self).team,
            final(self).dead == old(self).dead,
    {
        if self.current >= self.max || value >= self.max - self.current {
            self.current = self.max;
        } else {
            self.current = self.current + value;
        }
    }
}

/// Decides whether the death of the owner of `health` is to be announced
/// now: it is when no points are left and it has not been announced
/// before. Announcing is remembered, so a death is announced once.
pub fn despawn_dead(health: &mut Health) -> (announce: bool)
    ensures
        announce == (old(health).current == 0 && !old(health).dead),
        final(health).dead == (old(health).dead || announce),
        final(health).current == old(health).current,
        final(health).max == old(health).max,
        final(health).team == old(health).team,
{
    if health.current == 0 && !health.dead {
        health.dead = true;
        true
    } else {
        false
    }
}

} // verus!
