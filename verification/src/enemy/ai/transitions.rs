//! When an enemy changes from one phase to another.

use crate::scalar::Scalar;
use vstd::prelude::*;

verus! {

/// A condition under which a phase is left.
#[derive(Clone, Copy, Debug, PartialEq, Eq, Structural)]
pub enum Transition {
    /// The share of health that is left is at most this.
    HealthLessThan(Scalar),
}

impl Transition {
    /// The threshold of the condition.
    pub fn threshold(&self) -> (t: Scalar)
        ensures
            *self == Transition::HealthLessThan(t),
    {
        match self {
            Transition::HealthLessThan(t) => *t,
        }
    }
}

/// The destination of the last transition that fired, if one did. A
/// transition without an entry in `fired` did not fire.
pub open spec fn last_fired(
    transitions: Seq<(Transition, Seq<char>)>,
    fired: Seq<bool>,
) -> Option<Seq<char>>
    decreases transitions.len(),
{
    if transitions.len() == 0 {
        None
    } else {
        let last = transitions.len() - 1;
        if last < fired.len() && fired[last] {
            Some(transitions[last].1)
        } else {
            last_fired(transitions.drop_last(), fired)
        }
    }
}

/// The views of a list of transitions with their destinations.
pub open spec fn transitions_view(transitions: Seq<(Transition, String)>) -> Seq<
    (Transition, Seq<char>),
> {
    transitions.map_values(|t: (Transition, String)| (t.0, t.1@))
}

/// Goes through the transitions of a phase in order, each with the
/// outcome of its check, and returns where the last one that fired leads.
pub fn do_transitions(transitions: &Vec<(Transition, String)>, fired: &Vec<bool>) -> (next: Option<
    String,
>)
    ensures
        match next {
            Some(dest) => last_fired(transitions_view(transitions@), fired@) == Some(dest@),
            None => last_fired(transitions_view(transitions@), fired@) is None,
        },
{
    let ghost all = transitions_view(transitions@);
    let mut next: Option<String> = None;
    let mut i: usize = 0;
    while i < transitions.len()
        invariant
            i <= transitions.len(),
            all == transitions_view(transitions@),
            match next {
                Some(dest) => last_fired(all.take(i as int), fired@) == Some(dest@),
                None => last_fired(all.take(i as int), fired@) is None,
            },
        decreases transitions.len() - i,
    {
        proof {
            assert(all.take(i + 1).drop_last() =~= all.take(i as int));
        }
        if i < fired.len() && fired[i] {
            next = Some(transitions[i].1.clone());
        }
        i = i + 1;
    }
    proof {
        assert(all.take(i as int) =~= all);
    }
    next
}

} // verus!
