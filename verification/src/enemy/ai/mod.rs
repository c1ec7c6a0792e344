//! The behaviour of an enemy as a finite state machine of named phases.

pub mod behaviors;
pub mod transitions;

use crate::asset::{holds_path, AssetView, SHandleLoad};
use crate::enemy::ai::behaviors::{is_pending, pending_weight, Behavior, BehaviorView};
use crate::enemy::ai::transitions::{last_fired, transitions_view, Transition};
use crate::kind::{AssetKind, ChildRef};
use crate::scalar::Scalar;
use crate::search::{
    first_index, is_first, lemma_first_index_found, lemma_first_index_is,
    lemma_first_index_none, lemma_weight_update, lemma_weight_zero, weight,
};
use crate::shandle::RefState;
use vstd::prelude::*;

verus! {

/// A phase: what the enemy does in it, and the conditions under which it
/// leaves it, each with the name of the phase that follows.
#[derive(Clone, Debug, PartialEq, Eq)]
pub struct Phase {
    pub behaviors: Vec<Behavior>,
    pub transitions: Vec<(Transition, String)>,
}

/// The phases of an enemy, in the order in which they were written, each
/// under its name, and the name of the phase the enemy is in.
#[derive(Clone, Debug, PartialEq, Eq)]
pub struct Ai {
    pub phases: Vec<(String, Phase)>,
    pub current: String,
}

/// A `Phase` as a mathematical value.
pub struct PhaseView {
    pub behaviors: Seq<BehaviorView>,
    pub transitions: Seq<(Transition, Seq<char>)>,
}

/// An `Ai` as a mathematical value.
pub struct AiView {
    pub phases: Seq<(Seq<char>, PhaseView)>,
    pub current: Seq<char>,
}

impl View for Phase {
    type V = PhaseView;

    open spec fn view(&self) -> PhaseView {
        PhaseView {
            behaviors: self.behaviors@.map_values(|b: Behavior| b@),
            transitions: transitions_view(self.transitions@),
        }
    }
}

impl View for Ai {
    type V = AiView;

    open spec fn view(&self) -> AiView {
        AiView {
            phases: self.phases@.map_values(|p: (String, Phase)| (p.0@, p.1@)),
            current: self.current@,
        }
    }
}

impl PhaseView {
    /// The path of the first bullet, in the order of the behaviours, that
    /// is not loaded yet.
    pub open spec fn pending(self) -> Option<Seq<char>> {
        match first_index(self.behaviors, is_pending()) {
            Some(i) => self.behaviors[i].pending(),
            None => None,
        }
    }

    /// The phase with the first unresolved reference resolved to `id`.
    pub open spec fn resolve_first(self, id: u64) -> PhaseView {
        match first_index(self.behaviors, is_pending()) {
            Some(i) => PhaseView {
                behaviors: self.behaviors.update(i, self.behaviors[i].resolve(id)),
                ..self
            },
            None => self,
        }
    }

    /// How many references are not resolved.
    pub open spec fn unresolved(self) -> nat {
        weight(self.behaviors, pending_weight())
    }
}

/// The property of a named phase of waiting for a bullet.
pub open spec fn phase_is_pending() -> spec_fn((Seq<char>, PhaseView)) -> bool {
    |p: (Seq<char>, PhaseView)| p.1.pending() is Some
}

/// The number of bullets that a named phase waits for.
pub open spec fn phase_weight() -> spec_fn((Seq<char>, PhaseView)) -> nat {
    |p: (Seq<char>, PhaseView)| p.1.unresolved()
}

/// The property of a named phase of having the given name.
pub open spec fn is_named(name: Seq<char>) -> spec_fn((Seq<char>, PhaseView)) -> bool {
    |p: (Seq<char>, PhaseView)| p.0 == name
}

impl AiView {
    /// The path of the first bullet that is not loaded yet: phases in
    /// the order in which they were written, behaviours in order within
    /// each.
    pub open spec fn pending(self) -> Option<Seq<char>> {
        match first_index(self.phases, phase_is_pending()) {
            Some(i) => self.phases[i].1.pending(),
            None => None,
        }
    }

    /// The phases with the first unresolved reference resolved to `id`.
    pub open spec fn resolve_first(self, id: u64) -> AiView {
        match first_index(self.phases, phase_is_pending()) {
            Some(i) => AiView {
                phases: self.phases.update(
                    i,
                    (self.phases[i].0, self.phases[i].1.resolve_first(id)),
                ),
                ..self
            },
            None => self,
        }
    }

    /// How many references are not resolved.
    pub open spec fn unresolved(self) -> nat {
        weight(self.phases, phase_weight())
    }

    /// The position of the phase with the given name: the first, should
    /// the name occur twice.
    pub open spec fn phase_index(self, name: Seq<char>) -> Option<int> {
        first_index(self.phases, is_named(name))
    }

    /// Whether no two phases have the same name. A script is a mapping
    /// from names to phases, so a script that was read from a file has
    /// this property, and resolving references keeps it.
    pub open spec fn distinct_names(self) -> bool {
        forall|i: int, j: int|
            0 <= i < j < self.phases.len() ==> (#[trigger] self.phases[i]).0 != (
            #[trigger] self.phases[j]).0
    }

    /// Whether every reference to a bullet satisfies `p`.
    pub open spec fn all_bullets(self, p: spec_fn(RefState) -> bool) -> bool {
        forall|i: int, j: int|
            0 <= i < self.phases.len() && 0 <= j < self.phases[i].1.behaviors.len() ==> (
            #[trigger] self.phases[i].1.behaviors[j].bullet() matches Some(bullet) ==> p(bullet))
    }
}

/// A phase waits for a bullet exactly as long as one of its behaviours
/// does.
pub proof fn lemma_phase_pending(phase: PhaseView)
    ensures
        phase.pending() is None <==> forall|j: int|
            0 <= j < phase.behaviors.len() ==> (#[trigger] phase.behaviors[j]).pending() is None,
        phase.pending() is None ==> phase.unresolved() == 0,
{
    lemma_first_index_found(phase.behaviors, is_pending());
    if phase.pending() is None {
        assert forall|j: int| 0 <= j < phase.behaviors.len() implies (
        #[trigger] phase.behaviors[j]).pending() is None by {
            assert(!is_pending()(phase.behaviors[j]));
        }
        assert forall|j: int| 0 <= j < phase.behaviors.len() implies pending_weight()(
            #[trigger] phase.behaviors[j],
        ) == 0 by {
            assert(!is_pending()(phase.behaviors[j]));
        }
        lemma_weight_zero(phase.behaviors, pending_weight());
    } else {
        let i = first_index(phase.behaviors, is_pending()).unwrap();
        assert(is_pending()(phase.behaviors[i]));
    }
}

/// Resolving the first unresolved reference of a phase that has one
/// leaves one reference fewer unresolved, and changes one behaviour only:
/// one that waited, and now fires the bullet in slot `id`.
pub proof fn lemma_phase_resolve(phase: PhaseView, id: u64)
    requires
        phase.pending() is Some,
    ensures
        phase.resolve_first(id).unresolved() < phase.unresolved(),
        phase.resolve_first(id).transitions == phase.transitions,
        phase.resolve_first(id).behaviors.len() == phase.behaviors.len(),
        forall|j: int|
            0 <= j < phase.behaviors.len() ==> {
                let after = #[trigger] phase.resolve_first(id).behaviors[j];
                ||| after == phase.behaviors[j]
                ||| phase.behaviors[j].pending() is Some && after.bullet() == Some(
                    RefState::Resolved(id),
                )
            },
{
    lemma_first_index_found(phase.behaviors, is_pending());
    let i = first_index(phase.behaviors, is_pending()).unwrap();
    assert(is_pending()(phase.behaviors[i]));
    let after = phase.behaviors[i].resolve(id);
    assert(pending_weight()(after) < pending_weight()(phase.behaviors[i]));
    lemma_weight_update(phase.behaviors, pending_weight(), i, after);
}

/// The phases wait for a bullet exactly as long as one of their
/// references to a bullet is unresolved.
pub proof fn lemma_ai_pending(ai: AiView)
    ensures
        ai.pending() is None <==> ai.all_bullets(|r: RefState| r is Resolved),
        ai.pending() is None ==> ai.unresolved() == 0,
{
    let resolved = |r: RefState| r is Resolved;
    lemma_first_index_found(ai.phases, phase_is_pending());
    if ai.pending() is None {
        assert forall|i: int| 0 <= i < ai.phases.len() implies (#[trigger] ai.phases[i]).1.pending() is None by {
            if first_index(ai.phases, phase_is_pending()) is Some {
                let k = first_index(ai.phases, phase_is_pending()).unwrap();
                assert(phase_is_pending()(ai.phases[k]));
            } else {
                assert(!phase_is_pending()(ai.phases[i]));
            }
        }
        assert forall|i: int, j: int|
            0 <= i < ai.phases.len() && 0 <= j < ai.phases[i].1.behaviors.len() implies (
        #[trigger] ai.phases[i].1.behaviors[j].bullet() matches Some(bullet) ==> resolved(bullet)) by {
            assert(ai.phases[i].1.pending() is None);
            lemma_phase_pending(ai.phases[i].1);
            assert(ai.phases[i].1.behaviors[j].pending() is None);
        }
        assert forall|i: int| 0 <= i < ai.phases.len() implies phase_weight()(
            #[trigger] ai.phases[i],
        ) == 0 by {
            assert(ai.phases[i].1.pending() is None);
            lemma_phase_pending(ai.phases[i].1);
        }
        lemma_weight_zero(ai.phases, phase_weight());
    } else {
        let i = first_index(ai.phases, phase_is_pending()).unwrap();
        assert(phase_is_pending()(ai.phases[i]));
        lemma_phase_pending(ai.phases[i].1);
        let j = choose|j: int|
            0 <= j < ai.phases[i].1.behaviors.len() && !((
            #[trigger] ai.phases[i].1.behaviors[j]).pending() is None);
        assert(ai.phases[i].1.behaviors[j].bullet() matches Some(bullet) && !resolved(bullet));
    }
}

/// Resolving the first unresolved reference of phases that have one
/// leaves one reference fewer unresolved, and keeps every property that
/// all references had and that a reference resolved to `id` has.
pub proof fn lemma_ai_resolve(ai: AiView, id: u64, p: spec_fn(RefState) -> bool)
    requires
        ai.pending() is Some,
    ensures
        ai.resolve_first(id).unresolved() < ai.unresolved(),
        ai.resolve_first(id).current == ai.current,
        ai.all_bullets(p) && p(RefState::Resolved(id)) ==> ai.resolve_first(id).all_bullets(p),
{
    lemma_first_index_found(ai.phases, phase_is_pending());
    let i = first_index(ai.phases, phase_is_pending()).unwrap();
    assert(phase_is_pending()(ai.phases[i]));
    lemma_phase_resolve(ai.phases[i].1, id);
    let after = (ai.phases[i].0, ai.phases[i].1.resolve_first(id));
    assert(phase_weight()(after) < phase_weight()(ai.phases[i]));
    lemma_weight_update(ai.phases, phase_weight(), i, after);
    if ai.all_bullets(p) && p(RefState::Resolved(id)) {
        let then = ai.resolve_first(id);
        assert forall|a: int, b: int|
            0 <= a < then.phases.len() && 0 <= b < then.phases[a].1.behaviors.len() implies (
        #[trigger] then.phases[a].1.behaviors[b].bullet() matches Some(bullet) ==> p(bullet)) by {
            if a == i {
                let changed = ai.phases[i].1.resolve_first(id).behaviors[b];
                assert(changed == ai.phases[i].1.behaviors[b] || changed.bullet() == Some(
                    RefState::Resolved(id),
                ));
                assert(ai.phases[a].1.behaviors[b].bullet() matches Some(bullet) ==> p(bullet));
            } else {
                assert(ai.phases[a].1.behaviors[b].bullet() matches Some(bullet) ==> p(bullet));
            }
        }
    }
}

/// Resolving a reference changes no name and no order of the phases.
pub proof fn lemma_resolve_keeps_names(ai: AiView, id: u64)
    ensures
        ai.resolve_first(id).phases.len() == ai.phases.len(),
        forall|i: int|
            0 <= i < ai.phases.len() ==> (#[trigger] ai.resolve_first(id).phases[i]).0
                == ai.phases[i].0,
        ai.distinct_names() ==> ai.resolve_first(id).distinct_names(),
        ai.resolve_first(id).current == ai.current,
{
    lemma_first_index_found(ai.phases, phase_is_pending());
    let then = ai.resolve_first(id);
    assert forall|i: int| 0 <= i < ai.phases.len() implies (#[trigger] then.phases[i]).0
        == ai.phases[i].0 by {}
    if ai.distinct_names() {
        assert forall|i: int, j: int| 0 <= i < j < then.phases.len() implies (
        #[trigger] then.phases[i]).0 != (#[trigger] then.phases[j]).0 by {
            assert(then.phases[i].0 == ai.phases[i].0);
            assert(then.phases[j].0 == ai.phases[j].0);
        }
    }
}

/// The order of the traversal: while a phase waits for a bullet, the next
/// bullet is taken from that phase or from one before it, and resolving it
/// leaves every later phase as it is.
pub proof fn lemma_phases_in_order(ai: AiView, early: int, late: int, id: u64)
    requires
        0 <= early < late < ai.phases.len(),
        ai.phases[early].1.pending() is Some,
    ensures
        first_index(ai.phases, phase_is_pending()) matches Some(k) && k <= early
            && ai.pending() == ai.phases[k].1.pending(),
        ai.resolve_first(id).phases[late] == ai.phases[late],
{
    assert(phase_is_pending()(ai.phases[early]));
    lemma_first_index_found(ai.phases, phase_is_pending());
    let k = first_index(ai.phases, phase_is_pending()).unwrap();
    if early < k {
        assert(!phase_is_pending()(ai.phases[early]));
    }
}

/// The order of the traversal within a phase: while a behaviour waits for
/// its bullet, the next bullet is that of this behaviour or of one before
/// it, and resolving it leaves every later behaviour as it is.
pub proof fn lemma_behaviors_in_order(phase: PhaseView, early: int, late: int, id: u64)
    requires
        0 <= early < late < phase.behaviors.len(),
        phase.behaviors[early].pending() is Some,
    ensures
        first_index(phase.behaviors, is_pending()) matches Some(k) && k <= early
            && phase.pending() == phase.behaviors[k].pending(),
        phase.resolve_first(id).behaviors[late] == phase.behaviors[late],
{
    assert(is_pending()(phase.behaviors[early]));
    lemma_first_index_found(phase.behaviors, is_pending());
    let k = first_index(phase.behaviors, is_pending()).unwrap();
    if early < k {
        assert(!is_pending()(phase.behaviors[early]));
    }
}

impl Phase {
    /// The position of the first behaviour that waits for a bullet.
    fn pending_index(&self) -> (r: Option<usize>)
        ensures
            match r {
                Some(i) => first_index(self@.behaviors, is_pending()) == Some(i as int),
                None => first_index(self@.behaviors, is_pending()) is None,
            },
    {
        let mut i: usize = 0;
        while i < self.behaviors.len()
            invariant
                i <= self.behaviors.len(),
                forall|k: int| 0 <= k < i ==> !is_pending()(#[trigger] self@.behaviors[k]),
            decreases self.behaviors.len() - i,
        {
            if self.behaviors[i].pending_path().is_some() {
                proof {
                    assert(is_first(self@.behaviors, is_pending(), i as int));
                    lemma_first_index_is(self@.behaviors, is_pending(), i as int);
                }
                return Some(i);
            }
            i = i + 1;
        }
        proof {
            lemma_first_index_none(self@.behaviors, is_pending());
        }
        None
    }

    /// The path of the next bullet this phase waits for.
    pub fn next_bullet(&self) -> (path: Option<String>)
        ensures
            match path {
                Some(p) => self@.pending() == Some(p@),
                None => self@.pending() is None,
            },
    {
        match self.pending_index() {
            Some(i) => self.behaviors[i].pending_path(),
            None => None,
        }
    }

    /// Resolves the reference that `next_bullet` names to the slot `id`.
    /// A phase without one stays as it is.
    pub fn resolve_next(&mut self, id: u64)
        ensures
            final(self)@ == old(self)@.resolve_first(id),
    {
        match self.pending_index() {
            Some(i) => {
                self.behaviors[i].resolve(id);
                proof {
                    assert(self@.behaviors =~= old(self)@.behaviors.update(
                        i as int,
                        old(self)@.behaviors[i as int].resolve(id),
                    ));
                }
            },
            None => {},
        }
    }

    /// Whether a behaviour of the phase holds a handle.
    pub fn holds_handle(&self) -> (loaded: bool)
        ensures
            loaded == exists|j: int|
                0 <= j < self@.behaviors.len() && (
                #[trigger] self@.behaviors[j].bullet() matches Some(
                    RefState::Resolved(_),
                )),
    {
        let mut j: usize = 0;
        while j < self.behaviors.len()
            invariant
                j <= self.behaviors.len(),
                forall|k: int|
                    0 <= k < j ==> !(#[trigger] self@.behaviors[k].bullet() matches Some(
                        RefState::Resolved(_),
                    )),
            decreases self.behaviors.len() - j,
        {
            if self.behaviors[j].holds_handle() {
                assert(self@.behaviors[j as int].bullet() matches Some(
                    RefState::Resolved(_),
                ));
                return true;
            }
            j = j + 1;
        }
        false
    }
}

impl Ai {
    /// The position of the first phase that waits for a bullet.
    fn pending_index(&self) -> (r: Option<usize>)
        ensures
            match r {
                Some(i) => first_index(self@.phases, phase_is_pending()) == Some(i as int),
                None => first_index(self@.phases, phase_is_pending()) is None,
            },
    {
        let mut i: usize = 0;
        while i < self.phases.len()
            invariant
                i <= self.phases.len(),
                forall|k: int| 0 <= k < i ==> !phase_is_pending()(#[trigger] self@.phases[k]),
            decreases self.phases.len() - i,
        {
            if self.phases[i].1.next_bullet().is_some() {
                proof {
                    assert(is_first(self@.phases, phase_is_pending(), i as int));
                    lemma_first_index_is(self@.phases, phase_is_pending(), i as int);
                }
                return Some(i);
            }
            i = i + 1;
        }
        proof {
            lemma_first_index_none(self@.phases, phase_is_pending());
        }
        None
    }

    /// The path of the next bullet that the phases wait for.
    pub fn next_bullet(&self) -> (path: Option<String>)
        ensures
            match path {
                Some(p) => self@.pending() == Some(p@),
                None => self@.pending() is None,
            },
    {
        match self.pending_index() {
            Some(i) => self.phases[i].1.next_bullet(),
            None => None,
        }
    }

    /// Resolves the reference that `next_bullet` names to the slot `id`.
    /// Phases without one stay as they are.
    fn resolve_bullet(&mut self, id: u64)
        ensures
            final(self)@ == old(self)@.resolve_first(id),
    {
        match self.pending_index() {
            Some(i) => {
                self.phases[i].1.resolve_next(id);
                proof {
                    assert(self@.phases =~= old(self)@.phases.update(
                        i as int,
                        (old(self)@.phases[i as int].0, old(self)@.phases[i as int].1.resolve_first(id)),
                    ));
                }
            },
            None => {},
        }
    }

    /// Whether every reference to a bullet is still a path, as the parser
    /// leaves it.
    fn holds_paths_only(&self) -> (fresh: bool)
        ensures
            fresh == self@.all_bullets(|r: RefState| r is Unresolved),
    {
        let mut i: usize = 0;
        while i < self.phases.len()
            invariant
                i <= self.phases.len(),
                forall|a: int, b: int|
                    0 <= a < i && 0 <= b < self@.phases[a].1.behaviors.len() ==> !(
                    #[trigger] self@.phases[a].1.behaviors[b].bullet() matches Some(
                        RefState::Resolved(_),
                    )),
            decreases self.phases.len() - i,
        {
            if self.phases[i].1.holds_handle() {
                proof {
                    let b = choose|b: int|
                        0 <= b < self@.phases[i as int].1.behaviors.len() && (
                        #[trigger] self@.phases[i as int].1.behaviors[b].bullet() matches Some(
                            RefState::Resolved(_),
                        ));
                    assert(self@.phases[i as int].1.behaviors[b].bullet() matches Some(r) && !(r is Unresolved));
                }
                return false;
            }
            i = i + 1;
        }
        true
    }

    /// Whether no two phases have the same name.
    pub fn has_distinct_names(&self) -> (distinct: bool)
        ensures
            distinct == self@.distinct_names(),
    {
        let mut j: usize = 0;
        while j < self.phases.len()
            invariant
                j <= self.phases.len(),
                forall|a: int, b: int|
                    0 <= a < b < j ==> (#[trigger] self@.phases[a]).0 != (
                    #[trigger] self@.phases[b]).0,
            decreases self.phases.len() - j,
        {
            let mut i: usize = 0;
            while i < j
                invariant
                    i <= j,
                    j < self.phases.len(),
                    forall|a: int| 0 <= a < i ==> (#[trigger] self@.phases[a]).0 != self@.phases[j as int].0,
                decreases j - i,
            {
                if self.phases[i].0 == self.phases[j].0 {
                    assert(self@.phases[i as int].0 == self@.phases[j as int].0);
                    return false;
                }
                i = i + 1;
            }
            j = j + 1;
        }
        true
    }

    /// The position of the phase the enemy is in, if there is a phase of
    /// that name.
    pub fn current_phase(&self) -> (r: Option<usize>)
        ensures
            match r {
                Some(i) => self@.phase_index(self@.current) == Some(i as int),
                None => self@.phase_index(self@.current) is None,
            },
    {
        let mut i: usize = 0;
        while i < self.phases.len()
            invariant
                i <= self.phases.len(),
                forall|k: int| 0 <= k < i ==> !is_named(self@.current)(#[trigger] self@.phases[k]),
            decreases self.phases.len() - i,
        {
            if self.phases[i].0 == self.current {
                proof {
                    assert(is_first(self@.phases, is_named(self@.current), i as int));
                    lemma_first_index_is(self@.phases, is_named(self@.current), i as int);
                }
                return Some(i);
            }
            i = i + 1;
        }
        proof {
            lemma_first_index_none(self@.phases, is_named(self@.current));
        }
        None
    }

    /// Applies the transitions of the current phase, each with the outcome
    /// of its check: the enemy goes to the phase that the last transition
    /// that fired names, and stays where it is when none fired. The
    /// phases themselves do not change.
    pub fn do_transitions(&mut self, fired: &Vec<bool>)
        requires
            old(self)@.phase_index(old(self)@.current) is Some,
        ensures
            final(self)@.phases == old(self)@.phases,
            final(self)@.current == match last_fired(
                old(self)@.phases[old(self)@.phase_index(old(self)@.current).unwrap()].1.transitions,
                fired@,
            ) {
                Some(dest) => dest,
                None => old(self)@.current,
            },
    {
        let at = self.current_phase();
        match at {
            Some(i) => {
                let next = transitions::do_transitions(&self.phases[i].1.transitions, fired);
                match next {
                    Some(dest) => {
                        self.current = dest;
                    },
                    None => {},
                }
            },
            None => {},
        }
    }
}

impl SHandleLoad for Ai {
    open spec fn node(&self) -> AssetView {
        AssetView::Ai(self@)
    }

    fn next_child(&self) -> (c: Option<ChildRef>) {
        match self.next_bullet() {
            Some(path) => Some(ChildRef { kind: AssetKind::Bullet, path }),
            None => None,
        }
    }

    fn resolve_next(&mut self, id: u64) {
        self.resolve_bullet(id);
    }

    fn is_fresh(&self) -> (fresh: bool) {
        let fresh = self.holds_paths_only();
        proof {
            let p = holds_path();
            assert(self@.all_bullets(|r: RefState| p(AssetKind::Bullet, r)) == self@.all_bullets(
                |r: RefState| r is Unresolved,
            ));
        }
        fresh
    }
}

/// A small script to try things with: the enemy idles in "Start" until at
/// most half of its health is left, then moves in "2" for good.
pub fn test_ai() -> (ai: Ai)
    ensures
        ai@.distinct_names(),
        ai@.current == "Start"@,
        ai@.phases.len() == 2,
        ai@.phases[0] == ("Start"@, PhaseView {
            behaviors: seq![BehaviorView::Idle],
            transitions: seq![(Transition::HealthLessThan(Scalar { bits: 0x3f00_0000 }), "2"@)],
        }),
        ai@.phases[1] == ("2"@, PhaseView {
            behaviors: seq![BehaviorView::Moving {
                x: Scalar { bits: 0x3f00_0000 },
                y: Scalar { bits: 0x3f00_0000 },
            }],
            transitions: Seq::<(Transition, Seq<char>)>::empty(),
        }),
{
    let half = Scalar { bits: 0x3f00_0000 };
    let mut start_behaviors: Vec<Behavior> = Vec::new();
    start_behaviors.push(Behavior::Idle);
    let mut start_transitions: Vec<(Transition, String)> = Vec::new();
    start_transitions.push((Transition::HealthLessThan(half), String::from_str("2")));
    let start = Phase { behaviors: start_behaviors, transitions: start_transitions };
    let mut second_behaviors: Vec<Behavior> = Vec::new();
    second_behaviors.push(Behavior::Moving { x: half, y: half });
    let second = Phase { behaviors: second_behaviors, transitions: Vec::new() };
    let mut phases: Vec<(String, Phase)> = Vec::new();
    phases.push((String::from_str("Start"), start));
    phases.push((String::from_str("2"), second));
    let ai = Ai { phases, current: String::from_str("Start") };
    proof {
        assert(ai@.phases[0].1.behaviors =~= seq![BehaviorView::Idle]);
        assert(ai@.phases[0].1.transitions =~= seq![
            (Transition::HealthLessThan(Scalar { bits: 0x3f00_0000 }), "2"@),
        ]);
        assert(ai@.phases[1].1.behaviors =~= seq![
            BehaviorView::Moving {
                x: Scalar { bits: 0x3f00_0000 },
                y: Scalar { bits: 0x3f00_0000 },
            },
        ]);
        assert(ai@.phases[1].1.transitions =~= Seq::<(Transition, Seq<char>)>::empty());
        reveal_strlit("Start");
        reveal_strlit("2");
        assert("Start"@.len() != "2"@.len());
    }
    ai
}

} // verus!
