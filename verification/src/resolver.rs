//! The resolver: a state machine that turns the record at a root path,
//! and every record and image it refers to, into resolved values.
//!
//! The machine reads no file and owns no store. It hands its driver an
//! [`Action`] and takes back the [`Event`] that answers it: bytes for a
//! read, a record for a parse, a handle for a registration. In between it
//! decides what is loaded next, when a record is complete, and under which
//! designation it is committed.

use crate::asset::{Asset, AssetView, SHandleLoad};
use crate::error::{LoadError, LoadFailed};
use crate::image::{
    decode_image, decoded_image, decodes_to, extension, image_view, LeafImage, LeafImageView,
};
use crate::kind::{AssetKind, ChildRef, ChildView};
use crate::search::{first_index, is_first, lemma_first_index_is, lemma_first_index_none};
use crate::shandle::RefState;
use vstd::prelude::*;

verus! {

/// A path that the store has registered in this resolution, with the
/// kind of what it holds and the slot it was given.
#[derive(Clone, Debug, PartialEq, Eq)]
pub struct Known {
    pub path: String,
    pub kind: AssetKind,
    pub id: u64,
}

/// A `Known` as a mathematical value.
pub struct KnownView {
    pub path: Seq<char>,
    pub kind: AssetKind,
    pub id: u64,
}

impl View for Known {
    type V = KnownView;

    open spec fn view(&self) -> KnownView {
        KnownView { path: self.path@, kind: self.kind, id: self.id }
    }
}

/// A record in flight: parsed, not yet committed, under the path it was
/// read from.
#[derive(Clone, Debug, PartialEq, Eq)]
pub struct Frame {
    pub path: String,
    pub asset: Asset,
}

/// A `Frame` as a mathematical value.
pub struct FrameView {
    pub path: Seq<char>,
    pub asset: AssetView,
}

impl View for Frame {
    type V = FrameView;

    open spec fn view(&self) -> FrameView {
        FrameView { path: self.path@, asset: self.asset@ }
    }
}

/// What the machine waits for.
#[derive(Clone, Debug, PartialEq, Eq)]
pub enum Stage {
    /// The bytes at the path of this child.
    Reading(ChildRef),
    /// The record that the bytes of this child parse to.
    Parsing(ChildRef),
    /// The handle of this child, which was handed to the store.
    Registering(ChildRef),
    /// Nothing: the root is committed.
    Done,
    /// Nothing: the load failed.
    Failed,
}

/// A `Stage` as a mathematical value.
pub enum StageView {
    Reading(ChildView),
    Parsing(ChildView),
    Registering(ChildView),
    Done,
    Failed,
}

impl View for Stage {
    type V = StageView;

    open spec fn view(&self) -> StageView {
        match self {
            Stage::Reading(c) => StageView::Reading(c@),
            Stage::Parsing(c) => StageView::Parsing(c@),
            Stage::Registering(c) => StageView::Registering(c@),
            Stage::Done => StageView::Done,
            Stage::Failed => StageView::Failed,
        }
    }
}

/// What the driver reports to the machine.
#[derive(Clone, Debug, PartialEq, Eq)]
pub enum Event {
    /// The bytes that were read.
    Bytes(Vec<u8>),
    /// The read failed.
    ReadFailed,
    /// The image that the bytes decode to, or `None` where they are not
    /// an image.
    Decoded(Option<LeafImage>),
    /// The record that the bytes parse to.
    Parsed(Asset),
    /// The bytes are not a record of the kind asked for.
    ParseFailed,
    /// The slot under which the store holds what was registered.
    Registered(u64),
}

/// An `Event` as a mathematical value.
pub enum EventView {
    Bytes(Seq<u8>),
    ReadFailed,
    Decoded(Option<LeafImageView>),
    Parsed(AssetView),
    ParseFailed,
    Registered(u64),
}

impl View for Event {
    type V = EventView;

    open spec fn view(&self) -> EventView {
        match self {
            Event::Bytes(bytes) => EventView::Bytes(bytes@),
            Event::ReadFailed => EventView::ReadFailed,
            Event::Decoded(image) => EventView::Decoded(image_view(*image)),
            Event::Parsed(asset) => EventView::Parsed(asset@),
            Event::ParseFailed => EventView::ParseFailed,
            Event::Registered(id) => EventView::Registered(*id),
        }
    }
}

/// What the machine asks of its driver.
#[derive(Clone, Debug, PartialEq, Eq)]
pub enum Action {
    /// Read the bytes at `path`; answer with `Bytes` or `ReadFailed`.
    Read { path: String },
    /// Parse `bytes` as a record of `kind`; answer with `Parsed` or
    /// `ParseFailed`.
    Parse { kind: AssetKind, bytes: Vec<u8> },
    /// Register `asset` as the sub-asset of the root with the label
    /// `label`; answer with `Registered`.
    Register { label: String, asset: Asset },
    /// Register `asset` as the root asset. This completes the load; no
    /// answer is awaited.
    Finish { asset: Asset },
    /// Give the load up for the reason stated.
    Fail(LoadFailed),
    /// Nothing is left to do.
    Idle,
}

/// An `Action` as a mathematical value.
pub enum ActionView {
    Read { path: Seq<char> },
    Parse { kind: AssetKind, bytes: Seq<u8> },
    Register { label: Seq<char>, asset: AssetView },
    Finish { asset: AssetView },
    Fail { path: Seq<char>, cause: LoadError },
    Idle,
}

impl View for Action {
    type V = ActionView;

    open spec fn view(&self) -> ActionView {
        match self {
            Action::Read { path } => ActionView::Read { path: path@ },
            Action::Parse { kind, bytes } => ActionView::Parse { kind: *kind, bytes: bytes@ },
            Action::Register { label, asset } => ActionView::Register {
                label: label@,
                asset: asset@,
            },
            Action::Finish { asset } => ActionView::Finish { asset: asset@ },
            Action::Fail(failed) => ActionView::Fail { path: failed.path@, cause: failed.cause },
            Action::Idle => ActionView::Idle,
        }
    }
}

impl ActionView {
    /// The record that the action commits to the store, if it commits
    /// one.
    pub open spec fn committed(self) -> Option<AssetView> {
        match self {
            ActionView::Register { asset, .. } => Some(asset),
            ActionView::Finish { asset } => Some(asset),
            _ => None,
        }
    }
}

/// The state of one resolution.
pub struct Resolver {
    stack: Vec<Frame>,
    known: Vec<Known>,
    stage: Stage,
    reads: Ghost<Seq<Seq<char>>>,
    handed: Ghost<Option<AssetView>>,
    log: Ghost<Seq<AssetView>>,
}

/// A `Resolver` as a mathematical value: the records in flight, the root
/// first and each followed by the child that it waits for; the paths
/// registered so far, in the order of their registration; and what the
/// machine waits for. Three more parts are kept for the record only:
/// every path that the machine has asked to read, in order; the record
/// that it has handed to the store and awaits the handle of; and the
/// records that were registered, each at the position of its
/// registration.
pub struct ResolverView {
    pub stack: Seq<FrameView>,
    pub known: Seq<KnownView>,
    pub stage: StageView,
    pub reads: Seq<Seq<char>>,
    pub handed: Option<AssetView>,
    pub log: Seq<AssetView>,
}

impl View for Resolver {
    type V = ResolverView;

    closed spec fn view(&self) -> ResolverView {
        ResolverView {
            stack: self.stack@.map_values(|f: Frame| f@),
            known: self.known@.map_values(|k: Known| k@),
            stage: self.stage@,
            reads: self.reads@,
            handed: self.handed@,
            log: self.log@,
        }
    }
}

/// The property of a registration of being that of `path`.
pub open spec fn has_path(path: Seq<char>) -> spec_fn(KnownView) -> bool {
    |k: KnownView| k.path == path
}

/// The registration of `path`, if it was registered.
pub open spec fn lookup(known: Seq<KnownView>, path: Seq<char>) -> Option<KnownView> {
    match first_index(known, has_path(path)) {
        Some(i) => Some(known[i]),
        None => None,
    }
}

/// Whether a record read from `path` is in flight.
pub open spec fn in_flight(stack: Seq<FrameView>, path: Seq<char>) -> bool {
    exists|i: int| 0 <= i < stack.len() && (#[trigger] stack[i]).path == path
}

/// How far a record gets with what is registered already.
pub enum Settled {
    /// Every reference is resolved.
    Complete(AssetView),
    /// The record waits for a child that is not registered.
    Needs(AssetView, ChildView),
    /// The record refers to a path that is registered with another kind.
    Mismatch(ChildView),
}

/// Resolves the references of `asset`, in traversal order, as long as
/// their paths are registered, each to the slot of its path.
pub open spec fn settle(asset: AssetView, known: Seq<KnownView>) -> Settled
    decreases asset.unresolved(),
    via settle_decreases
{
    match asset.pending() {
        None => Settled::Complete(asset),
        Some(child) => match lookup(known, child.path) {
            None => Settled::Needs(asset, child),
            Some(k) => if k.kind == child.kind {
                settle(asset.resolve_first(k.id), known)
            } else {
                Settled::Mismatch(child)
            },
        },
    }
}

#[via_fn]
proof fn settle_decreases(asset: AssetView, known: Seq<KnownView>) {
    if asset.pending() is Some {
        assert forall|id: u64| asset.resolve_first(id).unresolved() < asset.unresolved() by {
            crate::asset::lemma_resolve_first(
                asset,
                id,
                |k: AssetKind, r: RefState| true,
            );
        }
    }
}

impl ResolverView {
    /// The state in which the resolution of the record of `kind` at
    /// `path` begins.
    pub open spec fn initial(kind: AssetKind, path: Seq<char>) -> ResolverView {
        ResolverView {
            stack: Seq::empty(),
            known: Seq::empty(),
            stage: StageView::Reading(ChildView { kind, path }),
            reads: seq![path],
            handed: None,
            log: Seq::empty(),
        }
    }

    /// The load is given up at `path` for `cause`: the records in flight
    /// are dropped.
    pub open spec fn fail(self, path: Seq<char>, cause: LoadError) -> (ResolverView, ActionView) {
        (
            ResolverView { stack: Seq::empty(), stage: StageView::Failed, ..self },
            ActionView::Fail { path, cause },
        )
    }

    /// Goes on with the innermost record in flight: resolves what is
    /// registered already; then asks for the first child that is not, or,
    /// where none is left, commits the record, as the root asset if it is
    /// the only one in flight and as a sub-asset labelled with its own
    /// path otherwise. A child whose path is in flight already would be
    /// its own ancestor: the content is no graph that can be resolved, and
    /// the load fails with `ParseError`, as it does for a path that is
    /// registered with another kind.
    pub open spec fn advance(self) -> (ResolverView, ActionView)
        recommends
            self.stack.len() > 0,
    {
        let top = self.stack.last();
        match settle(top.asset, self.known) {
            Settled::Complete(asset) => if self.stack.len() == 1 {
                (
                    ResolverView { stack: Seq::empty(), stage: StageView::Done, ..self },
                    ActionView::Finish { asset },
                )
            } else {
                (
                    ResolverView {
                        stack: self.stack.drop_last(),
                        stage: StageView::Registering(
                            ChildView { kind: asset.kind(), path: top.path },
                        ),
                        handed: Some(asset),
                        ..self
                    },
                    ActionView::Register { label: top.path, asset },
                )
            },
            Settled::Needs(asset, child) => if in_flight(self.stack, child.path) {
                self.fail(child.path, LoadError::ParseError)
            } else {
                (
                    ResolverView {
                        stack: self.stack.update(
                            self.stack.len() - 1,
                            FrameView { path: top.path, asset },
                        ),
                        stage: StageView::Reading(child),
                        reads: self.reads.push(child.path),
                        ..self
                    },
                    ActionView::Read { path: child.path },
                )
            },
            Settled::Mismatch(child) => self.fail(child.path, LoadError::ParseError),
        }
    }

    /// Takes up the record that was loaded for `child`.
    pub open spec fn enter(self, child: ChildView, asset: AssetView) -> (
        ResolverView,
        ActionView,
    ) {
        if asset.kind() == child.kind && asset.fresh() {
            (ResolverView {
                stack: self.stack.push(FrameView { path: child.path, asset }),
                ..self
            }).advance()
        } else {
            self.fail(child.path, LoadError::ParseError)
        }
    }

    /// Takes up the outcome of decoding the image that was read for
    /// `child`.
    pub open spec fn decoded(self, child: ChildView, outcome: Option<LeafImageView>) -> (
        ResolverView,
        ActionView,
    ) {
        match outcome {
            Some(image) => self.enter(child, AssetView::Image(image)),
            None => self.fail(child.path, LoadError::ParseError),
        }
    }

    /// The transition of the machine: the state after `event`, and the
    /// action that the machine asks for.
    ///
    /// Bytes of an image are decoded by the machine itself, and the
    /// transition is that of the `Decoded` event with the outcome. An
    /// event that does not answer what the machine waits for fails the
    /// load with `ResolutionConflict`. Once the machine is done or has
    /// failed it stays as it is and asks for nothing.
    pub open spec fn step(self, event: EventView) -> (ResolverView, ActionView) {
        match self.stage {
            StageView::Reading(child) => match event {
                EventView::Bytes(bytes) => if child.kind == AssetKind::Image {
                    self.decoded(
                        child,
                        match extension(child.path) {
                            Some(e) => decoded_image(bytes, e),
                            None => None,
                        },
                    )
                } else {
                    (
                        ResolverView { stage: StageView::Parsing(child), ..self },
                        ActionView::Parse { kind: child.kind, bytes },
                    )
                },
                EventView::Decoded(outcome) => if child.kind == AssetKind::Image {
                    self.decoded(child, outcome)
                } else {
                    self.fail(child.path, LoadError::ResolutionConflict)
                },
                EventView::ReadFailed => self.fail(child.path, LoadError::IoError),
                _ => self.fail(child.path, LoadError::ResolutionConflict),
            },
            StageView::Parsing(child) => match event {
                EventView::Parsed(asset) => self.enter(child, asset),
                EventView::ParseFailed => self.fail(child.path, LoadError::ParseError),
                _ => self.fail(child.path, LoadError::ResolutionConflict),
            },
            StageView::Registering(child) => match event {
                EventView::Registered(id) => if self.stack.len() == 0 {
                    self.fail(child.path, LoadError::ResolutionConflict)
                } else {
                    let parent = self.stack.last();
                    (ResolverView {
                        stack: self.stack.update(
                            self.stack.len() - 1,
                            FrameView { path: parent.path, asset: parent.asset.resolve_first(id) },
                        ),
                        known: self.known.push(
                            KnownView { path: child.path, kind: child.kind, id },
                        ),
                        handed: None,
                        log: match self.handed {
                            Some(asset) => self.log.push(asset),
                            None => self.log,
                        },
                        ..self
                    }).advance()
                },
                _ => self.fail(child.path, LoadError::ResolutionConflict),
            },
            StageView::Done => (self, ActionView::Idle),
            StageView::Failed => (self, ActionView::Idle),
        }
    }

    /// Whether `event` brings the bytes of an image, which the machine
    /// decodes.
    pub open spec fn decodes(self, event: EventView) -> bool {
        &&& self.stage matches StageView::Reading(child)
        &&& child.kind == AssetKind::Image
        &&& event is Bytes
    }
}

/// Whether `outcome` is what decoding `bytes` as the image file at `path`
/// gives: a path without an extension is not decoded.
pub open spec fn decode_outcome(
    bytes: Seq<u8>,
    path: Seq<char>,
    outcome: Option<LeafImageView>,
) -> bool {
    match extension(path) {
        Some(e) => decodes_to(bytes, e, outcome),
        None => outcome is None,
    }
}

impl Stage {
    /// A copy of the stage.
    pub fn duplicate(&self) -> (copy: Stage)
        ensures
            copy@ == self@,
    {
        match self {
            Stage::Reading(c) => Stage::Reading(ChildRef { kind: c.kind, path: c.path.clone() }),
            Stage::Parsing(c) => Stage::Parsing(ChildRef { kind: c.kind, path: c.path.clone() }),
            Stage::Registering(c) => Stage::Registering(
                ChildRef { kind: c.kind, path: c.path.clone() },
            ),
            Stage::Done => Stage::Done,
            Stage::Failed => Stage::Failed,
        }
    }
}

impl Resolver {
    /// Begins the resolution of the record of `kind` at `path`, the root of
    /// the load: nothing is in flight, nothing is registered, and the
    /// first thing asked for is the bytes of the root.
    pub fn start(kind: AssetKind, path: String) -> (r: (Resolver, Action))
        ensures
            r.0@ == ResolverView::initial(kind, path@),
            r.1@ == (ActionView::Read { path: path@ }),
            r.0@.wf(),
    {
        proof {
            crate::invariants::lemma_initial_is_well_formed(kind, path@);
        }
        let reads: Ghost<Seq<Seq<char>>> = Ghost(Seq::empty().push(path@));
        let handed: Ghost<Option<AssetView>> = Ghost(None);
        let log: Ghost<Seq<AssetView>> = Ghost(Seq::empty());
        let resolver = Resolver {
            stack: Vec::new(),
            known: Vec::new(),
            stage: Stage::Reading(ChildRef { kind, path: path.clone() }),
            reads,
            handed,
            log,
        };
        proof {
            assert(resolver@.stack =~= Seq::empty());
            assert(resolver@.known =~= Seq::empty());
        }
        (resolver, Action::Read { path })
    }

    /// What the machine waits for.
    pub fn stage(&self) -> (stage: Stage)
        ensures
            stage@ == self@.stage,
    {
        self.stage.duplicate()
    }

    /// Whether the root is committed.
    pub fn is_done(&self) -> (done: bool)
        ensures
            done == (self@.stage is Done),
    {
        match self.stage {
            Stage::Done => true,
            _ => false,
        }
    }

    /// Whether the load has failed.
    pub fn has_failed(&self) -> (failed: bool)
        ensures
            failed == (self@.stage is Failed),
    {
        match self.stage {
            Stage::Failed => true,
            _ => false,
        }
    }

    /// How many records are in flight.
    pub fn depth(&self) -> (depth: usize)
        ensures
            depth == self@.stack.len(),
    {
        self.stack.len()
    }

    /// The slot that `path` was registered under in this resolution, with
    /// the kind of what it holds.
    pub fn registered(&self, path: &String) -> (r: Option<(AssetKind, u64)>)
        ensures
            match lookup(self@.known, path@) {
                Some(k) => r == Some((k.kind, k.id)),
                None => r is None,
            },
    {
        match self.find(path) {
            Some(i) => Some((self.known[i].kind, self.known[i].id)),
            None => None,
        }
    }

    /// The position of the registration of `path`.
    fn find(&self, path: &String) -> (r: Option<usize>)
        ensures
            match r {
                Some(i) => first_index(self@.known, has_path(path@)) == Some(i as int),
                None => first_index(self@.known, has_path(path@)) is None,
            },
    {
        let mut i: usize = 0;
        while i < self.known.len()
            invariant
                i <= self.known.len(),
                forall|k: int| 0 <= k < i ==> !has_path(path@)(#[trigger] self@.known[k]),
            decreases self.known.len() - i,
        {
            if self.known[i].path == *path {
                proof {
                    assert(is_first(self@.known, has_path(path@), i as int));
                    lemma_first_index_is(self@.known, has_path(path@), i as int);
                }
                return Some(i);
            }
            i = i + 1;
        }
        proof {
            lemma_first_index_none(self@.known, has_path(path@));
        }
        None
    }

    /// Whether a record read from `path` is in flight.
    fn is_in_flight(&self, path: &String) -> (found: bool)
        ensures
            found == in_flight(self@.stack, path@),
    {
        let mut i: usize = 0;
        while i < self.stack.len()
            invariant
                i <= self.stack.len(),
                forall|k: int| 0 <= k < i ==> (#[trigger] self@.stack[k]).path != path@,
            decreases self.stack.len() - i,
        {
            if self.stack[i].path == *path {
                assert(self@.stack[i as int].path == path@);
                return true;
            }
            i = i + 1;
        }
        false
    }

    /// Gives the load up.
    fn fail(&mut self, path: String, cause: LoadError) -> (action: Action)
        ensures
            (final(self)@, action@) == old(self)@.fail(path@, cause),
    {
        self.stack = Vec::new();
        self.stage = Stage::Failed;
        proof {
            assert(self@.stack =~= Seq::empty());
        }
        Action::Fail(LoadFailed { path, cause })
    }

    /// Goes on with the innermost record in flight.
    fn advance(&mut self) -> (action: Action)
        requires
            old(self)@.stack.len() > 0,
        ensures
            (final(self)@, action@) == old(self)@.advance(),
    {
        let last: usize = self.stack.len() - 1;
        let ghost before = self@;
        loop
            invariant
                before == old(self)@,
                before.stack.len() > 0,
                last == self.stack.len() - 1,
                self@.stack.len() == before.stack.len(),
                self@.known == before.known,
                self@.stage == before.stage,
                self@.reads == before.reads,
                self@.handed == before.handed,
                self@.log == before.log,
                forall|i: int| 0 <= i < last ==> self@.stack[i] == before.stack[i],
                self@.stack[last as int].path == before.stack[last as int].path,
                settle(self@.stack[last as int].asset, self@.known) == settle(
                    before.stack[last as int].asset,
                    before.known,
                ),
            ensures
                self@.stack[last as int].asset.pending() is None,
            decreases self@.stack[last as int].asset.unresolved(),
        {
            let next = self.stack[last].asset.next_child();
            match next {
                None => {
                    break ;
                },
                Some(child) => {
                    match self.find(&child.path) {
                        None => {
                            proof {
                                let top = self@.stack[last as int].asset;
                                assert(lookup(self@.known, child@.path) is None);
                                assert(settle(top, self@.known) == Settled::Needs(top, child@));
                                assert(in_flight(self@.stack, child@.path) == in_flight(
                                    before.stack,
                                    child@.path,
                                )) by {
                                    if in_flight(self@.stack, child@.path) {
                                        let i = choose|i: int|
                                            0 <= i < self@.stack.len() && (
                                            #[trigger] self@.stack[i]).path == child@.path;
                                        assert(before.stack[i].path == child@.path);
                                    }
                                    if in_flight(before.stack, child@.path) {
                                        let i = choose|i: int|
                                            0 <= i < before.stack.len() && (
                                            #[trigger] before.stack[i]).path == child@.path;
                                        assert(self@.stack[i].path == child@.path);
                                    }
                                }
                            }
                            if self.is_in_flight(&child.path) {
                                return self.fail(child.path, LoadError::ParseError);
                            }
                            let path = child.path.clone();
                            let reads: Ghost<Seq<Seq<char>>> = Ghost(self.reads@.push(path@));
                            self.reads = reads;
                            self.stage = Stage::Reading(child);
                            proof {
                                let top = self@.stack[last as int].asset;
                                assert(self@.stack =~= before.stack.update(
                                    last as int,
                                    FrameView { path: before.stack[last as int].path, asset: top },
                                ));
                            }
                            return Action::Read { path };
                        },
                        Some(at) => {
                            proof {
                                let top = self@.stack[last as int].asset;
                                let k = self@.known[at as int];
                                assert(lookup(self@.known, child@.path) == Some(k));
                                assert(settle(top, self@.known) == if k.kind == child@.kind {
                                    settle(top.resolve_first(k.id), self@.known)
                                } else {
                                    Settled::Mismatch(child@)
                                });
                            }
                            if self.known[at].kind == child.kind {
                                let id = self.known[at].id;
                                proof {
                                    crate::asset::lemma_resolve_first(
                                        self@.stack[last as int].asset,
                                        id,
                                        |k: AssetKind, r: RefState| true,
                                    );
                                }
                                self.stack[last].asset.resolve_next(id);
                            } else {
                                return self.fail(child.path, LoadError::ParseError);
                            }
                        },
                    }
                },
            }
        }
        proof {
            let top = self@.stack[last as int].asset;
            assert(settle(top, self@.known) == Settled::Complete(top));
        }
        let ghost settled = self@;
        let frame = self.stack.pop().unwrap();
        proof {
            assert(frame@ == settled.stack[last as int]);
            assert(self@.stack =~= before.stack.drop_last());
        }
        if self.stack.len() == 0 {
            self.stage = Stage::Done;
            proof {
                assert(self@.stack =~= Seq::empty());
            }
            Action::Finish { asset: frame.asset }
        } else {
            let handed: Ghost<Option<AssetView>> = Ghost(Some(frame.asset@));
            self.handed = handed;
            self.stage = Stage::Registering(
                ChildRef { kind: frame.asset.kind(), path: frame.path.clone() },
            );
            Action::Register { label: frame.path, asset: frame.asset }
        }
    }

    /// Takes up the record that was loaded for `child`.
    fn enter(&mut self, child: ChildRef, asset: Asset) -> (action: Action)
        ensures
            (final(self)@, action@) == old(self)@.enter(child@, asset@),
    {
        if asset.kind() == child.kind && asset.is_fresh() {
            self.stack.push(Frame { path: child.path, asset });
            proof {
                assert(self@.stack =~= old(self)@.stack.push(
                    FrameView { path: child@.path, asset: asset@ },
                ));
            }
            self.advance()
        } else {
            self.fail(child.path, LoadError::ParseError)
        }
    }

    /// Takes up the outcome of decoding the image that was read for
    /// `child`.
    fn decoded(&mut self, child: ChildRef, outcome: Option<LeafImage>) -> (action: Action)
        ensures
            (final(self)@, action@) == old(self)@.decoded(child@, image_view(outcome)),
    {
        match outcome {
            Some(image) => self.enter(child, Asset::Image(image)),
            None => self.fail(child.path, LoadError::ParseError),
        }
    }

    /// Takes up the handle of the child that was registered.
    fn registered_child(&mut self, child: ChildRef, id: u64) -> (action: Action)
        requires
            old(self)@.stage == StageView::Registering(child@),
        ensures
            (final(self)@, action@) == old(self)@.step(EventView::Registered(id)),
    {
        if self.stack.len() == 0 {
            return self.fail(child.path, LoadError::ResolutionConflict);
        }
        let last: usize = self.stack.len() - 1;
        self.stack[last].asset.resolve_next(id);
        self.known.push(Known { path: child.path, kind: child.kind, id });
        let log: Ghost<Seq<AssetView>> = Ghost(
            match self.handed@ {
                Some(asset) => self.log@.push(asset),
                None => self.log@,
            },
        );
        let handed: Ghost<Option<AssetView>> = Ghost(None);
        self.log = log;
        self.handed = handed;
        proof {
            let parent = old(self)@.stack.last();
            assert(self@.stack =~= old(self)@.stack.update(
                last as int,
                FrameView { path: parent.path, asset: parent.asset.resolve_first(id) },
            ));
            assert(self@.known =~= old(self)@.known.push(
                KnownView { path: child@.path, kind: child@.kind, id },
            ));
        }
        self.advance()
    }

    /// Feeds the machine the event that answers its last action and
    /// returns the action it asks for next.
    ///
    /// The transition is `ResolverView::step`. Where the event brings the
    /// bytes of an image, the machine decodes them, and the transition is
    /// that of the `Decoded` event with what the decoder made of them.
    /// Whatever the event, a record that the action commits has every
    /// reference resolved, and the invariant of the machine is kept.
    pub fn step(&mut self, event: Event) -> (action: Action)
        ensures
            !old(self)@.decodes(event@) ==> (final(self)@, action@) == old(self)@.step(event@),
            old(self)@.decodes(event@) ==> exists|outcome: Option<LeafImageView>|
                decode_outcome(
                    event@->Bytes_0,
                    old(self)@.stage->Reading_0.path,
                    outcome,
                ) && (final(self)@, action@) == #[trigger] old(self)@.step(
                    EventView::Decoded(outcome),
                ),
            action@.committed() matches Some(asset) ==> asset.resolved(),
            old(self)@.wf() ==> final(self)@.wf(),
    {
        let action = self.transition(event);
        proof {
            let before = old(self)@;
            if before.decodes(event@) {
                let outcome = choose|outcome: Option<LeafImageView>|
                    decode_outcome(event@->Bytes_0, before.stage->Reading_0.path, outcome) && (
                    self@,
                    action@,
                ) == #[trigger] before.step(EventView::Decoded(outcome));
                crate::invariants::lemma_commits_are_resolved(before, EventView::Decoded(outcome));
                if before.wf() {
                    crate::invariants::lemma_step_keeps_well_formed(
                        before,
                        EventView::Decoded(outcome),
                    );
                }
            } else {
                crate::invariants::lemma_commits_are_resolved(before, event@);
                if before.wf() {
                    crate::invariants::lemma_step_keeps_well_formed(before, event@);
                }
            }
        }
        action
    }

    /// The transition itself.
    fn transition(&mut self, event: Event) -> (action: Action)
        ensures
            !old(self)@.decodes(event@) ==> (final(self)@, action@) == old(self)@.step(event@),
            old(self)@.decodes(event@) ==> exists|outcome: Option<LeafImageView>|
                decode_outcome(
                    event@->Bytes_0,
                    old(self)@.stage->Reading_0.path,
                    outcome,
                ) && (final(self)@, action@) == #[trigger] old(self)@.step(
                    EventView::Decoded(outcome),
                ),
    {
        let stage = self.stage.duplicate();
        match stage {
            Stage::Reading(child) => match event {
                Event::Bytes(bytes) => {
                    if child.kind == AssetKind::Image {
                        let outcome = decode_image(&bytes, child.path.as_str());
                        let action = self.decoded(child, outcome);
                        proof {
                            assert(decode_outcome(bytes@, child@.path, image_view(outcome)));
                            assert((self@, action@) == old(self)@.step(
                                EventView::Decoded(image_view(outcome)),
                            ));
                        }
                        action
                    } else {
                        let kind = child.kind;
                        self.stage = Stage::Parsing(child);
                        Action::Parse { kind, bytes }
                    }
                },
                Event::Decoded(outcome) => {
                    if child.kind == AssetKind::Image {
                        self.decoded(child, outcome)
                    } else {
                        self.fail(child.path, LoadError::ResolutionConflict)
                    }
                },
                Event::ReadFailed => self.fail(child.path, LoadError::IoError),
                _ => self.fail(child.path, LoadError::ResolutionConflict),
            },
            Stage::Parsing(child) => match event {
                Event::Parsed(asset) => self.enter(child, asset),
                Event::ParseFailed => self.fail(child.path, LoadError::ParseError),
                _ => self.fail(child.path, LoadError::ResolutionConflict),
            },
            Stage::Registering(child) => match event {
                Event::Registered(id) => self.registered_child(child, id),
                _ => self.fail(child.path, LoadError::ResolutionConflict),
            },
            Stage::Done => Action::Idle,
            Stage::Failed => Action::Idle,
        }
    }
}

} // verus!
