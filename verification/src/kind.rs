//! The kinds of content, and what names a piece of content to load.

use crate::shandle::RefState;
use vstd::prelude::*;

verus! {

/// The kinds of node in the content graph.
#[derive(Clone, Copy, Debug, PartialEq, Eq, Structural)]
pub enum AssetKind {
    /// A decoded image; it refers to nothing.
    Image,
    /// What a weapon fires.
    Bullet,
    /// Something that can be dropped, picked up and equipped.
    Item,
    /// An enemy with its behaviour and its drops.
    Enemy,
    /// The behaviour of an enemy, as a record of its own.
    Ai,
    /// The drops of an enemy, as a record of their own.
    DropTable,
}

/// A piece of content that has to be loaded: its kind and its path.
#[derive(Clone, Debug, PartialEq, Eq)]
pub struct ChildRef {
    pub kind: AssetKind,
    pub path: String,
}

/// A `ChildRef` as a mathematical value.
pub struct ChildView {
    pub kind: AssetKind,
    pub path: Seq<char>,
}

impl View for ChildRef {
    type V = ChildView;

    open spec fn view(&self) -> ChildView {
        ChildView { kind: self.kind, path: self.path@ }
    }
}

/// The view of a child that may be missing.
pub open spec fn child_view(c: Option<ChildRef>) -> Option<ChildView> {
    match c {
        Some(c) => Some(c@),
        None => None,
    }
}

/// The child of the given kind at `path`, if there is a path.
pub open spec fn child_at(kind: AssetKind, path: Option<Seq<char>>) -> Option<ChildView> {
    match path {
        Some(path) => Some(ChildView { kind, path }),
        None => None,
    }
}

/// The child of the given kind at the path of `r`, if `r` holds a path.
pub open spec fn child_of(kind: AssetKind, r: RefState) -> Option<ChildView> {
    match r {
        RefState::Unresolved(path) => Some(ChildView { kind, path }),
        RefState::Resolved(_) => None,
    }
}

} // verus!
