//! The two-state reference cell that content records use to point at each
//! other: a path until the target is loaded, a handle afterwards.

use crate::error::LoadError;
use core::marker::PhantomData;
use vstd::prelude::*;

verus! {

/// An identifier that the store issued for a committed value of kind `T`.
/// Two handles with the same `id` name the same slot of the store; nothing
/// is said about the contents of different slots.
#[derive(Debug, PartialEq, Eq)]
pub struct Handle<T> {
    pub id: u64,
    pub kind: PhantomData<T>,
}

impl<T> Handle<T> {
    /// The handle for slot `id`.
    pub fn new(id: u64) -> (h: Self)
        ensures
            h.id == id,
    {
        Handle { id, kind: PhantomData }
    }

    /// The slot this handle names.
    pub fn id(&self) -> (id: u64)
        ensures
            id == self.id,
    {
        self.id
    }

    /// Whether both handles name the same slot.
    pub fn same_slot(&self, other: &Self) -> (same: bool)
        ensures
            same == (self.id == other.id),
    {
        self.id == other.id
    }
}

impl<T> Clone for Handle<T> {
    fn clone(&self) -> (h: Self)
        ensures
            h.id == self.id,
    {
        Handle { id: self.id, kind: PhantomData }
    }
}

impl<T> Copy for Handle<T> {

}

/// What a lazy reference holds, as a mathematical value.
pub enum RefState {
    /// The path of content that is not loaded yet.
    Unresolved(Seq<char>),
    /// The slot of the store that holds the loaded content.
    Resolved(u64),
}

/// A reference to content of kind `T`: the path it was written with, or,
/// once the content is in the store, the handle of it.
#[derive(Debug, PartialEq, Eq)]
pub enum SHandle<T> {
    Serialized(String),
    Loaded(Handle<T>),
}

impl<T> View for SHandle<T> {
    type V = RefState;

    open spec fn view(&self) -> RefState {
        match self {
            SHandle::Serialized(path) => RefState::Unresolved(path@),
            SHandle::Loaded(handle) => RefState::Resolved(handle.id),
        }
    }
}

impl<T> Clone for SHandle<T> {
    fn clone(&self) -> (copy: Self)
        ensures
            copy@ == self@,
    {
        match self {
            SHandle::Serialized(path) => SHandle::Serialized(path.clone()),
            SHandle::Loaded(handle) => SHandle::Loaded(Handle::new(handle.id)),
        }
    }
}

impl<T> SHandle<T> {
    /// A fresh reference to the content at `path`. Every reference starts
    /// out unresolved.
    pub fn new(path: String) -> (r: Self)
        ensures
            r@ == RefState::Unresolved(path@),
    {
        SHandle::Serialized(path)
    }

    /// Whether the reference holds a handle.
    pub fn is_loaded(&self) -> (loaded: bool)
        ensures
            loaded == (self@ is Resolved),
    {
        match self {
            SHandle::Serialized(_) => false,
            SHandle::Loaded(_) => true,
        }
    }

    /// The path of an unresolved reference. A resolved reference has given
    /// its path up: asking for it is `AlreadyResolved`.
    pub fn path(&self) -> (r: Result<String, LoadError>)
        ensures
            match self@ {
                RefState::Unresolved(p) => r matches Ok(s) && s@ == p,
                RefState::Resolved(_) => r == Err::<String, LoadError>(
                    LoadError::AlreadyResolved,
                ),
            },
    {
        match self {
            SHandle::Serialized(path) => Ok(path.clone()),
            SHandle::Loaded(_) => Err(LoadError::AlreadyResolved),
        }
    }

    /// The handle of a resolved reference. An unresolved one has none:
    /// asking for it is `ReferenceNotResolved`, never a made-up handle.
    pub fn value(&self) -> (r: Result<Handle<T>, LoadError>)
        ensures
            match self@ {
                RefState::Resolved(id) => r matches Ok(h) && h.id == id,
                RefState::Unresolved(_) => r matches Err(e) && e
                    == LoadError::ReferenceNotResolved,
            },
    {
        match self {
            SHandle::Loaded(handle) => Ok(Handle::new(handle.id)),
            SHandle::Serialized(_) => Err(LoadError::ReferenceNotResolved),
        }
    }

    /// The handle of a reference that is known to be resolved.
    pub fn unwrap(&self) -> (h: Handle<T>)
        requires
            self@ is Resolved,
        ensures
            self@ == RefState::Resolved(h.id),
    {
        match self {
            SHandle::Loaded(handle) => Handle::new(handle.id),
            SHandle::Serialized(_) => {
                proof {
                    assert(false);
                }
                Handle::new(0)
            },
        }
    }

    /// Gives an unresolved reference the handle that the asset server
    /// issued for its path. A reference that is already resolved keeps the
    /// handle it has.
    pub fn load(&mut self, handle: Handle<T>)
        ensures
            final(self)@ == match old(self)@ {
                RefState::Unresolved(_) => RefState::Resolved(handle.id),
                RefState::Resolved(id) => RefState::Resolved(id),
            },
    {
        if !self.is_loaded() {
            *self = SHandle::Loaded(handle);
        }
    }

    /// The one legal transition: an unresolved reference becomes resolved
    /// to `handle`. Resolving again to the same handle changes nothing;
    /// resolving again to another handle is a `ResolutionConflict` and
    /// leaves the reference as it was.
    pub fn resolve_in_place(&mut self, handle: Handle<T>) -> (r: Result<(), LoadError>)
        ensures
            match old(self)@ {
                RefState::Unresolved(_) => r is Ok && final(self)@ == RefState::Resolved(
                    handle.id,
                ),
                RefState::Resolved(id) => final(self)@ == old(self)@ && (id == handle.id ==> r is Ok)
                    && (id != handle.id ==> r == Err::<(), LoadError>(
                    LoadError::ResolutionConflict,
                )),
            },
    {
        match self {
            SHandle::Serialized(_) => {
                *self = SHandle::Loaded(handle);
                Ok(())
            },
            SHandle::Loaded(current) => {
                if current.id == handle.id {
                    Ok(())
                } else {
                    Err(LoadError::ResolutionConflict)
                }
            },
        }
    }
}

} // verus!
