//! What can go wrong while content is loaded.

use vstd::prelude::*;

verus! {

/// Why a load, or an access to a lazy reference, did not succeed.
#[derive(Clone, Copy, Debug, PartialEq, Eq, Structural)]
pub enum LoadError {
    /// The bytes of a path could not be read.
    IoError,
    /// The bytes were read but are not a record of the expected kind.
    ParseError,
    /// A handle was asked of a reference that still holds a path.
    ReferenceNotResolved,
    /// A resolved reference was resolved again, to another handle, or the
    /// driver answered a request with an event that does not belong to it.
    ResolutionConflict,
    /// A path was asked of a reference that already holds a handle.
    AlreadyResolved,
}

/// The failure of a whole root load: the path at which it stopped and why.
#[derive(Clone, Debug, PartialEq, Eq)]
pub struct LoadFailed {
    pub path: String,
    pub cause: LoadError,
}

impl View for LoadFailed {
    type V = (Seq<char>, LoadError);

    open spec fn view(&self) -> (Seq<char>, LoadError) {
        (self.path@, self.cause)
    }
}

} // verus!
