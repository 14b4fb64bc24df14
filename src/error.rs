use vstd::prelude::*;

verus! {

/// Why a unit of work on the store failed. A failed unit of work leaves the store as it was.
#[derive(Clone, Copy, PartialEq, Eq, Structural, Debug)]
pub enum StoreError {
    /// The entity is absent.
    NotFound,
    /// The caller is not the owner of the entity.
    Forbidden,
    /// A uniqueness constraint would be broken.
    Conflict,
    /// The store cannot complete the work (an identifier space is exhausted).
    Internal,
}

} // verus!
