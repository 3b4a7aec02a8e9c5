use vstd::prelude::*;

verus! {

/// An opaque handle identifying one concrete build output.
///
/// Equality and hashing go by identity, never by content: two handles are
/// the same output exactly when their identifiers are equal. Handles are
/// immutable once constructed and are shared by copying the handle, never
/// the underlying output.
#[derive(Clone, Copy, Debug, PartialEq, Eq, Hash, Structural)]
pub struct Artifact {
    pub id: u64,
}

impl Artifact {
    pub fn new(id: u64) -> (r: Artifact)
        ensures
            r.id == id,
    {
        Artifact { id }
    }
}

} // verus!
