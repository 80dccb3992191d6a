use vstd::prelude::*;

verus! {

/// An entity: a domain object with a stable identity. Two entities are the
/// same entity exactly when their identities are equal, whatever their other
/// fields hold.
///
/// The view of an entity is its observable state.
pub trait Entity: View + Sized {
    /// The identity of this entity.
    spec fn identity(&self) -> u64;

    /// The identity of this entity.
    fn id(&self) -> (id: u64)
        ensures
            id == self.identity(),
    ;

    /// Entity equality: whether `self` and `other` have the same identity.
    fn same_entity(&self, other: &Self) -> (same: bool)
        ensures
            same == (self.identity() == other.identity()),
    {
        self.id() == other.id()
    }
}

} // verus!
