use vstd::prelude::*;

verus! {

/// An `Entity` represents a thing in the game world. Functionally, an `Entity` is its ID; the
/// `EntityManager` hands them out and recycles the IDs of removed entities.
#[derive(PartialEq, Eq, Structural, Hash, PartialOrd, Ord, Copy, Clone, Debug)]
pub struct Entity(pub u64);

impl Entity {
    /// The entity's numeric ID.
    pub fn id(&self) -> (r: u64)
        ensures
            r == self.0,
    {
        self.0
    }
}

} // verus!
