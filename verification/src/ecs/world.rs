//! The world: the systems that act on it, in the order they were added.

use vstd::prelude::*;

verus! {

/// A world of systems of one kind.
pub struct World<TSystems> {
    pub systems: Vec<TSystems>,
}

impl<TSystems> World<TSystems> {
    /// A world without systems.
    pub fn new() -> (world: Self)
        ensures
            world.systems@ == Seq::<TSystems>::empty(),
    {
        Self { systems: Vec::new() }
    }
}

} // verus!
