//! Components: the data that entities are made of.

use vstd::prelude::*;

verus! {

/// Marks a type as a component.
pub trait Component {
}

/// Entities are known by number.
pub type EntityId = usize;

} // verus!
