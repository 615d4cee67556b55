use vstd::prelude::*;

verus! {

/// Keeps the set of ordering markers closed.
pub trait Unord {}

impl Unord for super::Unordered {}

impl Unord for super::InputsOnlyUnordered {}

impl Unord for super::OutputsOnlyUnordered {}

} // verus!
