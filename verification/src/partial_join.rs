use vstd::prelude::*;

verus! {

/// A fallible join operation.
pub trait PartialJoin {
    /// The error type for when `join` fails.
    type Error;

    /// Merges two values of a type into a new value of the same type that
    /// holds the information of both.
    ///
    /// The operation is associative, commutative and idempotent.
    fn join(&self, other: &Self) -> Result<Self, Self::Error>
        where Self: Sized;
}

} // verus!
