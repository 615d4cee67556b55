//! A PSBT modelled as a join semilattice: fragments of a partially signed
//! transaction that peers learn independently merge with `join`, and the merge
//! is idempotent, commutative and associative, so every peer reaches the same
//! state whatever the order or duplication of the messages.
use vstd::prelude::*;

pub mod byte_map;
pub mod bytes;
pub mod canonical;
pub mod constructor;
pub mod conversions;
pub mod global;
pub mod input;
pub mod input_merge;
pub mod ordering;
pub mod output;
pub mod partial_join;
pub mod transaction;
pub mod value_set;
pub mod values;

pub use byte_map::ByteMap;
pub use constructor::{Constructor, InputsOnlyUnordered, OutputsOnlyUnordered, Unord, Unordered};
pub use global::Global;
pub use input::{OutPoint, PartialVin, TxIn, Vin, VinConversionError, VinData};
pub use output::{PartialVout, TxOut, Vout, VoutConversionError, VoutData};
pub use partial_join::PartialJoin;
pub use transaction::{
    OrderedInputs, OrderedOutputs, Psbt, PsbtConversionError, Transaction, TypeState,
    UnOrderedInputs, WithGlobal,
};
pub use value_set::ValueSet;
pub use values::ValueError;

verus! {

/// Why two fragments could not be joined.
#[derive(Debug, Clone, Copy, PartialEq, Eq, Structural)]
pub enum JoinError {
    /// Two known values differ: two scalars, the two values that fields of
    /// an input, output or state hold under one key, or the lists of two
    /// states whose order is fixed.
    ScalarDisagree,
    /// Two maps joined on their own hold different values under one key.
    StructuralMismatch,
}

/// Fragments of a PSBT that can be joined.
pub trait Join {
    fn join(&self, other: &Self) -> Result<Self, JoinError>
        where Self: Sized;
}

} // verus!
