//! The Constructor role: it holds a PSBT whose inputs or outputs, or both,
//! are still unordered, and fixes their order.
use vstd::prelude::*;

use std::marker::PhantomData;

use crate::transaction::{UnOrderedInputs, UnOrderedInputsView};

mod sealed;

verus! {

/// Marker for a `Constructor` with both inputs and outputs unordered.
#[derive(Debug, Clone, Copy, PartialEq, Eq)]
pub struct Unordered;

/// Marker for a `Constructor` with inputs unordered.
#[derive(Debug, Clone, Copy, PartialEq, Eq)]
pub struct InputsOnlyUnordered;

/// Marker for a `Constructor` with outputs unordered.
#[derive(Debug, Clone, Copy, PartialEq, Eq)]
pub struct OutputsOnlyUnordered;

/// Marker for if either inputs or outputs are unordered, or both.
pub trait Unord: sealed::Unord + Sync + Send + Sized {}

impl Unord for Unordered {}

impl Unord for InputsOnlyUnordered {}

impl Unord for OutputsOnlyUnordered {}

/// Implements the Constructor role.
#[derive(Debug, PartialEq, Eq)]
pub struct Constructor<M, O> {
    psbt: UnOrderedInputs,
    inputs_unordered: bool,
    outputs_unordered: bool,
    marker: PhantomData<(M, O)>,
}

/// What a [`Constructor`] holds: the PSBT and whether its inputs and its
/// outputs are still unordered.
pub struct ConstructorView {
    pub psbt: UnOrderedInputsView,
    pub inputs_unordered: bool,
    pub outputs_unordered: bool,
}

impl<M, O> View for Constructor<M, O> {
    type V = ConstructorView;

    closed spec fn view(&self) -> ConstructorView {
        ConstructorView {
            psbt: self.psbt@,
            inputs_unordered: self.inputs_unordered,
            outputs_unordered: self.outputs_unordered,
        }
    }
}

impl<M, O> Clone for Constructor<M, O> {
    fn clone(&self) -> (r: Self)
        ensures
            r@ == self@,
    {
        Constructor {
            psbt: self.psbt.clone(),
            inputs_unordered: self.inputs_unordered,
            outputs_unordered: self.outputs_unordered,
            marker: PhantomData,
        }
    }
}

impl<M> Constructor<M, Unordered> {
    /// A constructor whose inputs and outputs are both unordered.
    pub fn new(psbt: UnOrderedInputs) -> (r: Self)
        ensures
            r@ == (ConstructorView { psbt: psbt@, inputs_unordered: true, outputs_unordered: true }),
    {
        Constructor { psbt, inputs_unordered: true, outputs_unordered: true, marker: PhantomData }
    }
}

impl<M> Constructor<M, InputsOnlyUnordered> {
    /// A constructor whose inputs only are unordered.
    pub fn new(psbt: UnOrderedInputs) -> (r: Self)
        ensures
            r@ == (ConstructorView { psbt: psbt@, inputs_unordered: true, outputs_unordered: false }),
    {
        Constructor { psbt, inputs_unordered: true, outputs_unordered: false, marker: PhantomData }
    }
}

impl<M> Constructor<M, OutputsOnlyUnordered> {
    /// A constructor whose outputs only are unordered.
    pub fn new(psbt: UnOrderedInputs) -> (r: Self)
        ensures
            r@ == (ConstructorView { psbt: psbt@, inputs_unordered: false, outputs_unordered: true }),
    {
        Constructor { psbt, inputs_unordered: false, outputs_unordered: true, marker: PhantomData }
    }
}

impl<M, O: Unord> Constructor<M, O> {
    /// Marks the inputs as ordered.
    pub fn fix_input_order(&mut self)
        ensures
            final(self)@ == (ConstructorView { inputs_unordered: false, ..old(self)@ }),
    {
        self.inputs_unordered = false;
    }

    /// Marks the outputs as ordered.
    pub fn fix_output_order(&mut self)
        ensures
            final(self)@ == (ConstructorView { outputs_unordered: false, ..old(self)@ }),
    {
        self.outputs_unordered = false;
    }

    /// Marks both the inputs and the outputs as ordered.
    pub fn fix_order(&mut self)
        ensures
            final(self)@ == (ConstructorView {
                inputs_unordered: false,
                outputs_unordered: false,
                ..old(self)@
            }),
    {
        self.fix_input_order();
        self.fix_output_order();
    }

    /// Whether the inputs are still unordered.
    pub fn inputs_unordered(&self) -> (r: bool)
        ensures
            r == self@.inputs_unordered,
    {
        self.inputs_unordered
    }

    /// Whether the outputs are still unordered.
    pub fn outputs_unordered(&self) -> (r: bool)
        ensures
            r == self@.outputs_unordered,
    {
        self.outputs_unordered
    }

    /// The PSBT under construction.
    pub fn psbt(&self) -> (r: &UnOrderedInputs)
        ensures
            r@ == self@.psbt,
    {
        &self.psbt
    }
}

} // verus!
