//! A PSBT under construction, as a type that moves through states: first
//! inputs and outputs are both unordered sets, then the inputs get an order,
//! then the outputs, and last the PSBT is finalized and converted.
use vstd::prelude::*;

use crate::bytes::bytes_copy;
use crate::global::{default_global, global_le, join_global, lemma_global_join_associative,
    lemma_global_join_least, lemma_global_join_upper_bound, lemma_global_join_commutative, lemma_global_join_idempotent,
    Global, GlobalView};
use crate::input::{
    empty_vin_data, join_partial_vin, lemma_partial_vin_join_idempotent,
    lemma_partial_vin_join_least, lemma_partial_vin_join_upper_bound, partial_vin_le, PartialVin, PartialVinView, Vin, VinData,
    VinDataView, VinView,
};
use crate::input_merge::{
    has_partner, input_conflict, join_input_sets, lemma_join_input_sets_associative,
    lemma_join_input_sets_commutative, lemma_merge_single,
    lemma_join_input_sets_idempotent, lemma_merged_one_per_outpoint, merge_inputs, merged_from,
    merged_inputs, one_per_outpoint, same_outpoint,
};
use crate::ordering::{
    check_orderable, key_listing, key_sorted, lemma_orderable_keys_distinct, lemma_permutation_keeps_set,
    lemma_sorted_is_key_listing, lemma_vin_order_refines_bip69, lemma_vout_order_refines_bip69,
    salted, shuffle_with_salt, sort_by_key, vin_key_le, vout_key_le, SortKey,
};
use crate::output::{PartialVout, PartialVoutView, Vout, VoutView};
use crate::partial_join::PartialJoin;
use crate::value_set::ValueSet;
use crate::values::{and_then, copy_option, views, IdempotentValue};
use crate::{Join, JoinError};

verus! {

/// The state a [`Transaction`] is in.
pub trait TypeState {}

/// A PSBT under construction, in one of the states [`UnOrderedInputs`],
/// [`OrderedInputs`], [`OrderedOutputs`] and [`WithGlobal`].
pub struct Transaction<State: TypeState> {
    state: State,
}

impl<State: TypeState + View> View for Transaction<State> {
    type V = State::V;

    closed spec fn view(&self) -> State::V {
        self.state@
    }
}

impl<State: TypeState> Transaction<State> {
    /// A PSBT that knows nothing yet: no inputs, no outputs and the default
    /// global fields.
    pub fn new() -> (r: Transaction<UnOrderedInputs>)
        ensures
            r@ == empty_unordered(),
    {
        Transaction { state: UnOrderedInputs::default() }
    }
}

impl<State: TypeState + View> std::ops::Deref for Transaction<State> {
    type Target = State;

    fn deref(&self) -> (r: &State)
        ensures
            r@ == self@,
    {
        &self.state
    }
}

/// Inputs and outputs are both sets that peers add to in any order; two
/// inputs that spend the same known outpoint are one input.
#[derive(Debug, PartialEq, Eq)]
pub struct UnOrderedInputs {
    inputs: ValueSet<PartialVin>,
    outputs: ValueSet<PartialVout>,
    global: Global,
}

impl UnOrderedInputs {
    /// No two inputs spend the same known outpoint.
    #[verifier::type_invariant]
    closed spec fn one_input_per_outpoint(self) -> bool {
        one_per_outpoint(self.inputs@)
    }
}

/// What an [`UnOrderedInputs`] holds, as mathematical values.
pub struct UnOrderedInputsView {
    pub inputs: Set<PartialVinView>,
    pub outputs: Set<PartialVoutView>,
    pub global: GlobalView,
}

impl View for UnOrderedInputs {
    type V = UnOrderedInputsView;

    closed spec fn view(&self) -> UnOrderedInputsView {
        UnOrderedInputsView { inputs: self.inputs@, outputs: self.outputs@, global: self.global@ }
    }
}

impl TypeState for UnOrderedInputs {}

/// The inputs have an order; the outputs are still a set.
#[derive(Debug)]
pub struct OrderedInputs {
    inputs: Vec<PartialVin>,
    outputs: ValueSet<PartialVout>,
    global: Global,
}

/// What an [`OrderedInputs`] holds, as mathematical values.
pub struct OrderedInputsView {
    pub inputs: Seq<PartialVinView>,
    pub outputs: Set<PartialVoutView>,
    pub global: GlobalView,
}

impl View for OrderedInputs {
    type V = OrderedInputsView;

    closed spec fn view(&self) -> OrderedInputsView {
        OrderedInputsView { inputs: views(self.inputs@), outputs: self.outputs@, global: self.global@ }
    }
}

impl TypeState for OrderedInputs {}

/// Inputs and outputs both have an order.
#[derive(Debug)]
pub struct OrderedOutputs {
    inputs: Vec<PartialVin>,
    outputs: Vec<PartialVout>,
    global: Global,
}

/// What an [`OrderedOutputs`] or a [`WithGlobal`] holds, as mathematical
/// values.
pub struct OrderedOutputsView {
    pub inputs: Seq<PartialVinView>,
    pub outputs: Seq<PartialVoutView>,
    pub global: GlobalView,
}

impl View for OrderedOutputs {
    type V = OrderedOutputsView;

    closed spec fn view(&self) -> OrderedOutputsView {
        OrderedOutputsView {
            inputs: views(self.inputs@),
            outputs: views(self.outputs@),
            global: self.global@,
        }
    }
}

impl TypeState for OrderedOutputs {}

/// The construction is over; the PSBT can be converted.
#[derive(Debug)]
pub struct WithGlobal {
    inputs: Vec<PartialVin>,
    outputs: Vec<PartialVout>,
    global: Global,
}

impl View for WithGlobal {
    type V = OrderedOutputsView;

    closed spec fn view(&self) -> OrderedOutputsView {
        OrderedOutputsView {
            inputs: views(self.inputs@),
            outputs: views(self.outputs@),
            global: self.global@,
        }
    }
}

impl TypeState for WithGlobal {}

/// The state that knows nothing yet.
pub open spec fn empty_unordered() -> UnOrderedInputsView {
    UnOrderedInputsView { inputs: Set::empty(), outputs: Set::empty(), global: default_global() }
}

/// The global fields with the counts set to the numbers of inputs and
/// outputs.
pub open spec fn with_counts(g: GlobalView, inputs: nat, outputs: nat) -> GlobalView {
    GlobalView { input_count: inputs as usize, output_count: outputs as usize, ..g }
}

/// The join of two unordered states: the inputs merged so that the two
/// inputs that spend one known outpoint become their join, the union of the
/// outputs, and the join of the global fields with the counts recomputed.
/// Two inputs of one outpoint that disagree fail the join first, then
/// disagreeing global fields.
pub open spec fn join_unordered(a: UnOrderedInputsView, b: UnOrderedInputsView) -> Result<
    UnOrderedInputsView,
    JoinError,
> {
    match join_input_sets(a.inputs, b.inputs) {
        Err(e) => Err(e),
        Ok(inputs) => match join_global(a.global, b.global) {
            Ok(g) => {
                let outputs = a.outputs.union(b.outputs);
                Ok(
                    UnOrderedInputsView {
                        inputs,
                        outputs,
                        global: with_counts(g, inputs.len(), outputs.len()),
                    },
                )
            },
            Err(_) => Err(JoinError::ScalarDisagree),
        },
    }
}

/// The join of two states with ordered inputs. Both must have fixed the same
/// inputs in the same order, else the join fails with a scalar disagreement
/// (the fixed list is a known value of the state, and the two disagree);
/// the result has those inputs, the union of the outputs, and the join of
/// the global fields with the counts recomputed.
pub open spec fn join_ordered_inputs(a: OrderedInputsView, b: OrderedInputsView) -> Result<
    OrderedInputsView,
    JoinError,
> {
    if a.inputs != b.inputs {
        Err(JoinError::ScalarDisagree)
    } else {
        match join_global(a.global, b.global) {
            Ok(g) => {
                let outputs = a.outputs.union(b.outputs);
                Ok(
                    OrderedInputsView {
                        inputs: a.inputs,
                        outputs,
                        global: with_counts(g, a.inputs.len(), outputs.len()),
                    },
                )
            },
            Err(_) => Err(JoinError::ScalarDisagree),
        }
    }
}

/// The join of two states with ordered inputs and outputs. Both must have
/// fixed the same inputs and the same outputs in the same orders, else the
/// join fails with a scalar disagreement; the result has those lists and the
/// join of the global fields with the counts recomputed.
pub open spec fn join_ordered_outputs(a: OrderedOutputsView, b: OrderedOutputsView) -> Result<
    OrderedOutputsView,
    JoinError,
> {
    if a.inputs != b.inputs || a.outputs != b.outputs {
        Err(JoinError::ScalarDisagree)
    } else {
        match join_global(a.global, b.global) {
            Ok(g) => Ok(
                OrderedOutputsView {
                    inputs: a.inputs,
                    outputs: a.outputs,
                    global: with_counts(g, a.inputs.len(), a.outputs.len()),
                },
            ),
            Err(_) => Err(JoinError::ScalarDisagree),
        }
    }
}

impl Clone for UnOrderedInputs {
    fn clone(&self) -> (r: Self)
        ensures
            r@ == self@,
    {
        proof {
            use_type_invariant(self);
        }
        UnOrderedInputs {
            inputs: self.inputs.copy(),
            outputs: self.outputs.copy(),
            global: self.global.copy(),
        }
    }
}

impl Default for UnOrderedInputs {
    fn default() -> (r: Self)
        ensures
            r@ == empty_unordered(),
    {
        UnOrderedInputs { inputs: ValueSet::new(), outputs: ValueSet::new(), global: Global::default() }
    }
}

/// The joined global fields, or the disagreement reported as one of scalar
/// values.
fn join_globals(a: &Global, b: &Global) -> (r: Result<Global, JoinError>)
    ensures
        r matches Ok(g) ==> join_global(a@, b@) == Ok::<GlobalView, crate::values::ValueError>(g@),
        r matches Err(e) ==> join_global(a@, b@) is Err && e == JoinError::ScalarDisagree,
{
    match PartialJoin::join(a, b) {
        Ok(g) => Ok(g),
        Err(_) => Err(JoinError::ScalarDisagree),
    }
}

impl Join for UnOrderedInputs {
    fn join(&self, other: &Self) -> (r: Result<Self, JoinError>)
        ensures
            r matches Ok(s) ==> join_unordered(self@, other@) == Ok::<UnOrderedInputsView, JoinError>(s@),
            r matches Err(e) ==> join_unordered(self@, other@) == Err::<UnOrderedInputsView, JoinError>(e),
            r matches Ok(s) ==> s@.global.input_count == s@.inputs.len()
                && s@.global.output_count == s@.outputs.len(),
            r matches Ok(s) ==> one_per_outpoint(s@.inputs),
    {
        proof {
            use_type_invariant(self);
            use_type_invariant(other);
            lemma_merged_one_per_outpoint(self.inputs@, other.inputs@);
        }
        let inputs = merge_inputs(&self.inputs, &other.inputs)?;
        let outputs = self.outputs.join(&other.outputs)?;
        let mut global = join_globals(&self.global, &other.global)?;
        global.input_count = inputs.len();
        global.output_count = outputs.len();
        Ok(UnOrderedInputs { inputs, outputs, global })
    }
}

impl Join for OrderedInputs {
    fn join(&self, other: &Self) -> (r: Result<Self, JoinError>)
        ensures
            r matches Ok(s) ==> join_ordered_inputs(self@, other@) == Ok::<OrderedInputsView, JoinError>(s@),
            r matches Err(e) ==> join_ordered_inputs(self@, other@) == Err::<OrderedInputsView, JoinError>(e),
            r matches Ok(s) ==> s@.global.input_count == s@.inputs.len()
                && s@.global.output_count == s@.outputs.len(),
    {
        if !same_items(&self.inputs, &other.inputs) {
            return Err(JoinError::ScalarDisagree);
        }
        let inputs = copy_items(&self.inputs);
        let outputs = self.outputs.join(&other.outputs)?;
        let mut global = join_globals(&self.global, &other.global)?;
        global.input_count = inputs.len();
        global.output_count = outputs.len();
        Ok(OrderedInputs { inputs, outputs, global })
    }
}

impl Join for OrderedOutputs {
    fn join(&self, other: &Self) -> (r: Result<Self, JoinError>)
        ensures
            r matches Ok(s) ==> join_ordered_outputs(self@, other@) == Ok::<OrderedOutputsView, JoinError>(s@),
            r matches Err(e) ==> join_ordered_outputs(self@, other@) == Err::<OrderedOutputsView, JoinError>(e),
            r matches Ok(s) ==> s@.global.input_count == s@.inputs.len()
                && s@.global.output_count == s@.outputs.len(),
    {
        if !same_items(&self.inputs, &other.inputs) || !same_items(&self.outputs, &other.outputs) {
            return Err(JoinError::ScalarDisagree);
        }
        let inputs = copy_items(&self.inputs);
        let outputs = copy_items(&self.outputs);
        let mut global = join_globals(&self.global, &other.global)?;
        global.input_count = inputs.len();
        global.output_count = outputs.len();
        Ok(OrderedOutputs { inputs, outputs, global })
    }
}

/// Whether the two lists hold equal items in the same order.
fn same_items<T: IdempotentValue>(a: &Vec<T>, b: &Vec<T>) -> (r: bool)
    ensures
        r == (views(a@) == views(b@)),
{
    let n = a.len();
    if n != b.len() {
        assert(views(a@).len() != views(b@).len());
        return false;
    }
    let mut i: usize = 0;
    while i < n
        invariant
            n == a@.len(),
            n == b@.len(),
            i <= n,
            forall|k: int| 0 <= k < i ==> views(a@)[k] == views(b@)[k],
        decreases n - i,
    {
        if !a[i].same_value(&b[i]) {
            assert(views(a@)[i as int] != views(b@)[i as int]);
            return false;
        }
        i = i + 1;
    }
    assert(views(a@) =~= views(b@));
    true
}

/// A copy of each item, in the same order.
fn copy_items<T: IdempotentValue>(items: &Vec<T>) -> (r: Vec<T>)
    ensures
        views(r@) == views(items@),
{
    let n = items.len();
    let mut r: Vec<T> = Vec::new();
    let mut i: usize = 0;
    while i < n
        invariant
            n == items@.len(),
            i <= n,
            views(r@) =~= views(items@).take(i as int),
        decreases n - i,
    {
        let x = items[i].copy_value();
        let ghost before = r@;
        r.push(x);
        assert(views(r@) =~= views(before).push(x@));
        i = i + 1;
    }
    assert(views(items@).take(n as int) =~= views(items@));
    r
}

impl UnOrderedInputs {
    /// Adds an input. Where an input that spends the same known outpoint is
    /// already there, the two are joined into one; where they disagree,
    /// nothing changes and the error comes back.
    pub fn insert_input(&mut self, input: PartialVin) -> (r: Result<(), JoinError>)
        ensures
            (match join_input_sets(old(self)@.inputs, Set::empty().insert(input@)) {
                Ok(s) => r is Ok && final(self)@ == (UnOrderedInputsView { inputs: s, ..old(self)@ }),
                Err(e) => r == Err::<(), JoinError>(e) && final(self)@ == old(self)@,
            }),
            !has_partner(input@, old(self)@.inputs) ==> r is Ok && final(self)@.inputs
                == old(self)@.inputs.insert(input@),
            old(self)@.inputs.contains(input@) ==> r is Ok && final(self)@ == old(self)@,
            one_per_outpoint(final(self)@.inputs),
    {
        proof {
            use_type_invariant(&*self);
            lemma_merge_single(self.inputs@, input@);
        }
        let ghost x = input@;
        let mut single: ValueSet<PartialVin> = ValueSet::new();
        single.insert(input);
        proof {
            assert(single@ =~= Set::empty().insert(x));
            lemma_merged_one_per_outpoint(self.inputs@, single@);
        }
        match merge_inputs(&self.inputs, &single) {
            Ok(merged) => {
                self.inputs = merged;
                Ok(())
            },
            Err(e) => Err(e),
        }
    }

    /// Adds an output; says whether it was new.
    pub fn insert_output(&mut self, output: PartialVout) -> (r: bool)
        ensures
            final(self)@ == (UnOrderedInputsView { outputs: old(self)@.outputs.insert(output@), ..old(self)@ }),
            r == !old(self)@.outputs.contains(output@),
    {
        proof {
            use_type_invariant(&*self);
        }
        let mut outputs: ValueSet<PartialVout> = ValueSet::new();
        std::mem::swap(&mut outputs, &mut self.outputs);
        let r = outputs.insert(output);
        self.outputs = outputs;
        r
    }

    /// Replaces the global fields.
    pub fn set_global(&mut self, global: Global)
        ensures
            final(self)@ == (UnOrderedInputsView { global: global@, ..old(self)@ }),
    {
        proof {
            use_type_invariant(&*self);
        }
        self.global = global;
    }

    /// The inputs.
    pub fn inputs(&self) -> (r: &ValueSet<PartialVin>)
        ensures
            r@ == self@.inputs,
    {
        &self.inputs
    }

    /// The outputs.
    pub fn outputs(&self) -> (r: &ValueSet<PartialVout>)
        ensures
            r@ == self@.outputs,
    {
        &self.outputs
    }

    /// The global fields.
    pub fn global(&self) -> (r: &Global)
        ensures
            r@ == self@.global,
    {
        &self.global
    }
}

impl OrderedInputs {
    /// The state made of these inputs, outputs and global fields.
    pub fn from_parts(inputs: Vec<PartialVin>, outputs: ValueSet<PartialVout>, global: Global) -> (r: Self)
        ensures
            r@ == (OrderedInputsView { inputs: views(inputs@), outputs: outputs@, global: global@ }),
    {
        OrderedInputs { inputs, outputs, global }
    }

    /// The inputs, in order.
    pub fn inputs(&self) -> (r: &Vec<PartialVin>)
        ensures
            views(r@) == self@.inputs,
    {
        &self.inputs
    }

    /// The outputs.
    pub fn outputs(&self) -> (r: &ValueSet<PartialVout>)
        ensures
            r@ == self@.outputs,
    {
        &self.outputs
    }

    /// The global fields.
    pub fn global(&self) -> (r: &Global)
        ensures
            r@ == self@.global,
    {
        &self.global
    }
}

impl OrderedOutputs {
    /// The state made of these inputs, outputs and global fields.
    pub fn from_parts(inputs: Vec<PartialVin>, outputs: Vec<PartialVout>, global: Global) -> (r: Self)
        ensures
            r@ == (OrderedOutputsView { inputs: views(inputs@), outputs: views(outputs@), global: global@ }),
    {
        OrderedOutputs { inputs, outputs, global }
    }

    /// The inputs, in order.
    pub fn inputs(&self) -> (r: &Vec<PartialVin>)
        ensures
            views(r@) == self@.inputs,
    {
        &self.inputs
    }

    /// The outputs, in order.
    pub fn outputs(&self) -> (r: &Vec<PartialVout>)
        ensures
            views(r@) == self@.outputs,
    {
        &self.outputs
    }

    /// The global fields.
    pub fn global(&self) -> (r: &Global)
        ensures
            r@ == self@.global,
    {
        &self.global
    }
}

impl WithGlobal {
    /// The inputs, in order.
    pub fn inputs(&self) -> (r: &Vec<PartialVin>)
        ensures
            views(r@) == self@.inputs,
    {
        &self.inputs
    }

    /// The outputs, in order.
    pub fn outputs(&self) -> (r: &Vec<PartialVout>)
        ensures
            views(r@) == self@.outputs,
    {
        &self.outputs
    }

    /// The global fields.
    pub fn global(&self) -> (r: &Global)
        ensures
            r@ == self@.global,
    {
        &self.global
    }
}

/// The items of a set in an order that a rearrangement gave: each once, and
/// all of them.
pub open spec fn lists_set<V>(s: Seq<V>, set: Set<V>) -> bool {
    &&& s.no_duplicates()
    &&& s.to_set() == set
}

impl Transaction<UnOrderedInputs> {
    /// Adds an input. Where an input that spends the same known outpoint is
    /// already there, the two are joined into one; where they disagree,
    /// nothing changes and the error comes back.
    pub fn insert_input(&mut self, input: PartialVin) -> (r: Result<(), JoinError>)
        ensures
            (match join_input_sets(old(self)@.inputs, Set::empty().insert(input@)) {
                Ok(s) => r is Ok && final(self)@ == (UnOrderedInputsView { inputs: s, ..old(self)@ }),
                Err(e) => r == Err::<(), JoinError>(e) && final(self)@ == old(self)@,
            }),
            !has_partner(input@, old(self)@.inputs) ==> r is Ok && final(self)@.inputs
                == old(self)@.inputs.insert(input@),
            old(self)@.inputs.contains(input@) ==> r is Ok && final(self)@ == old(self)@,
            one_per_outpoint(final(self)@.inputs),
    {
        self.state.insert_input(input)
    }

    /// Adds an output; says whether it was new.
    pub fn insert_output(&mut self, output: PartialVout) -> (r: bool)
        ensures
            final(self)@ == (UnOrderedInputsView { outputs: old(self)@.outputs.insert(output@), ..old(self)@ }),
            r == !old(self)@.outputs.contains(output@),
    {
        self.state.insert_output(output)
    }

    /// Replaces the global fields.
    pub fn set_global(&mut self, global: Global)
        ensures
            final(self)@ == (UnOrderedInputsView { global: global@, ..old(self)@ }),
    {
        self.state.set_global(global);
    }

    /// Fixes the order of the inputs as BIP-69 does: by txid as displayed
    /// (its bytes reversed), then by output index; inputs that BIP-69 ties
    /// are ordered by their other fields, so the order is a function of the
    /// set of inputs alone.
    pub fn apply_bip69_ordering(self) -> (r: Transaction<OrderedInputs>)
        ensures
            lists_set(r@.inputs, self@.inputs),
            r@.inputs == key_listing::<PartialVin>(self@.inputs),
            forall|i: int, j: int|
                0 <= i < j < r@.inputs.len() ==> vin_key_le(#[trigger] r@.inputs[i], #[trigger] r@.inputs[j]),
            r@.outputs == self@.outputs,
            r@.global == self@.global,
    {
        let Transaction { state } = self;
        let UnOrderedInputs { inputs, outputs, global } = state;
        let ghost set = inputs@;
        let items = inputs.into_vec();
        let sorted = sorted_listing(items, Ghost(set));
        proof {
            assert forall|i: int, j: int| 0 <= i < j < views(sorted@).len() implies vin_key_le(
                #[trigger] views(sorted@)[i],
                #[trigger] views(sorted@)[j],
            ) by {
                lemma_vin_order_refines_bip69(views(sorted@)[i], views(sorted@)[j]);
            }
        }
        Transaction { state: OrderedInputs { inputs: sorted, outputs, global } }
    }

    /// Fixes the order of the inputs by a shuffle that the salt seeds of
    /// their sorted listing, so that the order is a function of the set of
    /// inputs and the salt alone.
    pub fn apply_ordering_with_salt(self, salt: &[u8; 32]) -> (r: Transaction<OrderedInputs>)
        ensures
            lists_set(r@.inputs, self@.inputs),
            r@.inputs == salted(key_listing::<PartialVin>(self@.inputs), salt@),
            r@.outputs == self@.outputs,
            r@.global == self@.global,
    {
        let Transaction { state } = self;
        let UnOrderedInputs { inputs, outputs, global } = state;
        let ghost set = inputs@;
        let items = inputs.into_vec();
        let sorted = sorted_listing(items, Ghost(set));
        let shuffled = shuffle_with_salt(sorted, salt);
        proof {
            assert(views(shuffled@) =~= salted(views(sorted@), salt@));
        }
        Transaction { state: OrderedInputs { inputs: shuffled, outputs, global } }
    }
}

/// The items of a set, handed over each once, in their sorted listing.
fn sorted_listing<T: SortKey>(items: Vec<T>, set: Ghost<Set<T::V>>) -> (r: Vec<T>)
    requires
        views(items@).no_duplicates(),
        views(items@).to_set() == set@,
    ensures
        views(r@) == key_listing::<T>(set@),
        lists_set(views(r@), set@),
        key_sorted::<T>(views(r@)),
{
    check_orderable(&items);
    let sorted = sort_by_key(items);
    proof {
        lemma_permutation_keeps_set(views(items@), views(sorted@));
        assert forall|x: T::V| #[trigger] set@.contains(x) implies T::orderable(x) by {
            let k = choose|k: int| 0 <= k < views(items@).len() && views(items@)[k] == x;
            assert(items@[k]@ == x);
        }
        lemma_orderable_keys_distinct::<T>(set@);
        lemma_sorted_is_key_listing::<T>(views(sorted@), set@);
    }
    sorted
}

impl Transaction<OrderedInputs> {
    /// Adds an output; says whether it was new.
    pub fn insert_output(&mut self, output: PartialVout) -> (r: bool)
        ensures
            final(self)@ == (OrderedInputsView {
                outputs: old(self)@.outputs.insert(output@),
                ..old(self)@
            }),
            r == !old(self)@.outputs.contains(output@),
    {
        self.state.outputs.insert(output)
    }

    /// Fixes the order of the outputs as BIP-69 does: by amount, then by
    /// script; outputs that BIP-69 ties are ordered by their other fields, so
    /// the order is a function of the set of outputs alone.
    pub fn apply_bip69_ordering(self) -> (r: Transaction<OrderedOutputs>)
        ensures
            r@.inputs == self@.inputs,
            lists_set(r@.outputs, self@.outputs),
            r@.outputs == key_listing::<PartialVout>(self@.outputs),
            forall|i: int, j: int|
                0 <= i < j < r@.outputs.len() ==> vout_key_le(#[trigger] r@.outputs[i], #[trigger] r@.outputs[j]),
            r@.global == self@.global,
    {
        let Transaction { state } = self;
        let OrderedInputs { inputs, outputs, global } = state;
        let ghost set = outputs@;
        let items = outputs.into_vec();
        let sorted = sorted_listing(items, Ghost(set));
        proof {
            assert forall|i: int, j: int| 0 <= i < j < views(sorted@).len() implies vout_key_le(
                #[trigger] views(sorted@)[i],
                #[trigger] views(sorted@)[j],
            ) by {
                lemma_vout_order_refines_bip69(views(sorted@)[i], views(sorted@)[j]);
            }
        }
        Transaction { state: OrderedOutputs { inputs, outputs: sorted, global } }
    }

    /// Fixes the order of the outputs by a shuffle that the salt seeds of
    /// their sorted listing, so that the order is a function of the set of
    /// outputs and the salt alone.
    pub fn apply_ordering_with_salt(self, salt: &[u8; 32]) -> (r: Transaction<OrderedOutputs>)
        ensures
            r@.inputs == self@.inputs,
            lists_set(r@.outputs, self@.outputs),
            r@.outputs == salted(key_listing::<PartialVout>(self@.outputs), salt@),
            r@.global == self@.global,
    {
        let Transaction { state } = self;
        let OrderedInputs { inputs, outputs, global } = state;
        let ghost set = outputs@;
        let items = outputs.into_vec();
        let sorted = sorted_listing(items, Ghost(set));
        let shuffled = shuffle_with_salt(sorted, salt);
        proof {
            assert(views(shuffled@) =~= salted(views(sorted@), salt@));
        }
        Transaction { state: OrderedOutputs { inputs, outputs: shuffled, global } }
    }
}

impl Transaction<OrderedOutputs> {
    /// Ends the construction; the inputs, outputs and global fields stay as
    /// they are.
    pub fn finalize(self) -> (r: Transaction<WithGlobal>)
        ensures
            r@ == self@,
    {
        let Transaction { state } = self;
        let OrderedOutputs { inputs, outputs, global } = state;
        Transaction { state: WithGlobal { inputs, outputs, global } }
    }
}


/// Why a finalized PSBT could not be converted: the first input, in order,
/// whose outpoint is not fully known, or else the first output whose amount
/// or script is unknown.
#[derive(Debug, Clone, Copy, PartialEq, Eq, Structural)]
pub enum PsbtConversionError {
    /// The input at this index lacks the txid of its outpoint.
    MissingOutpointTxid(usize),
    /// The input at this index lacks the output index of its outpoint.
    MissingOutpointVout(usize),
    /// The output at this index lacks its amount.
    MissingValue(usize),
    /// The output at this index lacks its script.
    MissingScriptPubkey(usize),
}

/// A complete version 2 PSBT: the global fields, the inputs and the outputs.
#[derive(Debug, PartialEq, Eq)]
pub struct Psbt {
    pub global: Global,
    pub inputs: Vec<Vin>,
    pub outputs: Vec<Vout>,
}

/// What a [`Psbt`] holds, as mathematical values.
pub struct PsbtView {
    pub global: GlobalView,
    pub inputs: Seq<VinView>,
    pub outputs: Seq<VoutView>,
}

impl View for Psbt {
    type V = PsbtView;

    open spec fn view(&self) -> PsbtView {
        PsbtView { global: self.global@, inputs: views(self.inputs@), outputs: views(self.outputs@) }
    }
}

/// The first error among the inputs from index `i` on, if there is one.
pub open spec fn inputs_error(s: Seq<PartialVinView>, i: int) -> Option<PsbtConversionError>
    decreases s.len() - i,
{
    if i < 0 || i >= s.len() {
        None
    } else if s[i].previous_output is None {
        Some(PsbtConversionError::MissingOutpointTxid(i as usize))
    } else if s[i].spent_output_index is None {
        Some(PsbtConversionError::MissingOutpointVout(i as usize))
    } else {
        inputs_error(s, i + 1)
    }
}

/// The first error among the outputs from index `i` on, if there is one.
pub open spec fn outputs_error(s: Seq<PartialVoutView>, i: int) -> Option<PsbtConversionError>
    decreases s.len() - i,
{
    if i < 0 || i >= s.len() {
        None
    } else if s[i].value is None {
        Some(PsbtConversionError::MissingValue(i as usize))
    } else if s[i].script_pubkey is None {
        Some(PsbtConversionError::MissingScriptPubkey(i as usize))
    } else {
        outputs_error(s, i + 1)
    }
}

/// The PSBT input made of a partial input with a known outpoint: the
/// outpoint, the sequence, the spent output and the final scripts; every
/// other field is left empty.
pub open spec fn psbt_input(p: PartialVinView) -> VinView {
    VinView {
        previous_output: p.previous_output->Some_0,
        spent_output_index: p.spent_output_index->Some_0,
        data: VinDataView {
            sequence: p.data.sequence,
            witness_utxo: p.data.witness_utxo,
            final_script_sig: p.data.final_script_sig,
            final_script_witness: p.data.final_script_witness,
            ..empty_vin_data()
        },
    }
}

/// The PSBT output made of a partial output with a known amount and script,
/// with all its other fields.
pub open spec fn psbt_output(p: PartialVoutView) -> VoutView {
    VoutView { value: p.value->Some_0, script_pubkey: p.script_pubkey->Some_0, data: p.data }
}

/// The PSBT that a finalized transaction with complete inputs and outputs
/// becomes: PSBT version 2, no modifiable flags, and counts that match the
/// inputs and outputs.
pub open spec fn psbt_of(w: OrderedOutputsView) -> PsbtView {
    PsbtView {
        global: GlobalView {
            version: 2,
            tx_modifiable_flags: 0,
            input_count: w.inputs.len() as usize,
            output_count: w.outputs.len() as usize,
            ..w.global
        },
        inputs: w.inputs.map_values(|p: PartialVinView| psbt_input(p)),
        outputs: w.outputs.map_values(|p: PartialVoutView| psbt_output(p)),
    }
}

/// The conversion of a finalized transaction: the first missing piece of
/// an input, else the first missing piece of an output, else the PSBT.
pub open spec fn psbt_conversion(w: OrderedOutputsView) -> Result<PsbtView, PsbtConversionError> {
    match inputs_error(w.inputs, 0) {
        Some(e) => Err(e),
        None => match outputs_error(w.outputs, 0) {
            Some(e) => Err(e),
            None => Ok(psbt_of(w)),
        },
    }
}

impl Psbt {
    /// The PSBT of a finalized transaction, if all its inputs have known
    /// outpoints and all its outputs known amounts and scripts.
    pub fn try_from(psbt: Transaction<WithGlobal>) -> (r: Result<Psbt, PsbtConversionError>)
        ensures
            r matches Ok(p) ==> psbt_conversion(psbt@) == Ok::<PsbtView, PsbtConversionError>(p@),
            r matches Err(e) ==> psbt_conversion(psbt@) == Err::<PsbtView, PsbtConversionError>(e),
    {
        let ghost w = psbt@;
        let Transaction { state } = psbt;
        let WithGlobal { inputs, outputs, global } = state;
        assert(w == OrderedOutputsView {
            inputs: views(inputs@),
            outputs: views(outputs@),
            global: global@,
        });
        let n = inputs.len();
        let mut ins: Vec<Vin> = Vec::new();
        let mut i: usize = 0;
        while i < n
            invariant
                n == inputs@.len(),
                w.inputs == views(inputs@),
                w == psbt@,
                i <= n,
                views(ins@) =~= w.inputs.take(i as int).map_values(|p: PartialVinView| psbt_input(p)),
                inputs_error(w.inputs, 0) == inputs_error(w.inputs, i as int),
            decreases n - i,
        {
            let p = &inputs[i];
            assert(w.inputs[i as int] == p@);
            let txid = match &p.previous_output {
                Some(t) => bytes_copy(t),
                None => return Err(PsbtConversionError::MissingOutpointTxid(i)),
            };
            let vout = match p.spent_output_index {
                Some(v) => v,
                None => return Err(PsbtConversionError::MissingOutpointVout(i)),
            };
            let mut data = VinData::default();
            data.sequence = p.data.sequence;
            data.witness_utxo = copy_option(&p.data.witness_utxo);
            data.final_script_sig = copy_option(&p.data.final_script_sig);
            data.final_script_witness = copy_option(&p.data.final_script_witness);
            let vin = Vin { previous_output: txid, spent_output_index: vout, data };
            assert(vin@ == psbt_input(p@));
            let ghost before = ins@;
            ins.push(vin);
            proof {
                assert(views(ins@) =~= views(before).push(vin@));
                assert(w.inputs.take(i + 1) =~= w.inputs.take(i as int).push(p@));
            }
            i = i + 1;
        }
        assert(w.inputs.take(n as int) =~= w.inputs);
        let m = outputs.len();
        let mut outs: Vec<Vout> = Vec::new();
        let mut j: usize = 0;
        while j < m
            invariant
                m == outputs@.len(),
                w.outputs == views(outputs@),
                w == psbt@,
                inputs_error(w.inputs, 0) is None,
                j <= m,
                views(outs@) =~= w.outputs.take(j as int).map_values(|p: PartialVoutView| psbt_output(p)),
                outputs_error(w.outputs, 0) == outputs_error(w.outputs, j as int),
            decreases m - j,
        {
            let p = &outputs[j];
            assert(w.outputs[j as int] == p@);
            let value = match p.value {
                Some(v) => v,
                None => return Err(PsbtConversionError::MissingValue(j)),
            };
            let script_pubkey = match &p.script_pubkey {
                Some(s) => bytes_copy(s),
                None => return Err(PsbtConversionError::MissingScriptPubkey(j)),
            };
            let vout = Vout { value, script_pubkey, data: p.data.copy_value() };
            assert(vout@ == psbt_output(p@));
            let ghost before = outs@;
            outs.push(vout);
            proof {
                assert(views(outs@) =~= views(before).push(vout@));
                assert(w.outputs.take(j + 1) =~= w.outputs.take(j as int).push(p@));
            }
            j = j + 1;
        }
        assert(w.outputs.take(m as int) =~= w.outputs);
        let input_count = ins.len();
        let output_count = outs.len();
        let Global { version: _, tx_version, fallback_lock_time, tx_modifiable_flags: _, input_count: _, output_count: _, xpubs, proprietaries, unknowns } = global;
        let global = Global {
            version: 2,
            tx_version,
            fallback_lock_time,
            tx_modifiable_flags: 0,
            input_count,
            output_count,
            xpubs,
            proprietaries,
            unknowns,
        };
        Ok(Psbt { global, inputs: ins, outputs: outs })
    }
}


/// The counts of the global fields match the numbers of inputs and outputs.
pub open spec fn unordered_counts_match(a: UnOrderedInputsView) -> bool {
    &&& a.global.input_count == a.inputs.len()
    &&& a.global.output_count == a.outputs.len()
}

/// Joining an unordered state with itself gives it back, when it holds one
/// input per known outpoint and its counts match its inputs and outputs
/// (the join recomputes them).
pub proof fn lemma_unordered_join_idempotent(a: UnOrderedInputsView)
    requires
        one_per_outpoint(a.inputs),
        unordered_counts_match(a),
    ensures
        join_unordered(a, a) == Ok::<UnOrderedInputsView, JoinError>(a),
{
    lemma_join_input_sets_idempotent(a.inputs);
    lemma_global_join_idempotent(a.global);
    assert(a.outputs.union(a.outputs) =~= a.outputs);
}

/// The join of unordered states does not depend on the order of its
/// arguments.
pub proof fn lemma_unordered_join_commutative(a: UnOrderedInputsView, b: UnOrderedInputsView)
    ensures
        join_unordered(a, b) == join_unordered(b, a),
{
    lemma_join_input_sets_commutative(a.inputs, b.inputs);
    lemma_global_join_commutative(a.global, b.global);
    assert(a.outputs.union(b.outputs) =~= b.outputs.union(a.outputs));
}

/// The join of unordered states with one input per known outpoint does not
/// depend on how three of them are grouped.
pub proof fn lemma_unordered_join_associative(
    a: UnOrderedInputsView,
    b: UnOrderedInputsView,
    c: UnOrderedInputsView,
)
    requires
        one_per_outpoint(a.inputs),
        one_per_outpoint(b.inputs),
        one_per_outpoint(c.inputs),
    ensures
        and_then(join_unordered(a, b), |ab: UnOrderedInputsView| join_unordered(ab, c))
            == and_then(join_unordered(b, c), |bc: UnOrderedInputsView| join_unordered(a, bc)),
{
    lemma_join_input_sets_associative(a.inputs, b.inputs, c.inputs);
    lemma_global_join_associative(a.global, b.global, c.global);
    let iab = join_input_sets(a.inputs, b.inputs)->Ok_0;
    let ibc = join_input_sets(b.inputs, c.inputs)->Ok_0;
    let i = join_input_sets(iab, c.inputs)->Ok_0;
    let oab = a.outputs.union(b.outputs);
    let obc = b.outputs.union(c.outputs);
    let o = oab.union(c.outputs);
    assert(o =~= a.outputs.union(obc));
    if let Ok(gab) = join_global(a.global, b.global) {
        lemma_global_join_recount(gab, c.global, iab.len(), oab.len(), i.len(), o.len());
    }
    if let Ok(gbc) = join_global(b.global, c.global) {
        lemma_global_join_recount(a.global, gbc, ibc.len(), obc.len(), i.len(), o.len());
    }
}

/// The information order on unordered states, counts aside: every input
/// lies below some input of the larger state, the outputs grow, and so do
/// the global fields.
pub open spec fn unordered_le(a: UnOrderedInputsView, b: UnOrderedInputsView) -> bool {
    &&& forall|x: PartialVinView| #[trigger]
        a.inputs.contains(x) ==> exists|z: PartialVinView| #[trigger]
            b.inputs.contains(z) && partial_vin_le(x, z)
    &&& a.outputs.subset_of(b.outputs)
    &&& global_le(with_counts(a.global, 0, 0), with_counts(b.global, 0, 0))
}

/// Every input of `a` lies below an input of its merge with `b`, when the
/// merge succeeds.
proof fn lemma_inputs_below_merge(a: Set<PartialVinView>, b: Set<PartialVinView>)
    requires
        join_input_sets(a, b) is Ok,
    ensures
        forall|x: PartialVinView| #[trigger]
            a.contains(x) ==> exists|z: PartialVinView| #[trigger]
                merged_inputs(a, b).contains(z) && partial_vin_le(x, z),
{
    assert forall|x: PartialVinView| #[trigger] a.contains(x) implies exists|z: PartialVinView| #[trigger]
        merged_inputs(a, b).contains(z) && partial_vin_le(x, z) by {
        if has_partner(x, b) {
            let y = choose|y: PartialVinView| #[trigger] b.contains(y) && same_outpoint(x, y);
            match join_partial_vin(x, y) {
                Ok(z) => {
                    assert(merged_from(a, b, z));
                    lemma_partial_vin_join_upper_bound(x, y);
                    assert(merged_inputs(a, b).contains(z));
                },
                Err(e) => {
                    assert(input_conflict(a, b, e));
                    match e {
                        JoinError::ScalarDisagree => {},
                        JoinError::StructuralMismatch => {},
                    }
                },
            }
        } else {
            lemma_partial_vin_join_idempotent(x);
            lemma_partial_vin_join_upper_bound(x, x);
            assert(merged_inputs(a, b).contains(x));
        }
    }
}

/// The join of unordered states lies above both: each of their inputs is
/// below an input of the join, and their outputs and global fields are kept.
pub proof fn lemma_unordered_join_upper_bound(a: UnOrderedInputsView, b: UnOrderedInputsView)
    ensures
        join_unordered(a, b) is Ok ==> unordered_le(a, join_unordered(a, b)->Ok_0)
            && unordered_le(b, join_unordered(a, b)->Ok_0),
{
    if join_unordered(a, b) is Ok {
        let r = join_unordered(a, b)->Ok_0;
        let g = join_global(a.global, b.global)->Ok_0;
        lemma_global_join_upper_bound(a.global, b.global);
        assert(with_counts(r.global, 0, 0) == with_counts(g, 0, 0));
        assert(global_le(with_counts(a.global, 0, 0), with_counts(r.global, 0, 0)));
        assert(global_le(with_counts(b.global, 0, 0), with_counts(r.global, 0, 0)));
        lemma_join_input_sets_commutative(a.inputs, b.inputs);
        assert(r.inputs == merged_inputs(a.inputs, b.inputs));
        assert(join_input_sets(b.inputs, a.inputs) is Ok);
        assert(r.inputs == merged_inputs(b.inputs, a.inputs));
        lemma_inputs_below_merge(a.inputs, b.inputs);
        lemma_inputs_below_merge(b.inputs, a.inputs);
    }
}

/// Two inputs below inputs of a state with one input per known outpoint,
/// that spend one known outpoint, lie below one and the same input of it.
proof fn lemma_below_same_input(
    c: Set<PartialVinView>,
    x: PartialVinView,
    y: PartialVinView,
    z1: PartialVinView,
    z2: PartialVinView,
)
    requires
        one_per_outpoint(c),
        same_outpoint(x, y),
        c.contains(z1),
        c.contains(z2),
        partial_vin_le(x, z1),
        partial_vin_le(y, z2),
    ensures
        z1 == z2,
        join_partial_vin(x, y) is Ok,
        partial_vin_le(join_partial_vin(x, y)->Ok_0, z1),
{
    assert(same_outpoint(z1, z2));
    lemma_partial_vin_join_least(x, y, z1);
}

/// Whatever unordered state with one input per known outpoint lies above
/// two unordered states lies above their join, which then exists: the join
/// is their least upper bound.
pub proof fn lemma_unordered_join_least(a: UnOrderedInputsView, b: UnOrderedInputsView, c: UnOrderedInputsView)
    requires
        one_per_outpoint(c.inputs),
        unordered_le(a, c),
        unordered_le(b, c),
    ensures
        join_unordered(a, b) is Ok,
        unordered_le(join_unordered(a, b)->Ok_0, c),
{
    let ci = c.inputs;
    assert forall|e: JoinError| !input_conflict(a.inputs, b.inputs, e) by {
        if input_conflict(a.inputs, b.inputs, e) {
            let (x, y) = choose|x: PartialVinView, y: PartialVinView|
                #![trigger a.inputs.contains(x), b.inputs.contains(y)]
                a.inputs.contains(x) && b.inputs.contains(y) && same_outpoint(x, y)
                    && join_partial_vin(x, y) == Err::<PartialVinView, JoinError>(e);
            let z1 = choose|z: PartialVinView| #[trigger] ci.contains(z) && partial_vin_le(x, z);
            let z2 = choose|z: PartialVinView| #[trigger] ci.contains(z) && partial_vin_le(y, z);
            lemma_below_same_input(ci, x, y, z1, z2);
        }
    }
    let a0 = with_counts(a.global, 0, 0);
    let b0 = with_counts(b.global, 0, 0);
    lemma_global_join_least(a0, b0, with_counts(c.global, 0, 0));
    lemma_global_join_recount(a.global, b0, 0, 0, 0, 0);
    lemma_global_join_recount(a.global, b.global, 0, 0, 0, 0);
    let m = merged_inputs(a.inputs, b.inputs);
    assert forall|z: PartialVinView| #[trigger] m.contains(z) implies exists|w: PartialVinView| #[trigger]
        ci.contains(w) && partial_vin_le(z, w) by {
        if merged_from(a.inputs, b.inputs, z) {
            let (x, y) = choose|x: PartialVinView, y: PartialVinView|
                #![trigger a.inputs.contains(x), b.inputs.contains(y)]
                a.inputs.contains(x) && b.inputs.contains(y) && same_outpoint(x, y)
                    && join_partial_vin(x, y) == Ok::<PartialVinView, JoinError>(z);
            let z1 = choose|w: PartialVinView| #[trigger] ci.contains(w) && partial_vin_le(x, w);
            let z2 = choose|w: PartialVinView| #[trigger] ci.contains(w) && partial_vin_le(y, w);
            lemma_below_same_input(ci, x, y, z1, z2);
        } else if a.inputs.contains(z) {
            assert(a.inputs.contains(z));
        } else {
            assert(b.inputs.contains(z));
        }
    }
}

/// Setting the counts of one side of a join of global fields changes
/// nothing once the counts of the result are set again.
proof fn lemma_global_join_recount(a: GlobalView, b: GlobalView, n: nat, m: nat, p: nat, q: nat)
    ensures
        join_global(with_counts(a, n, m), b) is Ok <==> join_global(a, b) is Ok,
        join_global(a, with_counts(b, n, m)) is Ok <==> join_global(a, b) is Ok,
        join_global(a, b) is Ok ==> with_counts(join_global(with_counts(a, n, m), b)->Ok_0, p, q)
            == with_counts(join_global(a, b)->Ok_0, p, q),
        join_global(a, b) is Ok ==> with_counts(join_global(a, with_counts(b, n, m))->Ok_0, p, q)
            == with_counts(join_global(a, b)->Ok_0, p, q),
{
}

/// Joining a state with ordered inputs with itself gives it back, when its
/// counts match its inputs and outputs.
pub proof fn lemma_ordered_inputs_join_idempotent(a: OrderedInputsView)
    requires
        a.global.input_count == a.inputs.len(),
        a.global.output_count == a.outputs.len(),
    ensures
        join_ordered_inputs(a, a) == Ok::<OrderedInputsView, JoinError>(a),
{
    lemma_global_join_idempotent(a.global);
    assert(a.outputs.union(a.outputs) =~= a.outputs);
}

/// The join of states with ordered inputs does not depend on the order of
/// its arguments.
pub proof fn lemma_ordered_inputs_join_commutative(a: OrderedInputsView, b: OrderedInputsView)
    ensures
        join_ordered_inputs(a, b) == join_ordered_inputs(b, a),
{
    lemma_global_join_commutative(a.global, b.global);
    assert(a.outputs.union(b.outputs) =~= b.outputs.union(a.outputs));
}

/// The join of states with ordered inputs does not depend on how three of
/// them are grouped.
pub proof fn lemma_ordered_inputs_join_associative(
    a: OrderedInputsView,
    b: OrderedInputsView,
    c: OrderedInputsView,
)
    ensures
        and_then(join_ordered_inputs(a, b), |ab: OrderedInputsView| join_ordered_inputs(ab, c))
            == and_then(join_ordered_inputs(b, c), |bc: OrderedInputsView| join_ordered_inputs(a, bc)),
{
    lemma_global_join_associative(a.global, b.global, c.global);
    let o_ab = a.outputs.union(b.outputs);
    let o_bc = b.outputs.union(c.outputs);
    let o = o_ab.union(c.outputs);
    assert(o =~= a.outputs.union(o_bc));
    let n = a.inputs.len();
    if a.inputs == b.inputs && b.inputs == c.inputs {
        match (join_global(a.global, b.global), join_global(b.global, c.global)) {
            (Ok(ab), Ok(bc)) => {
                lemma_global_join_recount(ab, c.global, n, o_ab.len(), n, o.len());
                lemma_global_join_recount(a.global, bc, n, o_bc.len(), n, o.len());
            },
            (Ok(ab), Err(_)) => {
                lemma_global_join_recount(ab, c.global, n, o_ab.len(), n, o.len());
            },
            (Err(_), Ok(bc)) => {
                lemma_global_join_recount(a.global, bc, n, o_bc.len(), n, o.len());
            },
            _ => {},
        }
    }
}

/// Joining a state with ordered inputs and outputs with itself gives it
/// back, when its counts match its inputs and outputs.
pub proof fn lemma_ordered_outputs_join_idempotent(a: OrderedOutputsView)
    requires
        a.global.input_count == a.inputs.len(),
        a.global.output_count == a.outputs.len(),
    ensures
        join_ordered_outputs(a, a) == Ok::<OrderedOutputsView, JoinError>(a),
{
    lemma_global_join_idempotent(a.global);
}

/// The join of states with ordered inputs and outputs does not depend on
/// the order of its arguments.
pub proof fn lemma_ordered_outputs_join_commutative(a: OrderedOutputsView, b: OrderedOutputsView)
    ensures
        join_ordered_outputs(a, b) == join_ordered_outputs(b, a),
{
    lemma_global_join_commutative(a.global, b.global);
}

/// The join of states with ordered inputs and outputs does not depend on
/// how three of them are grouped.
pub proof fn lemma_ordered_outputs_join_associative(
    a: OrderedOutputsView,
    b: OrderedOutputsView,
    c: OrderedOutputsView,
)
    ensures
        and_then(join_ordered_outputs(a, b), |ab: OrderedOutputsView| join_ordered_outputs(ab, c))
            == and_then(join_ordered_outputs(b, c), |bc: OrderedOutputsView| join_ordered_outputs(a, bc)),
{
    lemma_global_join_associative(a.global, b.global, c.global);
    let n = a.inputs.len();
    let m = a.outputs.len();
    if a.inputs == b.inputs && b.inputs == c.inputs && a.outputs == b.outputs && b.outputs == c.outputs {
        match (join_global(a.global, b.global), join_global(b.global, c.global)) {
            (Ok(ab), Ok(bc)) => {
                lemma_global_join_recount(ab, c.global, n, m, n, m);
                lemma_global_join_recount(a.global, bc, n, m, n, m);
            },
            (Ok(ab), Err(_)) => {
                lemma_global_join_recount(ab, c.global, n, m, n, m);
            },
            (Err(_), Ok(bc)) => {
                lemma_global_join_recount(a.global, bc, n, m, n, m);
            },
            _ => {},
        }
    }
}

/// The inputs from index `i` on have no error exactly when each of them has
/// a known outpoint.
pub proof fn lemma_inputs_error_none(s: Seq<PartialVinView>, i: int)
    requires
        0 <= i <= s.len(),
    ensures
        inputs_error(s, i) is None <==> forall|j: int|
            i <= j < s.len() ==> (#[trigger] s[j]).previous_output is Some
                && s[j].spent_output_index is Some,
    decreases s.len() - i,
{
    if i < s.len() {
        lemma_inputs_error_none(s, i + 1);
    }
}

/// The outputs from index `i` on have no error exactly when each of them
/// has a known amount and script.
pub proof fn lemma_outputs_error_none(s: Seq<PartialVoutView>, i: int)
    requires
        0 <= i <= s.len(),
    ensures
        outputs_error(s, i) is None <==> forall|j: int|
            i <= j < s.len() ==> (#[trigger] s[j]).value is Some && s[j].script_pubkey is Some,
    decreases s.len() - i,
{
    if i < s.len() {
        lemma_outputs_error_none(s, i + 1);
    }
}

/// A finalized transaction converts exactly when every input has a known
/// outpoint and every output a known amount and script; the PSBT then has
/// as many inputs and outputs as the transaction, its counts say so, and
/// it is a version 2 PSBT with no modifiable flags.
pub proof fn lemma_psbt_conversion(w: OrderedOutputsView)
    requires
        w.inputs.len() <= usize::MAX,
        w.outputs.len() <= usize::MAX,
    ensures
        psbt_conversion(w) is Ok <==> (forall|j: int|
            0 <= j < w.inputs.len() ==> (#[trigger] w.inputs[j]).previous_output is Some
                && w.inputs[j].spent_output_index is Some) && (forall|j: int|
            0 <= j < w.outputs.len() ==> (#[trigger] w.outputs[j]).value is Some
                && w.outputs[j].script_pubkey is Some),
        psbt_conversion(w) is Ok ==> {
            let p = psbt_conversion(w)->Ok_0;
            &&& p.inputs.len() == w.inputs.len()
            &&& p.outputs.len() == w.outputs.len()
            &&& p.global.input_count == p.inputs.len()
            &&& p.global.output_count == p.outputs.len()
            &&& p.global.version == 2
            &&& p.global.tx_modifiable_flags == 0
            &&& p.global.tx_version == w.global.tx_version
        },
{
    lemma_inputs_error_none(w.inputs, 0);
    lemma_outputs_error_none(w.outputs, 0);
}

/// A successful conversion keeps, for every input in order, its outpoint,
/// its sequence, the output it spends (witness UTXO) and its final scripts,
/// and leaves every other input field empty; it keeps every output whole,
/// and keeps the lock time and the maps of the global fields.
pub proof fn lemma_psbt_conversion_keeps_fields(w: OrderedOutputsView)
    requires
        psbt_conversion(w) is Ok,
    ensures
        forall|j: int| #![trigger psbt_conversion(w)->Ok_0.inputs[j]]
            0 <= j < w.inputs.len() ==> {
                let i = psbt_conversion(w)->Ok_0.inputs[j];
                let v = w.inputs[j];
                &&& Some(i.previous_output) == v.previous_output
                &&& Some(i.spent_output_index) == v.spent_output_index
                &&& i.data.sequence == v.data.sequence
                &&& i.data.witness_utxo == v.data.witness_utxo
                &&& i.data.final_script_sig == v.data.final_script_sig
                &&& i.data.final_script_witness == v.data.final_script_witness
                &&& i.data.min_time is None
                &&& i.data.min_height is None
                &&& i.data.non_witness_utxo is None
                &&& i.data.sighash_type is None
                &&& i.data.redeem_script is None
                &&& i.data.witness_script is None
                &&& i.data.tap_key_sig is None
                &&& i.data.tap_internal_key is None
                &&& i.data.tap_merkle_root is None
                &&& i.data.partial_sigs.is_empty()
                &&& i.data.bip32_derivations.is_empty()
                &&& i.data.ripemd160_preimages.is_empty()
                &&& i.data.sha256_preimages.is_empty()
                &&& i.data.hash160_preimages.is_empty()
                &&& i.data.hash256_preimages.is_empty()
                &&& i.data.tap_script_sigs.is_empty()
                &&& i.data.tap_scripts.is_empty()
                &&& i.data.tap_key_origins.is_empty()
                &&& i.data.proprietaries.is_empty()
                &&& i.data.unknowns.is_empty()
            },
        forall|j: int| #![trigger psbt_conversion(w)->Ok_0.outputs[j]]
            0 <= j < w.outputs.len() ==> {
                let o = psbt_conversion(w)->Ok_0.outputs[j];
                let v = w.outputs[j];
                &&& Some(o.value) == v.value
                &&& Some(o.script_pubkey) == v.script_pubkey
                &&& o.data == v.data
            },
        psbt_conversion(w)->Ok_0.global.fallback_lock_time == w.global.fallback_lock_time,
        psbt_conversion(w)->Ok_0.global.xpubs == w.global.xpubs,
        psbt_conversion(w)->Ok_0.global.proprietaries == w.global.proprietaries,
        psbt_conversion(w)->Ok_0.global.unknowns == w.global.unknowns,
{
    lemma_inputs_error_none(w.inputs, 0);
    lemma_outputs_error_none(w.outputs, 0);
    assert(Map::<Seq<u8>, Seq<u8>>::empty().is_empty());
}

/// A successful unordered join counts its inputs and outputs: the global
/// counts are the numbers of inputs and outputs of the result.
pub proof fn lemma_unordered_join_counts(a: UnOrderedInputsView, b: UnOrderedInputsView)
    requires
        join_unordered(a, b) is Ok,
        join_unordered(a, b)->Ok_0.inputs.len() <= usize::MAX,
        join_unordered(a, b)->Ok_0.outputs.len() <= usize::MAX,
    ensures
        join_unordered(a, b)->Ok_0.global.input_count == join_unordered(a, b)->Ok_0.inputs.len(),
        join_unordered(a, b)->Ok_0.global.output_count == join_unordered(a, b)->Ok_0.outputs.len(),
{
}

/// A successful join of states with ordered inputs counts its inputs and
/// outputs.
pub proof fn lemma_ordered_inputs_join_counts(a: OrderedInputsView, b: OrderedInputsView)
    requires
        join_ordered_inputs(a, b) is Ok,
        join_ordered_inputs(a, b)->Ok_0.inputs.len() <= usize::MAX,
        join_ordered_inputs(a, b)->Ok_0.outputs.len() <= usize::MAX,
    ensures
        join_ordered_inputs(a, b)->Ok_0.global.input_count == join_ordered_inputs(a, b)->Ok_0.inputs.len(),
        join_ordered_inputs(a, b)->Ok_0.global.output_count == join_ordered_inputs(a, b)->Ok_0.outputs.len(),
{
}

/// A successful join of states with ordered inputs and outputs counts its
/// inputs and outputs.
pub proof fn lemma_ordered_outputs_join_counts(a: OrderedOutputsView, b: OrderedOutputsView)
    requires
        join_ordered_outputs(a, b) is Ok,
        join_ordered_outputs(a, b)->Ok_0.inputs.len() <= usize::MAX,
        join_ordered_outputs(a, b)->Ok_0.outputs.len() <= usize::MAX,
    ensures
        join_ordered_outputs(a, b)->Ok_0.global.input_count == join_ordered_outputs(a, b)->Ok_0.inputs.len(),
        join_ordered_outputs(a, b)->Ok_0.global.output_count == join_ordered_outputs(a, b)->Ok_0.outputs.len(),
{
}

/// The information order on states with ordered inputs, counts aside: the
/// same inputs in the same order, the outputs grow, and so do the global
/// fields.
pub open spec fn ordered_inputs_le(a: OrderedInputsView, b: OrderedInputsView) -> bool {
    &&& a.inputs == b.inputs
    &&& a.outputs.subset_of(b.outputs)
    &&& global_le(with_counts(a.global, 0, 0), with_counts(b.global, 0, 0))
}

/// The join of two states with ordered inputs lies above both.
pub proof fn lemma_ordered_inputs_join_upper_bound(a: OrderedInputsView, b: OrderedInputsView)
    ensures
        join_ordered_inputs(a, b) is Ok ==> ordered_inputs_le(a, join_ordered_inputs(a, b)->Ok_0)
            && ordered_inputs_le(b, join_ordered_inputs(a, b)->Ok_0),
{
    lemma_global_join_upper_bound(a.global, b.global);
}

/// Whatever state with ordered inputs lies above two of them lies above
/// their join, which then exists: the join is their least upper bound. So
/// two states with the same inputs whose global fields and outputs have a
/// common upper bound always join.
pub proof fn lemma_ordered_inputs_join_least(a: OrderedInputsView, b: OrderedInputsView, c: OrderedInputsView)
    requires
        ordered_inputs_le(a, c),
        ordered_inputs_le(b, c),
    ensures
        join_ordered_inputs(a, b) is Ok,
        ordered_inputs_le(join_ordered_inputs(a, b)->Ok_0, c),
{
    let b0 = with_counts(b.global, 0, 0);
    lemma_global_join_least(with_counts(a.global, 0, 0), b0, with_counts(c.global, 0, 0));
    lemma_global_join_recount(a.global, b0, 0, 0, 0, 0);
    lemma_global_join_recount(a.global, b.global, 0, 0, 0, 0);
}

/// The information order on states with ordered inputs and outputs, counts
/// aside: the same lists in the same orders, and the global fields grow.
pub open spec fn ordered_outputs_le(a: OrderedOutputsView, b: OrderedOutputsView) -> bool {
    &&& a.inputs == b.inputs
    &&& a.outputs == b.outputs
    &&& global_le(with_counts(a.global, 0, 0), with_counts(b.global, 0, 0))
}

/// The join of two states with ordered inputs and outputs lies above both.
pub proof fn lemma_ordered_outputs_join_upper_bound(a: OrderedOutputsView, b: OrderedOutputsView)
    ensures
        join_ordered_outputs(a, b) is Ok ==> ordered_outputs_le(a, join_ordered_outputs(a, b)->Ok_0)
            && ordered_outputs_le(b, join_ordered_outputs(a, b)->Ok_0),
{
    lemma_global_join_upper_bound(a.global, b.global);
}

/// Whatever state with ordered inputs and outputs lies above two of them
/// lies above their join, which then exists: the join is their least upper
/// bound.
pub proof fn lemma_ordered_outputs_join_least(a: OrderedOutputsView, b: OrderedOutputsView, c: OrderedOutputsView)
    requires
        ordered_outputs_le(a, c),
        ordered_outputs_le(b, c),
    ensures
        join_ordered_outputs(a, b) is Ok,
        ordered_outputs_le(join_ordered_outputs(a, b)->Ok_0, c),
{
    let b0 = with_counts(b.global, 0, 0);
    lemma_global_join_least(with_counts(a.global, 0, 0), b0, with_counts(c.global, 0, 0));
    lemma_global_join_recount(a.global, b0, 0, 0, 0, 0);
    lemma_global_join_recount(a.global, b.global, 0, 0, 0, 0);
}

} // verus!
