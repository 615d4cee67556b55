//! PSBT outputs: the fields an output may carry, an output whose amount and
//! script may still be unknown, and a complete output.
use vstd::prelude::*;

use crate::byte_map::{join_field_map, join_map, lemma_join_map_associative, lemma_join_map_commutative,
    lemma_join_map_idempotent, lemma_join_map_least, lemma_join_map_upper_bound, ByteMap};
use crate::bytes::bytes_copy;
use crate::values::{and_then, copy_option, join_opt, join_option, lemma_join_opt_associative,
    lemma_join_opt_commutative, lemma_join_opt_idempotent, lemma_join_opt_least,
    lemma_join_opt_upper_bound, opt_le, opt_view, same_option,
    IdempotentValue};
use crate::{Join, JoinError};

verus! {

/// A transaction output: an amount in satoshis and the script that locks it.
#[derive(Debug, PartialEq, Eq, Hash)]
pub struct TxOut {
    /// The amount, in satoshis.
    pub value: u64,
    /// The locking script, serialized.
    pub script_pubkey: Vec<u8>,
}

impl View for TxOut {
    type V = (u64, Seq<u8>);

    open spec fn view(&self) -> (u64, Seq<u8>) {
        (self.value, self.script_pubkey@)
    }
}

impl IdempotentValue for TxOut {
    fn same_value(&self, other: &Self) -> (r: bool) {
        self.value == other.value && self.script_pubkey.same_value(&other.script_pubkey)
    }

    fn copy_value(&self) -> (r: Self) {
        TxOut { value: self.value, script_pubkey: bytes_copy(&self.script_pubkey) }
    }
}

impl Clone for TxOut {
    fn clone(&self) -> (r: Self)
        ensures
            r@ == self@,
    {
        self.copy_value()
    }
}

/// All PSBT output fields except value and script_pubkey.
#[derive(Debug, PartialEq, Eq, Hash)]
pub struct VoutData {
    /// The redeem script for this output.
    pub redeem_script: Option<Vec<u8>>,
    /// The witness script for this output.
    pub witness_script: Option<Vec<u8>>,
    /// A map from public keys needed to spend this output to their
    /// corresponding master key fingerprints and derivation paths.
    pub bip32_derivations: ByteMap,
    /// The internal pubkey.
    pub tap_internal_key: Option<Vec<u8>>,
    /// Taproot output tree.
    pub tap_tree: Option<Vec<u8>>,
    /// Map of taproot x-only keys to origin info and the leaf hashes they appear in.
    pub tap_key_origins: ByteMap,
    /// Proprietary key-value pairs for this output.
    pub proprietaries: ByteMap,
    /// Unknown key-value pairs for this output.
    pub unknowns: ByteMap,
}

/// What a [`VoutData`] holds, as mathematical values.
pub struct VoutDataView {
    pub redeem_script: Option<Seq<u8>>,
    pub witness_script: Option<Seq<u8>>,
    pub bip32_derivations: Map<Seq<u8>, Seq<u8>>,
    pub tap_internal_key: Option<Seq<u8>>,
    pub tap_tree: Option<Seq<u8>>,
    pub tap_key_origins: Map<Seq<u8>, Seq<u8>>,
    pub proprietaries: Map<Seq<u8>, Seq<u8>>,
    pub unknowns: Map<Seq<u8>, Seq<u8>>,
}

impl View for VoutData {
    type V = VoutDataView;

    open spec fn view(&self) -> VoutDataView {
        VoutDataView {
            redeem_script: opt_view(self.redeem_script),
            witness_script: opt_view(self.witness_script),
            bip32_derivations: self.bip32_derivations@,
            tap_internal_key: opt_view(self.tap_internal_key),
            tap_tree: opt_view(self.tap_tree),
            tap_key_origins: self.tap_key_origins@,
            proprietaries: self.proprietaries@,
            unknowns: self.unknowns@,
        }
    }
}

/// The join of two [`VoutDataView`]s: each field joins with the same field of the
/// other side. When a field fails (two known values differ, or a map holds
/// two values under one key) the whole join fails with a scalar
/// disagreement, whichever field it was.
pub open spec fn join_vout_data(a: VoutDataView, b: VoutDataView) -> Result<VoutDataView, JoinError> {
    let redeem_script = join_opt(a.redeem_script, b.redeem_script);
    let witness_script = join_opt(a.witness_script, b.witness_script);
    let tap_internal_key = join_opt(a.tap_internal_key, b.tap_internal_key);
    let tap_tree = join_opt(a.tap_tree, b.tap_tree);
    let bip32_derivations = join_map(a.bip32_derivations, b.bip32_derivations);
    let tap_key_origins = join_map(a.tap_key_origins, b.tap_key_origins);
    let proprietaries = join_map(a.proprietaries, b.proprietaries);
    let unknowns = join_map(a.unknowns, b.unknowns);
    if !(redeem_script is Ok && witness_script is Ok && tap_internal_key is Ok && tap_tree is Ok && bip32_derivations is Ok && tap_key_origins is Ok && proprietaries is Ok && unknowns is Ok) {
        Err(JoinError::ScalarDisagree)
    } else {
        Ok(VoutDataView {
            redeem_script: redeem_script->Ok_0,
            witness_script: witness_script->Ok_0,
            bip32_derivations: bip32_derivations->Ok_0,
            tap_internal_key: tap_internal_key->Ok_0,
            tap_tree: tap_tree->Ok_0,
            tap_key_origins: tap_key_origins->Ok_0,
            proprietaries: proprietaries->Ok_0,
            unknowns: unknowns->Ok_0,
        })
    }
}

impl Join for VoutData {
    fn join(&self, other: &Self) -> (r: Result<Self, JoinError>)
        ensures
            r matches Ok(v) ==> join_vout_data(self@, other@) == Ok::<VoutDataView, JoinError>(v@),
            r matches Err(e) ==> join_vout_data(self@, other@) == Err::<VoutDataView, JoinError>(e),
    {
        let redeem_script = join_option(&self.redeem_script, &other.redeem_script)?;
        let witness_script = join_option(&self.witness_script, &other.witness_script)?;
        let tap_internal_key = join_option(&self.tap_internal_key, &other.tap_internal_key)?;
        let tap_tree = join_option(&self.tap_tree, &other.tap_tree)?;
        let bip32_derivations = join_field_map(&self.bip32_derivations, &other.bip32_derivations)?;
        let tap_key_origins = join_field_map(&self.tap_key_origins, &other.tap_key_origins)?;
        let proprietaries = join_field_map(&self.proprietaries, &other.proprietaries)?;
        let unknowns = join_field_map(&self.unknowns, &other.unknowns)?;
        Ok(VoutData {
            redeem_script,
            witness_script,
            bip32_derivations,
            tap_internal_key,
            tap_tree,
            tap_key_origins,
            proprietaries,
            unknowns,
        })
    }
}

impl IdempotentValue for VoutData {
    fn same_value(&self, other: &Self) -> (r: bool) {
        let r = same_option(&self.redeem_script, &other.redeem_script)
            && same_option(&self.witness_script, &other.witness_script)
            && self.bip32_derivations.same_map(&other.bip32_derivations)
            && same_option(&self.tap_internal_key, &other.tap_internal_key)
            && same_option(&self.tap_tree, &other.tap_tree)
            && self.tap_key_origins.same_map(&other.tap_key_origins)
            && self.proprietaries.same_map(&other.proprietaries)
            && self.unknowns.same_map(&other.unknowns);
        proof {
            if r {
                assert(self@ == other@);
            }
        }
        r
    }

    fn copy_value(&self) -> (r: Self) {
        VoutData {
            redeem_script: copy_option(&self.redeem_script),
            witness_script: copy_option(&self.witness_script),
            bip32_derivations: self.bip32_derivations.copy(),
            tap_internal_key: copy_option(&self.tap_internal_key),
            tap_tree: copy_option(&self.tap_tree),
            tap_key_origins: self.tap_key_origins.copy(),
            proprietaries: self.proprietaries.copy(),
            unknowns: self.unknowns.copy(),
        }
    }
}

impl Clone for VoutData {
    fn clone(&self) -> (r: Self)
        ensures
            r@ == self@,
    {
        self.copy_value()
    }
}

/// A [`VoutDataView`] that knows nothing: every field is unknown or empty.
pub open spec fn empty_vout_data() -> VoutDataView {
    VoutDataView {
        redeem_script: None,
        witness_script: None,
        bip32_derivations: Map::empty(),
        tap_internal_key: None,
        tap_tree: None,
        tap_key_origins: Map::empty(),
        proprietaries: Map::empty(),
        unknowns: Map::empty(),
    }
}

impl Default for VoutData {
    fn default() -> (r: Self)
        ensures
            r@ == empty_vout_data(),
    {
        VoutData {
            redeem_script: None,
            witness_script: None,
            bip32_derivations: ByteMap::new(),
            tap_internal_key: None,
            tap_tree: None,
            tap_key_origins: ByteMap::new(),
            proprietaries: ByteMap::new(),
            unknowns: ByteMap::new(),
        }
    }
}

/// Joining a [`VoutData`] with itself gives it back.
pub proof fn lemma_vout_data_join_idempotent(a: VoutDataView)
    ensures
        join_vout_data(a, a) == Ok::<VoutDataView, JoinError>(a),
{
    lemma_join_opt_idempotent(a.redeem_script);
    lemma_join_opt_idempotent(a.witness_script);
    lemma_join_map_idempotent(a.bip32_derivations);
    lemma_join_opt_idempotent(a.tap_internal_key);
    lemma_join_opt_idempotent(a.tap_tree);
    lemma_join_map_idempotent(a.tap_key_origins);
    lemma_join_map_idempotent(a.proprietaries);
    lemma_join_map_idempotent(a.unknowns);
}

/// The join of [`VoutData`]s does not depend on the order of its arguments.
pub proof fn lemma_vout_data_join_commutative(a: VoutDataView, b: VoutDataView)
    ensures
        join_vout_data(a, b) == join_vout_data(b, a),
{
    lemma_join_opt_commutative(a.redeem_script, b.redeem_script);
    lemma_join_opt_commutative(a.witness_script, b.witness_script);
    lemma_join_map_commutative(a.bip32_derivations, b.bip32_derivations);
    lemma_join_opt_commutative(a.tap_internal_key, b.tap_internal_key);
    lemma_join_opt_commutative(a.tap_tree, b.tap_tree);
    lemma_join_map_commutative(a.tap_key_origins, b.tap_key_origins);
    lemma_join_map_commutative(a.proprietaries, b.proprietaries);
    lemma_join_map_commutative(a.unknowns, b.unknowns);
}

/// The join of [`VoutData`]s does not depend on how three of them are
/// grouped.
pub proof fn lemma_vout_data_join_associative(a: VoutDataView, b: VoutDataView, c: VoutDataView)
    ensures
        and_then(join_vout_data(a, b), |ab: VoutDataView| join_vout_data(ab, c))
            == and_then(join_vout_data(b, c), |bc: VoutDataView| join_vout_data(a, bc)),
{
    lemma_join_opt_associative(a.redeem_script, b.redeem_script, c.redeem_script);
    lemma_join_opt_associative(a.witness_script, b.witness_script, c.witness_script);
    lemma_join_map_associative(a.bip32_derivations, b.bip32_derivations, c.bip32_derivations);
    lemma_join_opt_associative(a.tap_internal_key, b.tap_internal_key, c.tap_internal_key);
    lemma_join_opt_associative(a.tap_tree, b.tap_tree, c.tap_tree);
    lemma_join_map_associative(a.tap_key_origins, b.tap_key_origins, c.tap_key_origins);
    lemma_join_map_associative(a.proprietaries, b.proprietaries, c.proprietaries);
    lemma_join_map_associative(a.unknowns, b.unknowns, c.unknowns);
}


/// The information order on [`VoutDataView`]s: every known field of `a` is known
/// with the same value in `b`, and every map of `a` is part of that of `b`.
pub open spec fn vout_data_le(a: VoutDataView, b: VoutDataView) -> bool {
    &&& opt_le(a.redeem_script, b.redeem_script)
    &&& opt_le(a.witness_script, b.witness_script)
    &&& a.bip32_derivations.submap_of(b.bip32_derivations)
    &&& opt_le(a.tap_internal_key, b.tap_internal_key)
    &&& opt_le(a.tap_tree, b.tap_tree)
    &&& a.tap_key_origins.submap_of(b.tap_key_origins)
    &&& a.proprietaries.submap_of(b.proprietaries)
    &&& a.unknowns.submap_of(b.unknowns)
}

/// The join of two [`VoutData`]s is above both in the information order.
pub proof fn lemma_vout_data_join_upper_bound(a: VoutDataView, b: VoutDataView)
    ensures
        join_vout_data(a, b) is Ok ==> vout_data_le(a, join_vout_data(a, b)->Ok_0) && vout_data_le(
            b,
            join_vout_data(a, b)->Ok_0,
        ),
{
    lemma_join_opt_upper_bound(a.redeem_script, b.redeem_script);
    lemma_join_opt_upper_bound(a.witness_script, b.witness_script);
    lemma_join_map_upper_bound(a.bip32_derivations, b.bip32_derivations);
    lemma_join_opt_upper_bound(a.tap_internal_key, b.tap_internal_key);
    lemma_join_opt_upper_bound(a.tap_tree, b.tap_tree);
    lemma_join_map_upper_bound(a.tap_key_origins, b.tap_key_origins);
    lemma_join_map_upper_bound(a.proprietaries, b.proprietaries);
    lemma_join_map_upper_bound(a.unknowns, b.unknowns);
}

/// Whatever is above two [`VoutData`]s is above their join, which then exists:
/// the join is their least upper bound.
pub proof fn lemma_vout_data_join_least(a: VoutDataView, b: VoutDataView, c: VoutDataView)
    requires
        vout_data_le(a, c),
        vout_data_le(b, c),
    ensures
        join_vout_data(a, b) is Ok,
        vout_data_le(join_vout_data(a, b)->Ok_0, c),
{
    lemma_join_opt_least(a.redeem_script, b.redeem_script, c.redeem_script);
    lemma_join_opt_least(a.witness_script, b.witness_script, c.witness_script);
    lemma_join_map_least(a.bip32_derivations, b.bip32_derivations, c.bip32_derivations);
    lemma_join_opt_least(a.tap_internal_key, b.tap_internal_key, c.tap_internal_key);
    lemma_join_opt_least(a.tap_tree, b.tap_tree, c.tap_tree);
    lemma_join_map_least(a.tap_key_origins, b.tap_key_origins, c.tap_key_origins);
    lemma_join_map_least(a.proprietaries, b.proprietaries, c.proprietaries);
    lemma_join_map_least(a.unknowns, b.unknowns, c.unknowns);
}


/// A PSBT output whose value and script_pubkey may not yet be known.
#[derive(Debug, PartialEq, Eq, Hash)]
pub struct PartialVout {
    /// The amount in satoshis, if known.
    pub value: Option<u64>,
    /// The locking script, if known.
    pub script_pubkey: Option<Vec<u8>>,
    /// The other fields of the output.
    pub data: VoutData,
}

/// What a [`PartialVout`] holds, as mathematical values.
pub struct PartialVoutView {
    pub value: Option<u64>,
    pub script_pubkey: Option<Seq<u8>>,
    pub data: VoutDataView,
}

impl View for PartialVout {
    type V = PartialVoutView;

    open spec fn view(&self) -> PartialVoutView {
        PartialVoutView {
            value: opt_view(self.value),
            script_pubkey: opt_view(self.script_pubkey),
            data: self.data@,
        }
    }
}

/// The join of two partial outputs: value, script and the other fields
/// join; if one fails, the join fails with a scalar disagreement.
pub open spec fn join_partial_vout(a: PartialVoutView, b: PartialVoutView) -> Result<
    PartialVoutView,
    JoinError,
> {
    let value = join_opt(a.value, b.value);
    let script_pubkey = join_opt(a.script_pubkey, b.script_pubkey);
    let data = join_vout_data(a.data, b.data);
    if value is Err {
        Err(JoinError::ScalarDisagree)
    } else if script_pubkey is Err {
        Err(JoinError::ScalarDisagree)
    } else if data is Err {
        Err(JoinError::ScalarDisagree)
    } else {
        Ok(PartialVoutView { value: value->Ok_0, script_pubkey: script_pubkey->Ok_0, data: data->Ok_0 })
    }
}

impl std::ops::Deref for PartialVout {
    type Target = VoutData;

    fn deref(&self) -> (r: &VoutData)
        ensures
            r == &self.data,
    {
        &self.data
    }
}

impl Join for PartialVout {
    fn join(&self, other: &Self) -> (r: Result<Self, JoinError>)
        ensures
            r matches Ok(v) ==> join_partial_vout(self@, other@) == Ok::<PartialVoutView, JoinError>(v@),
            r matches Err(e) ==> join_partial_vout(self@, other@) == Err::<PartialVoutView, JoinError>(e),
    {
        let value = join_option(&self.value, &other.value)?;
        let script_pubkey = join_option(&self.script_pubkey, &other.script_pubkey)?;
        let data = self.data.join(&other.data)?;
        Ok(PartialVout { value, script_pubkey, data })
    }
}

impl IdempotentValue for PartialVout {
    fn same_value(&self, other: &Self) -> (r: bool) {
        let r = same_option(&self.value, &other.value) && same_option(
            &self.script_pubkey,
            &other.script_pubkey,
        ) && self.data.same_value(&other.data);
        proof {
            if r {
                assert(self@ == other@);
            }
        }
        r
    }

    fn copy_value(&self) -> (r: Self) {
        PartialVout {
            value: copy_option(&self.value),
            script_pubkey: copy_option(&self.script_pubkey),
            data: self.data.copy_value(),
        }
    }
}

impl Clone for PartialVout {
    fn clone(&self) -> (r: Self)
        ensures
            r@ == self@,
    {
        self.copy_value()
    }
}

impl Default for PartialVout {
    fn default() -> (r: Self)
        ensures
            r@ == (PartialVoutView { value: None, script_pubkey: None, data: empty_vout_data() }),
    {
        PartialVout { value: None, script_pubkey: None, data: VoutData::default() }
    }
}

/// A PSBT output with a known value and script_pubkey.
#[derive(Debug, PartialEq, Eq, Hash)]
pub struct Vout {
    /// The amount, in satoshis.
    pub value: u64,
    /// The locking script.
    pub script_pubkey: Vec<u8>,
    /// The other fields of the output.
    pub data: VoutData,
}

/// What a [`Vout`] holds, as mathematical values.
pub struct VoutView {
    pub value: u64,
    pub script_pubkey: Seq<u8>,
    pub data: VoutDataView,
}

impl View for Vout {
    type V = VoutView;

    open spec fn view(&self) -> VoutView {
        VoutView { value: self.value, script_pubkey: self.script_pubkey@, data: self.data@ }
    }
}

/// The join of two complete outputs: their amounts and scripts must agree,
/// and the other fields join.
pub open spec fn join_vout(a: VoutView, b: VoutView) -> Result<VoutView, JoinError> {
    if a.value != b.value || a.script_pubkey != b.script_pubkey {
        Err(JoinError::ScalarDisagree)
    } else {
        match join_vout_data(a.data, b.data) {
            Ok(data) => Ok(VoutView { value: a.value, script_pubkey: a.script_pubkey, data }),
            Err(e) => Err(e),
        }
    }
}

/// The partial output that a complete output stands for.
pub open spec fn partial_of_vout(v: VoutView) -> PartialVoutView {
    PartialVoutView { value: Some(v.value), script_pubkey: Some(v.script_pubkey), data: v.data }
}

/// The complete output that a partial output stands for, once its amount
/// and script are known.
pub open spec fn complete_vout(p: PartialVoutView) -> Result<VoutView, VoutConversionError> {
    match (p.value, p.script_pubkey) {
        (None, _) => Err(VoutConversionError::MissingValue),
        (Some(_), None) => Err(VoutConversionError::MissingScriptPubkey),
        (Some(value), Some(script_pubkey)) => Ok(VoutView { value, script_pubkey, data: p.data }),
    }
}

impl std::ops::Deref for Vout {
    type Target = VoutData;

    fn deref(&self) -> (r: &VoutData)
        ensures
            r == &self.data,
    {
        &self.data
    }
}

impl Vout {
    /// The output that spends nothing more than a transaction output says:
    /// its amount and script, and no other field.
    pub fn from_output(output: &TxOut) -> (r: Self)
        ensures
            r@ == (VoutView {
                value: output.value,
                script_pubkey: output.script_pubkey@,
                data: empty_vout_data(),
            }),
    {
        Vout {
            value: output.value,
            script_pubkey: bytes_copy(&output.script_pubkey),
            data: VoutData::default(),
        }
    }

    /// The same output with another amount.
    pub fn with_value(self, value: u64) -> (r: Self)
        ensures
            r@ == (VoutView { value, ..self@ }),
    {
        let mut out = self;
        out.value = value;
        out
    }

    /// The same output with another script.
    pub fn with_script_pubkey(self, script_pubkey: Vec<u8>) -> (r: Self)
        ensures
            r@ == (VoutView { script_pubkey: script_pubkey@, ..self@ }),
    {
        let mut out = self;
        out.script_pubkey = script_pubkey;
        out
    }
}


impl Join for Vout {
    fn join(&self, other: &Self) -> (r: Result<Self, JoinError>)
        ensures
            r matches Ok(v) ==> join_vout(self@, other@) == Ok::<VoutView, JoinError>(v@),
            r matches Err(e) ==> join_vout(self@, other@) == Err::<VoutView, JoinError>(e),
    {
        if self.value != other.value || !self.script_pubkey.same_value(&other.script_pubkey) {
            return Err(JoinError::ScalarDisagree);
        }
        let data = self.data.join(&other.data)?;
        Ok(Vout { value: self.value, script_pubkey: bytes_copy(&self.script_pubkey), data })
    }
}

impl IdempotentValue for Vout {
    fn same_value(&self, other: &Self) -> (r: bool) {
        let r = self.value == other.value && self.script_pubkey.same_value(&other.script_pubkey)
            && self.data.same_value(&other.data);
        proof {
            if r {
                assert(self@ == other@);
            }
        }
        r
    }

    fn copy_value(&self) -> (r: Self) {
        Vout {
            value: self.value,
            script_pubkey: bytes_copy(&self.script_pubkey),
            data: self.data.copy_value(),
        }
    }
}

impl Clone for Vout {
    fn clone(&self) -> (r: Self)
        ensures
            r@ == self@,
    {
        self.copy_value()
    }
}

/// Why a partial output is not yet a complete one.
#[derive(Debug, Clone, Copy, PartialEq, Eq, Structural)]
pub enum VoutConversionError {
    /// The amount is unknown.
    MissingValue,
    /// The locking script is unknown.
    MissingScriptPubkey,
}

/// Joining a partial output with itself gives it back.
pub proof fn lemma_partial_vout_join_idempotent(a: PartialVoutView)
    ensures
        join_partial_vout(a, a) == Ok::<PartialVoutView, JoinError>(a),
{
    lemma_join_opt_idempotent(a.value);
    lemma_join_opt_idempotent(a.script_pubkey);
    lemma_vout_data_join_idempotent(a.data);
}

/// The join of partial outputs does not depend on the order of its arguments.
pub proof fn lemma_partial_vout_join_commutative(a: PartialVoutView, b: PartialVoutView)
    ensures
        join_partial_vout(a, b) == join_partial_vout(b, a),
{
    lemma_join_opt_commutative(a.value, b.value);
    lemma_join_opt_commutative(a.script_pubkey, b.script_pubkey);
    lemma_vout_data_join_commutative(a.data, b.data);
}

/// The join of partial outputs does not depend on how three of them are grouped.
pub proof fn lemma_partial_vout_join_associative(a: PartialVoutView, b: PartialVoutView, c: PartialVoutView)
    ensures
        and_then(join_partial_vout(a, b), |ab: PartialVoutView| join_partial_vout(ab, c))
            == and_then(join_partial_vout(b, c), |bc: PartialVoutView| join_partial_vout(a, bc)),
{
    lemma_join_opt_associative(a.value, b.value, c.value);
    lemma_join_opt_associative(a.script_pubkey, b.script_pubkey, c.script_pubkey);
    lemma_vout_data_join_associative(a.data, b.data, c.data);
}

/// Joining a complete output with itself gives it back.
pub proof fn lemma_vout_join_idempotent(a: VoutView)
    ensures
        join_vout(a, a) == Ok::<VoutView, JoinError>(a),
{
    lemma_vout_data_join_idempotent(a.data);
}

/// The join of complete outputs does not depend on the order of its
/// arguments.
pub proof fn lemma_vout_join_commutative(a: VoutView, b: VoutView)
    ensures
        join_vout(a, b) == join_vout(b, a),
{
    lemma_vout_data_join_commutative(a.data, b.data);
}

/// The join of complete outputs does not depend on how three of them are grouped.
pub proof fn lemma_vout_join_associative(a: VoutView, b: VoutView, c: VoutView)
    ensures
        and_then(join_vout(a, b), |ab: VoutView| join_vout(ab, c))
            == and_then(join_vout(b, c), |bc: VoutView| join_vout(a, bc)),
{
    lemma_vout_data_join_associative(a.data, b.data, c.data);
}

/// A complete output converts to a partial one and back unchanged.
pub proof fn lemma_vout_round_trip(v: VoutView)
    ensures
        complete_vout(partial_of_vout(v)) == Ok::<VoutView, VoutConversionError>(v),
{
}

/// A partial output that converts to a complete one is what that complete
/// output stands for.
pub proof fn lemma_partial_vout_round_trip(p: PartialVoutView)
    ensures
        complete_vout(p) is Ok ==> partial_of_vout(complete_vout(p)->Ok_0) == p,
{
}

/// Joining complete outputs gives what joining the partial outputs they
/// stand for gives.
pub proof fn lemma_vout_join_agrees_with_partial(a: VoutView, b: VoutView)
    ensures
        join_partial_vout(partial_of_vout(a), partial_of_vout(b)) == (match join_vout(a, b) {
            Ok(j) => Ok(partial_of_vout(j)),
            Err(e) => Err(e),
        }),
{
}


/// The information order on partial outputs: known amount and script fields
/// stay known with the same value, and the other fields grow.
pub open spec fn partial_vout_le(a: PartialVoutView, b: PartialVoutView) -> bool {
    &&& opt_le(a.value, b.value)
    &&& opt_le(a.script_pubkey, b.script_pubkey)
    &&& vout_data_le(a.data, b.data)
}

/// The join of two partial outputs is above both.
pub proof fn lemma_partial_vout_join_upper_bound(a: PartialVoutView, b: PartialVoutView)
    ensures
        join_partial_vout(a, b) is Ok ==> partial_vout_le(a, join_partial_vout(a, b)->Ok_0) && partial_vout_le(
            b,
            join_partial_vout(a, b)->Ok_0,
        ),
{
    lemma_join_opt_upper_bound(a.value, b.value);
    lemma_join_opt_upper_bound(a.script_pubkey, b.script_pubkey);
    lemma_vout_data_join_upper_bound(a.data, b.data);
}

/// Whatever is above two partial outputs is above their join, which then
/// exists.
pub proof fn lemma_partial_vout_join_least(a: PartialVoutView, b: PartialVoutView, c: PartialVoutView)
    requires
        partial_vout_le(a, c),
        partial_vout_le(b, c),
    ensures
        join_partial_vout(a, b) is Ok,
        partial_vout_le(join_partial_vout(a, b)->Ok_0, c),
{
    lemma_join_opt_least(a.value, b.value, c.value);
    lemma_join_opt_least(a.script_pubkey, b.script_pubkey, c.script_pubkey);
    lemma_vout_data_join_least(a.data, b.data, c.data);
}

/// The information order on complete outputs: the same amount and script, and the other
/// fields grow.
pub open spec fn vout_le(a: VoutView, b: VoutView) -> bool {
    &&& a.value == b.value
    &&& a.script_pubkey == b.script_pubkey
    &&& vout_data_le(a.data, b.data)
}

/// The join of two complete outputs is above both.
pub proof fn lemma_vout_join_upper_bound(a: VoutView, b: VoutView)
    ensures
        join_vout(a, b) is Ok ==> vout_le(a, join_vout(a, b)->Ok_0) && vout_le(
            b,
            join_vout(a, b)->Ok_0,
        ),
{
    lemma_vout_data_join_upper_bound(a.data, b.data);
}

/// Whatever is above two complete outputs is above their join, which then
/// exists.
pub proof fn lemma_vout_join_least(a: VoutView, b: VoutView, c: VoutView)
    requires
        vout_le(a, c),
        vout_le(b, c),
    ensures
        join_vout(a, b) is Ok,
        vout_le(join_vout(a, b)->Ok_0, c),
{
    lemma_vout_data_join_least(a.data, b.data, c.data);
}

} // verus!
