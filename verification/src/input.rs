//! PSBT inputs: the fields an input may carry, an input whose outpoint may
//! still be unknown, and an input with a known outpoint.
use vstd::prelude::*;

use crate::byte_map::{join_field_map, join_map, lemma_join_map_associative, lemma_join_map_commutative,
    lemma_join_map_idempotent, lemma_join_map_least, lemma_join_map_upper_bound, ByteMap};
use crate::bytes::bytes_copy;
use crate::output::TxOut;
use crate::values::{and_then, copy_option, join_opt, join_option, lemma_join_opt_associative,
    lemma_join_opt_commutative, lemma_join_opt_idempotent, lemma_join_opt_least,
    lemma_join_opt_upper_bound, opt_le, opt_view, same_option,
    IdempotentValue};
use crate::{Join, JoinError};

verus! {

/// A reference to a transaction output: the id of its transaction and its
/// index there.
#[derive(Debug, PartialEq, Eq, Hash)]
pub struct OutPoint {
    /// The id of the transaction, as its 32 bytes in internal order.
    pub txid: Vec<u8>,
    /// The index of the output in that transaction.
    pub vout: u32,
}

/// A transaction input.
#[derive(Debug, PartialEq, Eq, Hash)]
pub struct TxIn {
    /// The output this input spends.
    pub previous_output: OutPoint,
    /// The unlocking script, serialized.
    pub script_sig: Vec<u8>,
    /// The sequence number.
    pub sequence: u32,
    /// The witness stack, one byte string per element.
    pub witness: Vec<Vec<u8>>,
}

/// The transaction input that spends nothing yet: the null outpoint (all-zero
/// txid, index `u32::MAX`), empty scripts and the final sequence number.
impl Default for TxIn {
    fn default() -> (r: Self)
        ensures
            r.previous_output.txid@ == Seq::new(32, |i: int| 0u8),
            r.previous_output.vout == u32::MAX,
            r.script_sig@ == Seq::<u8>::empty(),
            r.sequence == u32::MAX,
            r.witness@ == Seq::<Vec<u8>>::empty(),
    {
        let mut txid: Vec<u8> = Vec::new();
        let mut i: usize = 0;
        while i < 32
            invariant
                i <= 32,
                txid@ =~= Seq::new(i as nat, |j: int| 0u8),
            decreases 32 - i,
        {
            txid.push(0u8);
            i = i + 1;
        }
        TxIn {
            previous_output: OutPoint { txid, vout: u32::MAX },
            script_sig: Vec::new(),
            sequence: u32::MAX,
            witness: Vec::new(),
        }
    }
}

/// All PSBT input fields except the outpoint (previous_output, spent_output_index).
#[derive(Debug, PartialEq, Eq, Hash)]
pub struct VinData {
    /// The sequence number of this input.
    /// 
    /// If omitted, assumed to be the final sequence number.
    pub sequence: Option<u32>,
    /// The minimum Unix timestamp that this input requires to be set as the transaction's lock time.
    pub min_time: Option<u32>,
    /// The minimum block height that this input requires to be set as the transaction's lock time.
    pub min_height: Option<u32>,
    /// The non-witness transaction this input spends from, serialized. Should only be
    /// `Some` for inputs which spend non-segwit outputs or if it is unknown whether an
    /// input spends a segwit output.
    pub non_witness_utxo: Option<Vec<u8>>,
    /// The transaction output this input spends from. Should only be `Some` for inputs
    /// which spend segwit outputs, including P2SH embedded ones.
    pub witness_utxo: Option<TxOut>,
    /// A map from public keys to their corresponding signature as would be pushed to
    /// the stack from a scriptSig or witness for a non-taproot input.
    pub partial_sigs: ByteMap,
    /// The sighash type to be used for this input. Signatures for this input must use
    /// the sighash type.
    pub sighash_type: Option<u32>,
    /// The redeem script for this input.
    pub redeem_script: Option<Vec<u8>>,
    /// The witness script for this input.
    pub witness_script: Option<Vec<u8>>,
    /// A map from public keys needed to sign this input to their corresponding master
    /// key fingerprints and derivation paths.
    pub bip32_derivations: ByteMap,
    /// The finalized, fully-constructed scriptSig with signatures and any other scripts
    /// necessary for this input to pass validation.
    pub final_script_sig: Option<Vec<u8>>,
    /// The finalized, fully-constructed scriptWitness, serialized, with signatures and
    /// any other scripts necessary for this input to pass validation.
    pub final_script_witness: Option<Vec<u8>>,
    /// RIPEMD160 hash to preimage map.
    pub ripemd160_preimages: ByteMap,
    /// SHA256 hash to preimage map.
    pub sha256_preimages: ByteMap,
    /// HASH160 hash to preimage map.
    pub hash160_preimages: ByteMap,
    /// HASH256 hash to preimage map.
    pub hash256_preimages: ByteMap,
    /// Serialized taproot signature with sighash type for key spend.
    pub tap_key_sig: Option<Vec<u8>>,
    /// Map of `<xonlypubkey>|<leafhash>` with signature.
    pub tap_script_sigs: ByteMap,
    /// Map of control blocks to script version pair.
    pub tap_scripts: ByteMap,
    /// Map of taproot x-only keys to origin info and leaf hashes contained in it.
    pub tap_key_origins: ByteMap,
    /// Taproot internal key.
    pub tap_internal_key: Option<Vec<u8>>,
    /// Taproot Merkle root.
    pub tap_merkle_root: Option<Vec<u8>>,
    /// Proprietary key-value pairs for this input.
    pub proprietaries: ByteMap,
    /// Unknown key-value pairs for this input.
    pub unknowns: ByteMap,
}

/// What a [`VinData`] holds, as mathematical values.
pub struct VinDataView {
    pub sequence: Option<u32>,
    pub min_time: Option<u32>,
    pub min_height: Option<u32>,
    pub non_witness_utxo: Option<Seq<u8>>,
    pub witness_utxo: Option<(u64, Seq<u8>)>,
    pub partial_sigs: Map<Seq<u8>, Seq<u8>>,
    pub sighash_type: Option<u32>,
    pub redeem_script: Option<Seq<u8>>,
    pub witness_script: Option<Seq<u8>>,
    pub bip32_derivations: Map<Seq<u8>, Seq<u8>>,
    pub final_script_sig: Option<Seq<u8>>,
    pub final_script_witness: Option<Seq<u8>>,
    pub ripemd160_preimages: Map<Seq<u8>, Seq<u8>>,
    pub sha256_preimages: Map<Seq<u8>, Seq<u8>>,
    pub hash160_preimages: Map<Seq<u8>, Seq<u8>>,
    pub hash256_preimages: Map<Seq<u8>, Seq<u8>>,
    pub tap_key_sig: Option<Seq<u8>>,
    pub tap_script_sigs: Map<Seq<u8>, Seq<u8>>,
    pub tap_scripts: Map<Seq<u8>, Seq<u8>>,
    pub tap_key_origins: Map<Seq<u8>, Seq<u8>>,
    pub tap_internal_key: Option<Seq<u8>>,
    pub tap_merkle_root: Option<Seq<u8>>,
    pub proprietaries: Map<Seq<u8>, Seq<u8>>,
    pub unknowns: Map<Seq<u8>, Seq<u8>>,
}

impl View for VinData {
    type V = VinDataView;

    open spec fn view(&self) -> VinDataView {
        VinDataView {
            sequence: opt_view(self.sequence),
            min_time: opt_view(self.min_time),
            min_height: opt_view(self.min_height),
            non_witness_utxo: opt_view(self.non_witness_utxo),
            witness_utxo: opt_view(self.witness_utxo),
            partial_sigs: self.partial_sigs@,
            sighash_type: opt_view(self.sighash_type),
            redeem_script: opt_view(self.redeem_script),
            witness_script: opt_view(self.witness_script),
            bip32_derivations: self.bip32_derivations@,
            final_script_sig: opt_view(self.final_script_sig),
            final_script_witness: opt_view(self.final_script_witness),
            ripemd160_preimages: self.ripemd160_preimages@,
            sha256_preimages: self.sha256_preimages@,
            hash160_preimages: self.hash160_preimages@,
            hash256_preimages: self.hash256_preimages@,
            tap_key_sig: opt_view(self.tap_key_sig),
            tap_script_sigs: self.tap_script_sigs@,
            tap_scripts: self.tap_scripts@,
            tap_key_origins: self.tap_key_origins@,
            tap_internal_key: opt_view(self.tap_internal_key),
            tap_merkle_root: opt_view(self.tap_merkle_root),
            proprietaries: self.proprietaries@,
            unknowns: self.unknowns@,
        }
    }
}

/// The join of two [`VinDataView`]s: each field joins with the same field of the
/// other side. When a field fails (two known values differ, or a map holds
/// two values under one key) the whole join fails with a scalar
/// disagreement, whichever field it was.
pub open spec fn join_vin_data(a: VinDataView, b: VinDataView) -> Result<VinDataView, JoinError> {
    let sequence = join_opt(a.sequence, b.sequence);
    let min_time = join_opt(a.min_time, b.min_time);
    let min_height = join_opt(a.min_height, b.min_height);
    let non_witness_utxo = join_opt(a.non_witness_utxo, b.non_witness_utxo);
    let witness_utxo = join_opt(a.witness_utxo, b.witness_utxo);
    let partial_sigs = join_map(a.partial_sigs, b.partial_sigs);
    let sighash_type = join_opt(a.sighash_type, b.sighash_type);
    let redeem_script = join_opt(a.redeem_script, b.redeem_script);
    let witness_script = join_opt(a.witness_script, b.witness_script);
    let bip32_derivations = join_map(a.bip32_derivations, b.bip32_derivations);
    let final_script_sig = join_opt(a.final_script_sig, b.final_script_sig);
    let final_script_witness = join_opt(a.final_script_witness, b.final_script_witness);
    let ripemd160_preimages = join_map(a.ripemd160_preimages, b.ripemd160_preimages);
    let sha256_preimages = join_map(a.sha256_preimages, b.sha256_preimages);
    let hash160_preimages = join_map(a.hash160_preimages, b.hash160_preimages);
    let hash256_preimages = join_map(a.hash256_preimages, b.hash256_preimages);
    let tap_key_sig = join_opt(a.tap_key_sig, b.tap_key_sig);
    let tap_script_sigs = join_map(a.tap_script_sigs, b.tap_script_sigs);
    let tap_scripts = join_map(a.tap_scripts, b.tap_scripts);
    let tap_key_origins = join_map(a.tap_key_origins, b.tap_key_origins);
    let tap_internal_key = join_opt(a.tap_internal_key, b.tap_internal_key);
    let tap_merkle_root = join_opt(a.tap_merkle_root, b.tap_merkle_root);
    let proprietaries = join_map(a.proprietaries, b.proprietaries);
    let unknowns = join_map(a.unknowns, b.unknowns);
    if !(sequence is Ok && min_time is Ok && min_height is Ok && non_witness_utxo is Ok && witness_utxo is Ok && partial_sigs is Ok && sighash_type is Ok && redeem_script is Ok && witness_script is Ok && bip32_derivations is Ok && final_script_sig is Ok && final_script_witness is Ok && ripemd160_preimages is Ok && sha256_preimages is Ok && hash160_preimages is Ok && hash256_preimages is Ok && tap_key_sig is Ok && tap_script_sigs is Ok && tap_scripts is Ok && tap_key_origins is Ok && tap_internal_key is Ok && tap_merkle_root is Ok && proprietaries is Ok && unknowns is Ok) {
        Err(JoinError::ScalarDisagree)
    } else {
        Ok(VinDataView {
            sequence: sequence->Ok_0,
            min_time: min_time->Ok_0,
            min_height: min_height->Ok_0,
            non_witness_utxo: non_witness_utxo->Ok_0,
            witness_utxo: witness_utxo->Ok_0,
            partial_sigs: partial_sigs->Ok_0,
            sighash_type: sighash_type->Ok_0,
            redeem_script: redeem_script->Ok_0,
            witness_script: witness_script->Ok_0,
            bip32_derivations: bip32_derivations->Ok_0,
            final_script_sig: final_script_sig->Ok_0,
            final_script_witness: final_script_witness->Ok_0,
            ripemd160_preimages: ripemd160_preimages->Ok_0,
            sha256_preimages: sha256_preimages->Ok_0,
            hash160_preimages: hash160_preimages->Ok_0,
            hash256_preimages: hash256_preimages->Ok_0,
            tap_key_sig: tap_key_sig->Ok_0,
            tap_script_sigs: tap_script_sigs->Ok_0,
            tap_scripts: tap_scripts->Ok_0,
            tap_key_origins: tap_key_origins->Ok_0,
            tap_internal_key: tap_internal_key->Ok_0,
            tap_merkle_root: tap_merkle_root->Ok_0,
            proprietaries: proprietaries->Ok_0,
            unknowns: unknowns->Ok_0,
        })
    }
}

impl Join for VinData {
    fn join(&self, other: &Self) -> (r: Result<Self, JoinError>)
        ensures
            r matches Ok(v) ==> join_vin_data(self@, other@) == Ok::<VinDataView, JoinError>(v@),
            r matches Err(e) ==> join_vin_data(self@, other@) == Err::<VinDataView, JoinError>(e),
    {
        let sequence = join_option(&self.sequence, &other.sequence)?;
        let min_time = join_option(&self.min_time, &other.min_time)?;
        let min_height = join_option(&self.min_height, &other.min_height)?;
        let non_witness_utxo = join_option(&self.non_witness_utxo, &other.non_witness_utxo)?;
        let witness_utxo = join_option(&self.witness_utxo, &other.witness_utxo)?;
        let partial_sigs = join_field_map(&self.partial_sigs, &other.partial_sigs)?;
        let sighash_type = join_option(&self.sighash_type, &other.sighash_type)?;
        let redeem_script = join_option(&self.redeem_script, &other.redeem_script)?;
        let witness_script = join_option(&self.witness_script, &other.witness_script)?;
        let bip32_derivations = join_field_map(&self.bip32_derivations, &other.bip32_derivations)?;
        let final_script_sig = join_option(&self.final_script_sig, &other.final_script_sig)?;
        let final_script_witness = join_option(&self.final_script_witness, &other.final_script_witness)?;
        let ripemd160_preimages = join_field_map(&self.ripemd160_preimages, &other.ripemd160_preimages)?;
        let sha256_preimages = join_field_map(&self.sha256_preimages, &other.sha256_preimages)?;
        let hash160_preimages = join_field_map(&self.hash160_preimages, &other.hash160_preimages)?;
        let hash256_preimages = join_field_map(&self.hash256_preimages, &other.hash256_preimages)?;
        let tap_key_sig = join_option(&self.tap_key_sig, &other.tap_key_sig)?;
        let tap_script_sigs = join_field_map(&self.tap_script_sigs, &other.tap_script_sigs)?;
        let tap_scripts = join_field_map(&self.tap_scripts, &other.tap_scripts)?;
        let tap_key_origins = join_field_map(&self.tap_key_origins, &other.tap_key_origins)?;
        let tap_internal_key = join_option(&self.tap_internal_key, &other.tap_internal_key)?;
        let tap_merkle_root = join_option(&self.tap_merkle_root, &other.tap_merkle_root)?;
        let proprietaries = join_field_map(&self.proprietaries, &other.proprietaries)?;
        let unknowns = join_field_map(&self.unknowns, &other.unknowns)?;
        Ok(VinData {
            sequence,
            min_time,
            min_height,
            non_witness_utxo,
            witness_utxo,
            partial_sigs,
            sighash_type,
            redeem_script,
            witness_script,
            bip32_derivations,
            final_script_sig,
            final_script_witness,
            ripemd160_preimages,
            sha256_preimages,
            hash160_preimages,
            hash256_preimages,
            tap_key_sig,
            tap_script_sigs,
            tap_scripts,
            tap_key_origins,
            tap_internal_key,
            tap_merkle_root,
            proprietaries,
            unknowns,
        })
    }
}

impl IdempotentValue for VinData {
    fn same_value(&self, other: &Self) -> (r: bool) {
        let r = same_option(&self.sequence, &other.sequence)
            && same_option(&self.min_time, &other.min_time)
            && same_option(&self.min_height, &other.min_height)
            && same_option(&self.non_witness_utxo, &other.non_witness_utxo)
            && same_option(&self.witness_utxo, &other.witness_utxo)
            && self.partial_sigs.same_map(&other.partial_sigs)
            && same_option(&self.sighash_type, &other.sighash_type)
            && same_option(&self.redeem_script, &other.redeem_script)
            && same_option(&self.witness_script, &other.witness_script)
            && self.bip32_derivations.same_map(&other.bip32_derivations)
            && same_option(&self.final_script_sig, &other.final_script_sig)
            && same_option(&self.final_script_witness, &other.final_script_witness)
            && self.ripemd160_preimages.same_map(&other.ripemd160_preimages)
            && self.sha256_preimages.same_map(&other.sha256_preimages)
            && self.hash160_preimages.same_map(&other.hash160_preimages)
            && self.hash256_preimages.same_map(&other.hash256_preimages)
            && same_option(&self.tap_key_sig, &other.tap_key_sig)
            && self.tap_script_sigs.same_map(&other.tap_script_sigs)
            && self.tap_scripts.same_map(&other.tap_scripts)
            && self.tap_key_origins.same_map(&other.tap_key_origins)
            && same_option(&self.tap_internal_key, &other.tap_internal_key)
            && same_option(&self.tap_merkle_root, &other.tap_merkle_root)
            && self.proprietaries.same_map(&other.proprietaries)
            && self.unknowns.same_map(&other.unknowns);
        proof {
            if r {
                assert(self@ == other@);
            }
        }
        r
    }

    fn copy_value(&self) -> (r: Self) {
        VinData {
            sequence: copy_option(&self.sequence),
            min_time: copy_option(&self.min_time),
            min_height: copy_option(&self.min_height),
            non_witness_utxo: copy_option(&self.non_witness_utxo),
            witness_utxo: copy_option(&self.witness_utxo),
            partial_sigs: self.partial_sigs.copy(),
            sighash_type: copy_option(&self.sighash_type),
            redeem_script: copy_option(&self.redeem_script),
            witness_script: copy_option(&self.witness_script),
            bip32_derivations: self.bip32_derivations.copy(),
            final_script_sig: copy_option(&self.final_script_sig),
            final_script_witness: copy_option(&self.final_script_witness),
            ripemd160_preimages: self.ripemd160_preimages.copy(),
            sha256_preimages: self.sha256_preimages.copy(),
            hash160_preimages: self.hash160_preimages.copy(),
            hash256_preimages: self.hash256_preimages.copy(),
            tap_key_sig: copy_option(&self.tap_key_sig),
            tap_script_sigs: self.tap_script_sigs.copy(),
            tap_scripts: self.tap_scripts.copy(),
            tap_key_origins: self.tap_key_origins.copy(),
            tap_internal_key: copy_option(&self.tap_internal_key),
            tap_merkle_root: copy_option(&self.tap_merkle_root),
            proprietaries: self.proprietaries.copy(),
            unknowns: self.unknowns.copy(),
        }
    }
}

impl Clone for VinData {
    fn clone(&self) -> (r: Self)
        ensures
            r@ == self@,
    {
        self.copy_value()
    }
}

/// A [`VinDataView`] that knows nothing: every field is unknown or empty.
pub open spec fn empty_vin_data() -> VinDataView {
    VinDataView {
        sequence: None,
        min_time: None,
        min_height: None,
        non_witness_utxo: None,
        witness_utxo: None,
        partial_sigs: Map::empty(),
        sighash_type: None,
        redeem_script: None,
        witness_script: None,
        bip32_derivations: Map::empty(),
        final_script_sig: None,
        final_script_witness: None,
        ripemd160_preimages: Map::empty(),
        sha256_preimages: Map::empty(),
        hash160_preimages: Map::empty(),
        hash256_preimages: Map::empty(),
        tap_key_sig: None,
        tap_script_sigs: Map::empty(),
        tap_scripts: Map::empty(),
        tap_key_origins: Map::empty(),
        tap_internal_key: None,
        tap_merkle_root: None,
        proprietaries: Map::empty(),
        unknowns: Map::empty(),
    }
}

impl Default for VinData {
    fn default() -> (r: Self)
        ensures
            r@ == empty_vin_data(),
    {
        VinData {
            sequence: None,
            min_time: None,
            min_height: None,
            non_witness_utxo: None,
            witness_utxo: None,
            partial_sigs: ByteMap::new(),
            sighash_type: None,
            redeem_script: None,
            witness_script: None,
            bip32_derivations: ByteMap::new(),
            final_script_sig: None,
            final_script_witness: None,
            ripemd160_preimages: ByteMap::new(),
            sha256_preimages: ByteMap::new(),
            hash160_preimages: ByteMap::new(),
            hash256_preimages: ByteMap::new(),
            tap_key_sig: None,
            tap_script_sigs: ByteMap::new(),
            tap_scripts: ByteMap::new(),
            tap_key_origins: ByteMap::new(),
            tap_internal_key: None,
            tap_merkle_root: None,
            proprietaries: ByteMap::new(),
            unknowns: ByteMap::new(),
        }
    }
}

/// Joining a [`VinData`] with itself gives it back.
pub proof fn lemma_vin_data_join_idempotent(a: VinDataView)
    ensures
        join_vin_data(a, a) == Ok::<VinDataView, JoinError>(a),
{
    lemma_join_opt_idempotent(a.sequence);
    lemma_join_opt_idempotent(a.min_time);
    lemma_join_opt_idempotent(a.min_height);
    lemma_join_opt_idempotent(a.non_witness_utxo);
    lemma_join_opt_idempotent(a.witness_utxo);
    lemma_join_map_idempotent(a.partial_sigs);
    lemma_join_opt_idempotent(a.sighash_type);
    lemma_join_opt_idempotent(a.redeem_script);
    lemma_join_opt_idempotent(a.witness_script);
    lemma_join_map_idempotent(a.bip32_derivations);
    lemma_join_opt_idempotent(a.final_script_sig);
    lemma_join_opt_idempotent(a.final_script_witness);
    lemma_join_map_idempotent(a.ripemd160_preimages);
    lemma_join_map_idempotent(a.sha256_preimages);
    lemma_join_map_idempotent(a.hash160_preimages);
    lemma_join_map_idempotent(a.hash256_preimages);
    lemma_join_opt_idempotent(a.tap_key_sig);
    lemma_join_map_idempotent(a.tap_script_sigs);
    lemma_join_map_idempotent(a.tap_scripts);
    lemma_join_map_idempotent(a.tap_key_origins);
    lemma_join_opt_idempotent(a.tap_internal_key);
    lemma_join_opt_idempotent(a.tap_merkle_root);
    lemma_join_map_idempotent(a.proprietaries);
    lemma_join_map_idempotent(a.unknowns);
}

/// The join of [`VinData`]s does not depend on the order of its arguments.
pub proof fn lemma_vin_data_join_commutative(a: VinDataView, b: VinDataView)
    ensures
        join_vin_data(a, b) == join_vin_data(b, a),
{
    lemma_join_opt_commutative(a.sequence, b.sequence);
    lemma_join_opt_commutative(a.min_time, b.min_time);
    lemma_join_opt_commutative(a.min_height, b.min_height);
    lemma_join_opt_commutative(a.non_witness_utxo, b.non_witness_utxo);
    lemma_join_opt_commutative(a.witness_utxo, b.witness_utxo);
    lemma_join_map_commutative(a.partial_sigs, b.partial_sigs);
    lemma_join_opt_commutative(a.sighash_type, b.sighash_type);
    lemma_join_opt_commutative(a.redeem_script, b.redeem_script);
    lemma_join_opt_commutative(a.witness_script, b.witness_script);
    lemma_join_map_commutative(a.bip32_derivations, b.bip32_derivations);
    lemma_join_opt_commutative(a.final_script_sig, b.final_script_sig);
    lemma_join_opt_commutative(a.final_script_witness, b.final_script_witness);
    lemma_join_map_commutative(a.ripemd160_preimages, b.ripemd160_preimages);
    lemma_join_map_commutative(a.sha256_preimages, b.sha256_preimages);
    lemma_join_map_commutative(a.hash160_preimages, b.hash160_preimages);
    lemma_join_map_commutative(a.hash256_preimages, b.hash256_preimages);
    lemma_join_opt_commutative(a.tap_key_sig, b.tap_key_sig);
    lemma_join_map_commutative(a.tap_script_sigs, b.tap_script_sigs);
    lemma_join_map_commutative(a.tap_scripts, b.tap_scripts);
    lemma_join_map_commutative(a.tap_key_origins, b.tap_key_origins);
    lemma_join_opt_commutative(a.tap_internal_key, b.tap_internal_key);
    lemma_join_opt_commutative(a.tap_merkle_root, b.tap_merkle_root);
    lemma_join_map_commutative(a.proprietaries, b.proprietaries);
    lemma_join_map_commutative(a.unknowns, b.unknowns);
}

/// The join of [`VinData`]s does not depend on how three of them are
/// grouped.
pub proof fn lemma_vin_data_join_associative(a: VinDataView, b: VinDataView, c: VinDataView)
    ensures
        and_then(join_vin_data(a, b), |ab: VinDataView| join_vin_data(ab, c))
            == and_then(join_vin_data(b, c), |bc: VinDataView| join_vin_data(a, bc)),
{
    lemma_vin_data_join_commutative(a, b);
    lemma_vin_data_join_commutative(b, c);
    if let Ok(ab) = join_vin_data(a, b) {
        lemma_vin_data_join_commutative(ab, c);
        if join_vin_data(ab, c) is Ok {
            lemma_vin_data_join_regroup(a, b, c);
        }
    }
    if let Ok(bc) = join_vin_data(b, c) {
        lemma_vin_data_join_commutative(a, bc);
        if join_vin_data(a, bc) is Ok {
            lemma_vin_data_join_regroup(c, b, a);
        }
    }
}

/// When `a` joins with `b` and the result with `c`, `b` joins with `c`, `a`
/// with the result, and the two results are equal.
#[verifier::spinoff_prover]
proof fn lemma_vin_data_join_regroup(a: VinDataView, b: VinDataView, c: VinDataView)
    requires
        join_vin_data(a, b) is Ok,
        join_vin_data(join_vin_data(a, b)->Ok_0, c) is Ok,
    ensures
        join_vin_data(b, c) is Ok,
        join_vin_data(a, join_vin_data(b, c)->Ok_0) == join_vin_data(join_vin_data(a, b)->Ok_0, c),
{
    lemma_join_opt_associative(a.sequence, b.sequence, c.sequence);
    lemma_join_opt_associative(a.min_time, b.min_time, c.min_time);
    lemma_join_opt_associative(a.min_height, b.min_height, c.min_height);
    lemma_join_opt_associative(a.non_witness_utxo, b.non_witness_utxo, c.non_witness_utxo);
    lemma_join_opt_associative(a.witness_utxo, b.witness_utxo, c.witness_utxo);
    lemma_join_map_associative(a.partial_sigs, b.partial_sigs, c.partial_sigs);
    lemma_join_opt_associative(a.sighash_type, b.sighash_type, c.sighash_type);
    lemma_join_opt_associative(a.redeem_script, b.redeem_script, c.redeem_script);
    lemma_join_opt_associative(a.witness_script, b.witness_script, c.witness_script);
    lemma_join_map_associative(a.bip32_derivations, b.bip32_derivations, c.bip32_derivations);
    lemma_join_opt_associative(a.final_script_sig, b.final_script_sig, c.final_script_sig);
    lemma_join_opt_associative(a.final_script_witness, b.final_script_witness, c.final_script_witness);
    lemma_join_map_associative(a.ripemd160_preimages, b.ripemd160_preimages, c.ripemd160_preimages);
    lemma_join_map_associative(a.sha256_preimages, b.sha256_preimages, c.sha256_preimages);
    lemma_join_map_associative(a.hash160_preimages, b.hash160_preimages, c.hash160_preimages);
    lemma_join_map_associative(a.hash256_preimages, b.hash256_preimages, c.hash256_preimages);
    lemma_join_opt_associative(a.tap_key_sig, b.tap_key_sig, c.tap_key_sig);
    lemma_join_map_associative(a.tap_script_sigs, b.tap_script_sigs, c.tap_script_sigs);
    lemma_join_map_associative(a.tap_scripts, b.tap_scripts, c.tap_scripts);
    lemma_join_map_associative(a.tap_key_origins, b.tap_key_origins, c.tap_key_origins);
    lemma_join_opt_associative(a.tap_internal_key, b.tap_internal_key, c.tap_internal_key);
    lemma_join_opt_associative(a.tap_merkle_root, b.tap_merkle_root, c.tap_merkle_root);
    lemma_join_map_associative(a.proprietaries, b.proprietaries, c.proprietaries);
    lemma_join_map_associative(a.unknowns, b.unknowns, c.unknowns);
}

/// The information order on [`VinDataView`]s: every known field of `a` is known
/// with the same value in `b`, and every map of `a` is part of that of `b`.
pub open spec fn vin_data_le(a: VinDataView, b: VinDataView) -> bool {
    &&& opt_le(a.sequence, b.sequence)
    &&& opt_le(a.min_time, b.min_time)
    &&& opt_le(a.min_height, b.min_height)
    &&& opt_le(a.non_witness_utxo, b.non_witness_utxo)
    &&& opt_le(a.witness_utxo, b.witness_utxo)
    &&& a.partial_sigs.submap_of(b.partial_sigs)
    &&& opt_le(a.sighash_type, b.sighash_type)
    &&& opt_le(a.redeem_script, b.redeem_script)
    &&& opt_le(a.witness_script, b.witness_script)
    &&& a.bip32_derivations.submap_of(b.bip32_derivations)
    &&& opt_le(a.final_script_sig, b.final_script_sig)
    &&& opt_le(a.final_script_witness, b.final_script_witness)
    &&& a.ripemd160_preimages.submap_of(b.ripemd160_preimages)
    &&& a.sha256_preimages.submap_of(b.sha256_preimages)
    &&& a.hash160_preimages.submap_of(b.hash160_preimages)
    &&& a.hash256_preimages.submap_of(b.hash256_preimages)
    &&& opt_le(a.tap_key_sig, b.tap_key_sig)
    &&& a.tap_script_sigs.submap_of(b.tap_script_sigs)
    &&& a.tap_scripts.submap_of(b.tap_scripts)
    &&& a.tap_key_origins.submap_of(b.tap_key_origins)
    &&& opt_le(a.tap_internal_key, b.tap_internal_key)
    &&& opt_le(a.tap_merkle_root, b.tap_merkle_root)
    &&& a.proprietaries.submap_of(b.proprietaries)
    &&& a.unknowns.submap_of(b.unknowns)
}

/// The join of two [`VinData`]s is above both in the information order.
pub proof fn lemma_vin_data_join_upper_bound(a: VinDataView, b: VinDataView)
    ensures
        join_vin_data(a, b) is Ok ==> vin_data_le(a, join_vin_data(a, b)->Ok_0) && vin_data_le(
            b,
            join_vin_data(a, b)->Ok_0,
        ),
{
    lemma_join_opt_upper_bound(a.sequence, b.sequence);
    lemma_join_opt_upper_bound(a.min_time, b.min_time);
    lemma_join_opt_upper_bound(a.min_height, b.min_height);
    lemma_join_opt_upper_bound(a.non_witness_utxo, b.non_witness_utxo);
    lemma_join_opt_upper_bound(a.witness_utxo, b.witness_utxo);
    lemma_join_map_upper_bound(a.partial_sigs, b.partial_sigs);
    lemma_join_opt_upper_bound(a.sighash_type, b.sighash_type);
    lemma_join_opt_upper_bound(a.redeem_script, b.redeem_script);
    lemma_join_opt_upper_bound(a.witness_script, b.witness_script);
    lemma_join_map_upper_bound(a.bip32_derivations, b.bip32_derivations);
    lemma_join_opt_upper_bound(a.final_script_sig, b.final_script_sig);
    lemma_join_opt_upper_bound(a.final_script_witness, b.final_script_witness);
    lemma_join_map_upper_bound(a.ripemd160_preimages, b.ripemd160_preimages);
    lemma_join_map_upper_bound(a.sha256_preimages, b.sha256_preimages);
    lemma_join_map_upper_bound(a.hash160_preimages, b.hash160_preimages);
    lemma_join_map_upper_bound(a.hash256_preimages, b.hash256_preimages);
    lemma_join_opt_upper_bound(a.tap_key_sig, b.tap_key_sig);
    lemma_join_map_upper_bound(a.tap_script_sigs, b.tap_script_sigs);
    lemma_join_map_upper_bound(a.tap_scripts, b.tap_scripts);
    lemma_join_map_upper_bound(a.tap_key_origins, b.tap_key_origins);
    lemma_join_opt_upper_bound(a.tap_internal_key, b.tap_internal_key);
    lemma_join_opt_upper_bound(a.tap_merkle_root, b.tap_merkle_root);
    lemma_join_map_upper_bound(a.proprietaries, b.proprietaries);
    lemma_join_map_upper_bound(a.unknowns, b.unknowns);
}

/// Whatever is above two [`VinData`]s is above their join, which then exists:
/// the join is their least upper bound.
pub proof fn lemma_vin_data_join_least(a: VinDataView, b: VinDataView, c: VinDataView)
    requires
        vin_data_le(a, c),
        vin_data_le(b, c),
    ensures
        join_vin_data(a, b) is Ok,
        vin_data_le(join_vin_data(a, b)->Ok_0, c),
{
    lemma_join_opt_least(a.sequence, b.sequence, c.sequence);
    lemma_join_opt_least(a.min_time, b.min_time, c.min_time);
    lemma_join_opt_least(a.min_height, b.min_height, c.min_height);
    lemma_join_opt_least(a.non_witness_utxo, b.non_witness_utxo, c.non_witness_utxo);
    lemma_join_opt_least(a.witness_utxo, b.witness_utxo, c.witness_utxo);
    lemma_join_map_least(a.partial_sigs, b.partial_sigs, c.partial_sigs);
    lemma_join_opt_least(a.sighash_type, b.sighash_type, c.sighash_type);
    lemma_join_opt_least(a.redeem_script, b.redeem_script, c.redeem_script);
    lemma_join_opt_least(a.witness_script, b.witness_script, c.witness_script);
    lemma_join_map_least(a.bip32_derivations, b.bip32_derivations, c.bip32_derivations);
    lemma_join_opt_least(a.final_script_sig, b.final_script_sig, c.final_script_sig);
    lemma_join_opt_least(a.final_script_witness, b.final_script_witness, c.final_script_witness);
    lemma_join_map_least(a.ripemd160_preimages, b.ripemd160_preimages, c.ripemd160_preimages);
    lemma_join_map_least(a.sha256_preimages, b.sha256_preimages, c.sha256_preimages);
    lemma_join_map_least(a.hash160_preimages, b.hash160_preimages, c.hash160_preimages);
    lemma_join_map_least(a.hash256_preimages, b.hash256_preimages, c.hash256_preimages);
    lemma_join_opt_least(a.tap_key_sig, b.tap_key_sig, c.tap_key_sig);
    lemma_join_map_least(a.tap_script_sigs, b.tap_script_sigs, c.tap_script_sigs);
    lemma_join_map_least(a.tap_scripts, b.tap_scripts, c.tap_scripts);
    lemma_join_map_least(a.tap_key_origins, b.tap_key_origins, c.tap_key_origins);
    lemma_join_opt_least(a.tap_internal_key, b.tap_internal_key, c.tap_internal_key);
    lemma_join_opt_least(a.tap_merkle_root, b.tap_merkle_root, c.tap_merkle_root);
    lemma_join_map_least(a.proprietaries, b.proprietaries, c.proprietaries);
    lemma_join_map_least(a.unknowns, b.unknowns, c.unknowns);
}


/// A PSBT input whose outpoint (previous tx + vout) may not yet be known.
#[derive(Debug, PartialEq, Eq, Hash)]
pub struct PartialVin {
    /// The txid of the previous transaction output being spent, if known.
    pub previous_output: Option<Vec<u8>>,
    /// The index of the output being spent, if known.
    pub spent_output_index: Option<u32>,
    /// The other fields of the input.
    pub data: VinData,
}

/// What a [`PartialVin`] holds, as mathematical values.
pub struct PartialVinView {
    pub previous_output: Option<Seq<u8>>,
    pub spent_output_index: Option<u32>,
    pub data: VinDataView,
}

impl View for PartialVin {
    type V = PartialVinView;

    open spec fn view(&self) -> PartialVinView {
        PartialVinView {
            previous_output: opt_view(self.previous_output),
            spent_output_index: opt_view(self.spent_output_index),
            data: self.data@,
        }
    }
}

/// The join of two partial inputs: txid, index and the other fields join;
/// if one fails, the join fails with a scalar disagreement.
pub open spec fn join_partial_vin(a: PartialVinView, b: PartialVinView) -> Result<
    PartialVinView,
    JoinError,
> {
    let previous_output = join_opt(a.previous_output, b.previous_output);
    let spent_output_index = join_opt(a.spent_output_index, b.spent_output_index);
    let data = join_vin_data(a.data, b.data);
    if previous_output is Err {
        Err(JoinError::ScalarDisagree)
    } else if spent_output_index is Err {
        Err(JoinError::ScalarDisagree)
    } else if data is Err {
        Err(JoinError::ScalarDisagree)
    } else {
        Ok(
            PartialVinView {
                previous_output: previous_output->Ok_0,
                spent_output_index: spent_output_index->Ok_0,
                data: data->Ok_0,
            },
        )
    }
}

impl std::ops::Deref for PartialVin {
    type Target = VinData;

    fn deref(&self) -> (r: &VinData)
        ensures
            r == &self.data,
    {
        &self.data
    }
}

impl Join for PartialVin {
    fn join(&self, other: &Self) -> (r: Result<Self, JoinError>)
        ensures
            r matches Ok(v) ==> join_partial_vin(self@, other@) == Ok::<PartialVinView, JoinError>(v@),
            r matches Err(e) ==> join_partial_vin(self@, other@) == Err::<PartialVinView, JoinError>(e),
    {
        let previous_output = join_option(&self.previous_output, &other.previous_output)?;
        let spent_output_index = join_option(&self.spent_output_index, &other.spent_output_index)?;
        let data = self.data.join(&other.data)?;
        Ok(PartialVin { previous_output, spent_output_index, data })
    }
}

impl IdempotentValue for PartialVin {
    fn same_value(&self, other: &Self) -> (r: bool) {
        let r = same_option(&self.previous_output, &other.previous_output) && same_option(
            &self.spent_output_index,
            &other.spent_output_index,
        ) && self.data.same_value(&other.data);
        proof {
            if r {
                assert(self@ == other@);
            }
        }
        r
    }

    fn copy_value(&self) -> (r: Self) {
        PartialVin {
            previous_output: copy_option(&self.previous_output),
            spent_output_index: copy_option(&self.spent_output_index),
            data: self.data.copy_value(),
        }
    }
}

impl Clone for PartialVin {
    fn clone(&self) -> (r: Self)
        ensures
            r@ == self@,
    {
        self.copy_value()
    }
}

impl Default for PartialVin {
    fn default() -> (r: Self)
        ensures
            r@ == (PartialVinView {
                previous_output: None,
                spent_output_index: None,
                data: empty_vin_data(),
            }),
    {
        PartialVin { previous_output: None, spent_output_index: None, data: VinData::default() }
    }
}

/// A PSBT input with a known outpoint.
#[derive(Debug, PartialEq, Eq, Hash)]
pub struct Vin {
    /// The txid of the previous transaction output being spent.
    pub previous_output: Vec<u8>,
    /// The index of the output being spent.
    pub spent_output_index: u32,
    /// The other fields of the input.
    pub data: VinData,
}

/// What a [`Vin`] holds, as mathematical values.
pub struct VinView {
    pub previous_output: Seq<u8>,
    pub spent_output_index: u32,
    pub data: VinDataView,
}

impl View for Vin {
    type V = VinView;

    open spec fn view(&self) -> VinView {
        VinView {
            previous_output: self.previous_output@,
            spent_output_index: self.spent_output_index,
            data: self.data@,
        }
    }
}

/// The join of two inputs with known outpoints: the outpoints must agree,
/// and the other fields join.
pub open spec fn join_vin(a: VinView, b: VinView) -> Result<VinView, JoinError> {
    if a.previous_output != b.previous_output || a.spent_output_index != b.spent_output_index {
        Err(JoinError::ScalarDisagree)
    } else {
        match join_vin_data(a.data, b.data) {
            Ok(data) => Ok(
                VinView {
                    previous_output: a.previous_output,
                    spent_output_index: a.spent_output_index,
                    data,
                },
            ),
            Err(e) => Err(e),
        }
    }
}

/// The partial input that an input with a known outpoint stands for.
pub open spec fn partial_of_vin(v: VinView) -> PartialVinView {
    PartialVinView {
        previous_output: Some(v.previous_output),
        spent_output_index: Some(v.spent_output_index),
        data: v.data,
    }
}

/// The input that a partial input stands for, once its outpoint is known.
pub open spec fn complete_vin(p: PartialVinView) -> Result<VinView, VinConversionError> {
    match (p.previous_output, p.spent_output_index) {
        (None, _) => Err(VinConversionError::MissingTxid),
        (Some(_), None) => Err(VinConversionError::MissingVout),
        (Some(previous_output), Some(spent_output_index)) => Ok(
            VinView { previous_output, spent_output_index, data: p.data },
        ),
    }
}

impl std::ops::Deref for Vin {
    type Target = VinData;

    fn deref(&self) -> (r: &VinData)
        ensures
            r == &self.data,
    {
        &self.data
    }
}

impl Vin {
    /// The input that spends the outpoint of a transaction input, with no
    /// other field known.
    pub fn from_input(input: &TxIn) -> (r: Self)
        ensures
            r@ == (VinView {
                previous_output: input.previous_output.txid@,
                spent_output_index: input.previous_output.vout,
                data: empty_vin_data(),
            }),
    {
        Vin {
            previous_output: bytes_copy(&input.previous_output.txid),
            spent_output_index: input.previous_output.vout,
            data: VinData::default(),
        }
    }
}


impl Join for Vin {
    fn join(&self, other: &Self) -> (r: Result<Self, JoinError>)
        ensures
            r matches Ok(v) ==> join_vin(self@, other@) == Ok::<VinView, JoinError>(v@),
            r matches Err(e) ==> join_vin(self@, other@) == Err::<VinView, JoinError>(e),
    {
        if !self.previous_output.same_value(&other.previous_output)
            || self.spent_output_index != other.spent_output_index {
            return Err(JoinError::ScalarDisagree);
        }
        let data = self.data.join(&other.data)?;
        Ok(
            Vin {
                previous_output: bytes_copy(&self.previous_output),
                spent_output_index: self.spent_output_index,
                data,
            },
        )
    }
}

impl IdempotentValue for Vin {
    fn same_value(&self, other: &Self) -> (r: bool) {
        let r = self.previous_output.same_value(&other.previous_output)
            && self.spent_output_index == other.spent_output_index && self.data.same_value(
            &other.data,
        );
        proof {
            if r {
                assert(self@ == other@);
            }
        }
        r
    }

    fn copy_value(&self) -> (r: Self) {
        Vin {
            previous_output: bytes_copy(&self.previous_output),
            spent_output_index: self.spent_output_index,
            data: self.data.copy_value(),
        }
    }
}

impl Clone for Vin {
    fn clone(&self) -> (r: Self)
        ensures
            r@ == self@,
    {
        self.copy_value()
    }
}

/// Why a partial input does not yet have a known outpoint.
#[derive(Debug, Clone, Copy, PartialEq, Eq, Structural)]
pub enum VinConversionError {
    /// The txid of the spent output is unknown.
    MissingTxid,
    /// The index of the spent output is unknown.
    MissingVout,
}

/// Joining a partial input with itself gives it back.
pub proof fn lemma_partial_vin_join_idempotent(a: PartialVinView)
    ensures
        join_partial_vin(a, a) == Ok::<PartialVinView, JoinError>(a),
{
    lemma_join_opt_idempotent(a.previous_output);
    lemma_join_opt_idempotent(a.spent_output_index);
    lemma_vin_data_join_idempotent(a.data);
}

/// The join of partial inputs does not depend on the order of its arguments.
pub proof fn lemma_partial_vin_join_commutative(a: PartialVinView, b: PartialVinView)
    ensures
        join_partial_vin(a, b) == join_partial_vin(b, a),
{
    lemma_join_opt_commutative(a.previous_output, b.previous_output);
    lemma_join_opt_commutative(a.spent_output_index, b.spent_output_index);
    lemma_vin_data_join_commutative(a.data, b.data);
}

/// The join of partial inputs does not depend on how three of them are grouped.
pub proof fn lemma_partial_vin_join_associative(a: PartialVinView, b: PartialVinView, c: PartialVinView)
    ensures
        and_then(join_partial_vin(a, b), |ab: PartialVinView| join_partial_vin(ab, c))
            == and_then(join_partial_vin(b, c), |bc: PartialVinView| join_partial_vin(a, bc)),
{
    lemma_join_opt_associative(a.previous_output, b.previous_output, c.previous_output);
    lemma_join_opt_associative(a.spent_output_index, b.spent_output_index, c.spent_output_index);
    lemma_vin_data_join_associative(a.data, b.data, c.data);
}

/// Joining an input with itself gives it back.
pub proof fn lemma_vin_join_idempotent(a: VinView)
    ensures
        join_vin(a, a) == Ok::<VinView, JoinError>(a),
{
    lemma_vin_data_join_idempotent(a.data);
}

/// The join of inputs does not depend on the order of its arguments.
pub proof fn lemma_vin_join_commutative(a: VinView, b: VinView)
    ensures
        join_vin(a, b) == join_vin(b, a),
{
    lemma_vin_data_join_commutative(a.data, b.data);
}

/// The join of inputs does not depend on how three of them are grouped.
pub proof fn lemma_vin_join_associative(a: VinView, b: VinView, c: VinView)
    ensures
        and_then(join_vin(a, b), |ab: VinView| join_vin(ab, c))
            == and_then(join_vin(b, c), |bc: VinView| join_vin(a, bc)),
{
    lemma_vin_data_join_associative(a.data, b.data, c.data);
}

/// An input converts to a partial one and back unchanged.
pub proof fn lemma_vin_round_trip(v: VinView)
    ensures
        complete_vin(partial_of_vin(v)) == Ok::<VinView, VinConversionError>(v),
{
}

/// A partial input that converts to a complete one is what that input
/// stands for.
pub proof fn lemma_partial_vin_round_trip(p: PartialVinView)
    ensures
        complete_vin(p) is Ok ==> partial_of_vin(complete_vin(p)->Ok_0) == p,
{
}

/// Joining inputs gives what joining the partial inputs they stand for
/// gives.
pub proof fn lemma_vin_join_agrees_with_partial(a: VinView, b: VinView)
    ensures
        join_partial_vin(partial_of_vin(a), partial_of_vin(b)) == (match join_vin(a, b) {
            Ok(j) => Ok(partial_of_vin(j)),
            Err(e) => Err(e),
        }),
{
}


/// The information order on partial inputs: known outpoint fields
/// stay known with the same value, and the other fields grow.
pub open spec fn partial_vin_le(a: PartialVinView, b: PartialVinView) -> bool {
    &&& opt_le(a.previous_output, b.previous_output)
    &&& opt_le(a.spent_output_index, b.spent_output_index)
    &&& vin_data_le(a.data, b.data)
}

/// The join of two partial inputs is above both.
pub proof fn lemma_partial_vin_join_upper_bound(a: PartialVinView, b: PartialVinView)
    ensures
        join_partial_vin(a, b) is Ok ==> partial_vin_le(a, join_partial_vin(a, b)->Ok_0) && partial_vin_le(
            b,
            join_partial_vin(a, b)->Ok_0,
        ),
{
    lemma_join_opt_upper_bound(a.previous_output, b.previous_output);
    lemma_join_opt_upper_bound(a.spent_output_index, b.spent_output_index);
    lemma_vin_data_join_upper_bound(a.data, b.data);
}

/// Whatever is above two partial inputs is above their join, which then
/// exists.
pub proof fn lemma_partial_vin_join_least(a: PartialVinView, b: PartialVinView, c: PartialVinView)
    requires
        partial_vin_le(a, c),
        partial_vin_le(b, c),
    ensures
        join_partial_vin(a, b) is Ok,
        partial_vin_le(join_partial_vin(a, b)->Ok_0, c),
{
    lemma_join_opt_least(a.previous_output, b.previous_output, c.previous_output);
    lemma_join_opt_least(a.spent_output_index, b.spent_output_index, c.spent_output_index);
    lemma_vin_data_join_least(a.data, b.data, c.data);
}

/// The information order on complete inputs: the same outpoint, and the other
/// fields grow.
pub open spec fn vin_le(a: VinView, b: VinView) -> bool {
    &&& a.previous_output == b.previous_output
    &&& a.spent_output_index == b.spent_output_index
    &&& vin_data_le(a.data, b.data)
}

/// The join of two complete inputs is above both.
pub proof fn lemma_vin_join_upper_bound(a: VinView, b: VinView)
    ensures
        join_vin(a, b) is Ok ==> vin_le(a, join_vin(a, b)->Ok_0) && vin_le(
            b,
            join_vin(a, b)->Ok_0,
        ),
{
    lemma_vin_data_join_upper_bound(a.data, b.data);
}

/// Whatever is above two complete inputs is above their join, which then
/// exists.
pub proof fn lemma_vin_join_least(a: VinView, b: VinView, c: VinView)
    requires
        vin_le(a, c),
        vin_le(b, c),
    ensures
        join_vin(a, b) is Ok,
        vin_le(join_vin(a, b)->Ok_0, c),
{
    lemma_vin_data_join_least(a.data, b.data, c.data);
}

} // verus!
