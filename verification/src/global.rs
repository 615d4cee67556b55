//! The global map of a PSBT: versions, lock time, modifiable flags, counts
//! and the global key-value records.
use vstd::prelude::*;

use crate::byte_map::{join_map, lemma_join_map_associative, lemma_join_map_commutative,
    lemma_join_map_idempotent, lemma_join_map_least, lemma_join_map_upper_bound, ByteMap};
use crate::partial_join::PartialJoin;
use crate::values::{and_then, copy_option, join_opt, join_option, join_scalar, join_value,
    lemma_join_opt_associative, lemma_join_opt_commutative, lemma_join_opt_idempotent,
    lemma_join_opt_least, lemma_join_opt_upper_bound, lemma_join_value_associative,
    lemma_join_value_commutative, lemma_join_value_idempotent, opt_le, opt_view, ValueError};
use crate::Join;

verus! {

/// The global fields of a version 2 PSBT.
#[derive(Debug, PartialEq, Eq, Hash)]
pub struct Global {
    /// The version number of this PSBT.
    pub version: u32,
    /// The version number of the transaction being built.
    pub tx_version: i32,
    /// The transaction locktime to use if no inputs specify a required locktime.
    pub fallback_lock_time: Option<u32>,
    /// A bitfield for various transaction modification flags.
    pub tx_modifiable_flags: u8,
    /// The number of inputs in this PSBT.
    pub input_count: usize,
    /// The number of outputs in this PSBT.
    pub output_count: usize,
    /// A map from xpub to the used key fingerprint and derivation path, serialized.
    pub xpubs: ByteMap,
    /// Global proprietary key-value pairs.
    pub proprietaries: ByteMap,
    /// Unknown global key-value pairs.
    pub unknowns: ByteMap,
}

/// What a [`Global`] holds, as mathematical values.
pub struct GlobalView {
    pub version: u32,
    pub tx_version: i32,
    pub fallback_lock_time: Option<u32>,
    pub tx_modifiable_flags: u8,
    pub input_count: usize,
    pub output_count: usize,
    pub xpubs: Map<Seq<u8>, Seq<u8>>,
    pub proprietaries: Map<Seq<u8>, Seq<u8>>,
    pub unknowns: Map<Seq<u8>, Seq<u8>>,
}

impl View for Global {
    type V = GlobalView;

    open spec fn view(&self) -> GlobalView {
        GlobalView {
            version: self.version,
            tx_version: self.tx_version,
            fallback_lock_time: opt_view(self.fallback_lock_time),
            tx_modifiable_flags: self.tx_modifiable_flags,
            input_count: self.input_count,
            output_count: self.output_count,
            xpubs: self.xpubs@,
            proprietaries: self.proprietaries@,
            unknowns: self.unknowns@,
        }
    }
}

/// The global fields of a PSBT that has learned nothing yet: version 2 of
/// the PSBT and of the transaction, no lock time, no flags, no entries.
pub open spec fn default_global() -> GlobalView {
    GlobalView {
        version: 2,
        tx_version: 2,
        fallback_lock_time: None,
        tx_modifiable_flags: 0,
        input_count: 0,
        output_count: 0,
        xpubs: Map::empty(),
        proprietaries: Map::empty(),
        unknowns: Map::empty(),
    }
}

/// The larger of two counts: the join of counts that only grow.
pub open spec fn max_count(a: usize, b: usize) -> usize {
    if a < b {
        b
    } else {
        a
    }
}

/// The join of two global maps: the versions and flags must be equal, the
/// lock times and the maps must agree, and each count is the larger of the
/// two.
pub open spec fn join_global(a: GlobalView, b: GlobalView) -> Result<GlobalView, ValueError> {
    let version = join_value(a.version, b.version);
    let tx_version = join_value(a.tx_version, b.tx_version);
    let fallback_lock_time = join_opt(a.fallback_lock_time, b.fallback_lock_time);
    let xpubs = join_map(a.xpubs, b.xpubs);
    let proprietaries = join_map(a.proprietaries, b.proprietaries);
    let unknowns = join_map(a.unknowns, b.unknowns);
    let tx_modifiable_flags = join_value(a.tx_modifiable_flags, b.tx_modifiable_flags);
    if version is Ok && tx_version is Ok && fallback_lock_time is Ok && xpubs is Ok
        && proprietaries is Ok && unknowns is Ok && tx_modifiable_flags is Ok {
        Ok(
            GlobalView {
                version: version->Ok_0,
                tx_version: tx_version->Ok_0,
                fallback_lock_time: fallback_lock_time->Ok_0,
                tx_modifiable_flags: tx_modifiable_flags->Ok_0,
                input_count: max_count(a.input_count, b.input_count),
                output_count: max_count(a.output_count, b.output_count),
                xpubs: xpubs->Ok_0,
                proprietaries: proprietaries->Ok_0,
                unknowns: unknowns->Ok_0,
            },
        )
    } else {
        Err(ValueError::Conflict)
    }
}

impl Global {
    /// A copy of the global fields.
    pub fn copy(&self) -> (r: Self)
        ensures
            r@ == self@,
    {
        Global {
            version: self.version,
            tx_version: self.tx_version,
            fallback_lock_time: copy_option(&self.fallback_lock_time),
            tx_modifiable_flags: self.tx_modifiable_flags,
            input_count: self.input_count,
            output_count: self.output_count,
            xpubs: self.xpubs.copy(),
            proprietaries: self.proprietaries.copy(),
            unknowns: self.unknowns.copy(),
        }
    }
}

impl Clone for Global {
    fn clone(&self) -> (r: Self)
        ensures
            r@ == self@,
    {
        self.copy()
    }
}

impl Default for Global {
    fn default() -> (r: Self)
        ensures
            r@ == default_global(),
    {
        Global {
            version: 2,
            tx_version: 2,
            fallback_lock_time: None,
            tx_modifiable_flags: 0,
            input_count: 0,
            output_count: 0,
            xpubs: ByteMap::new(),
            proprietaries: ByteMap::new(),
            unknowns: ByteMap::new(),
        }
    }
}

impl PartialJoin for Global {
    type Error = ValueError;

    fn join(&self, other: &Self) -> (r: Result<Self, ValueError>)
        ensures
            r matches Ok(g) ==> join_global(self@, other@) == Ok::<GlobalView, ValueError>(g@),
            r matches Err(e) ==> join_global(self@, other@) == Err::<GlobalView, ValueError>(e),
    {
        let version = join_scalar(&self.version, &other.version)?;
        let tx_version = join_scalar(&self.tx_version, &other.tx_version)?;
        let fallback_lock_time = match join_option(
            &self.fallback_lock_time,
            &other.fallback_lock_time,
        ) {
            Ok(t) => t,
            Err(_) => return Err(ValueError::Conflict),
        };
        let xpubs = match Join::join(&self.xpubs, &other.xpubs) {
            Ok(m) => m,
            Err(_) => return Err(ValueError::Conflict),
        };
        let proprietaries = match Join::join(&self.proprietaries, &other.proprietaries) {
            Ok(m) => m,
            Err(_) => return Err(ValueError::Conflict),
        };
        let unknowns = match Join::join(&self.unknowns, &other.unknowns) {
            Ok(m) => m,
            Err(_) => return Err(ValueError::Conflict),
        };
        let tx_modifiable_flags = join_scalar(&self.tx_modifiable_flags, &other.tx_modifiable_flags)?;
        Ok(
            Global {
                version,
                tx_version,
                fallback_lock_time,
                tx_modifiable_flags,
                input_count: if self.input_count < other.input_count {
                    other.input_count
                } else {
                    self.input_count
                },
                output_count: if self.output_count < other.output_count {
                    other.output_count
                } else {
                    self.output_count
                },
                xpubs,
                proprietaries,
                unknowns,
            },
        )
    }
}

/// Joining global fields with themselves gives them back.
pub proof fn lemma_global_join_idempotent(a: GlobalView)
    ensures
        join_global(a, a) == Ok::<GlobalView, ValueError>(a),
{
    lemma_join_value_idempotent(a.version);
    lemma_join_value_idempotent(a.tx_version);
    lemma_join_opt_idempotent(a.fallback_lock_time);
    lemma_join_map_idempotent(a.xpubs);
    lemma_join_map_idempotent(a.proprietaries);
    lemma_join_map_idempotent(a.unknowns);
    lemma_join_value_idempotent(a.tx_modifiable_flags);
}

/// The join of global fields does not depend on the order of its arguments.
pub proof fn lemma_global_join_commutative(a: GlobalView, b: GlobalView)
    ensures
        join_global(a, b) == join_global(b, a),
{
    lemma_join_value_commutative(a.version, b.version);
    lemma_join_value_commutative(a.tx_version, b.tx_version);
    lemma_join_opt_commutative(a.fallback_lock_time, b.fallback_lock_time);
    lemma_join_map_commutative(a.xpubs, b.xpubs);
    lemma_join_map_commutative(a.proprietaries, b.proprietaries);
    lemma_join_map_commutative(a.unknowns, b.unknowns);
    lemma_join_value_commutative(a.tx_modifiable_flags, b.tx_modifiable_flags);
}

/// The join of global fields does not depend on how three of them are
/// grouped.
pub proof fn lemma_global_join_associative(a: GlobalView, b: GlobalView, c: GlobalView)
    ensures
        and_then(join_global(a, b), |ab: GlobalView| join_global(ab, c)) == and_then(
            join_global(b, c),
            |bc: GlobalView| join_global(a, bc),
        ),
{
    lemma_join_value_associative(a.version, b.version, c.version);
    lemma_join_value_associative(a.tx_version, b.tx_version, c.tx_version);
    lemma_join_opt_associative(a.fallback_lock_time, b.fallback_lock_time, c.fallback_lock_time);
    lemma_join_map_associative(a.xpubs, b.xpubs, c.xpubs);
    lemma_join_map_associative(a.proprietaries, b.proprietaries, c.proprietaries);
    lemma_join_map_associative(a.unknowns, b.unknowns, c.unknowns);
    lemma_join_value_associative(a.tx_modifiable_flags, b.tx_modifiable_flags, c.tx_modifiable_flags);
}

/// The information order on global fields: the same versions and flags, a
/// known lock time stays known, the maps and the counts grow.
pub open spec fn global_le(a: GlobalView, b: GlobalView) -> bool {
    &&& a.input_count <= b.input_count
    &&& a.output_count <= b.output_count
    &&& a.version == b.version
    &&& a.tx_version == b.tx_version
    &&& a.tx_modifiable_flags == b.tx_modifiable_flags
    &&& opt_le(a.fallback_lock_time, b.fallback_lock_time)
    &&& a.xpubs.submap_of(b.xpubs)
    &&& a.proprietaries.submap_of(b.proprietaries)
    &&& a.unknowns.submap_of(b.unknowns)
}

/// The join of global fields is above both.
pub proof fn lemma_global_join_upper_bound(a: GlobalView, b: GlobalView)
    ensures
        join_global(a, b) is Ok ==> global_le(a, join_global(a, b)->Ok_0) && global_le(
            b,
            join_global(a, b)->Ok_0,
        ),
{
    lemma_join_opt_upper_bound(a.fallback_lock_time, b.fallback_lock_time);
    lemma_join_map_upper_bound(a.xpubs, b.xpubs);
    lemma_join_map_upper_bound(a.proprietaries, b.proprietaries);
    lemma_join_map_upper_bound(a.unknowns, b.unknowns);
}

/// Whatever is above two global maps is above their join, which then exists.
pub proof fn lemma_global_join_least(a: GlobalView, b: GlobalView, c: GlobalView)
    requires
        global_le(a, c),
        global_le(b, c),
    ensures
        join_global(a, b) is Ok,
        global_le(join_global(a, b)->Ok_0, c),
{
    lemma_join_opt_least(a.fallback_lock_time, b.fallback_lock_time, c.fallback_lock_time);
    lemma_join_map_least(a.xpubs, b.xpubs, c.xpubs);
    lemma_join_map_least(a.proprietaries, b.proprietaries, c.proprietaries);
    lemma_join_map_least(a.unknowns, b.unknowns, c.unknowns);
}

} // verus!
