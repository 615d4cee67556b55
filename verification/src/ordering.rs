//! Fixing the order of inputs and outputs: the BIP-69 sort by outpoint (the
//! txid compared as displayed, its bytes reversed) and by amount and script,
//! or a shuffle seeded with a salt.
use vstd::prelude::*;

use crate::bytes::{bytes_compare, bytes_lt, bytes_reverse, bytes_reversed, lemma_bytes_lt_total, lemma_bytes_lt_transitive,
    lemma_bytes_lt_irreflexive, Order};
use crate::canonical::{
    lemma_part_strict_total, lemma_parts_strict_total, lemma_vin_parts_injective,
    lemma_vout_parts_injective, lex_compare, lex_lt, part_lt, part_lt_fn, parts_lt, vin_fields,
    vin_listable, vin_parts, vout_fields, vout_listable, vout_parts, Part,
};
use crate::input::{PartialVin, PartialVinView};
use crate::output::{PartialVout, PartialVoutView};
use crate::values::{opt_view, views, IdempotentValue};
use vstd::multiset::Multiset;

verus! {

/// A type whose values are put in order by a total preorder on their
/// views, which tells apart any two distinct orderable values.
pub trait SortKey: View + Sized {
    /// `a` comes no later than `b`.
    spec fn key_le(a: Self::V, b: Self::V) -> bool;

    /// The views of actual values: the order tells them apart.
    spec fn orderable(a: Self::V) -> bool;

    /// Any two values compare.
    proof fn lemma_key_le_total(a: Self::V, b: Self::V)
        ensures
            Self::key_le(a, b) || Self::key_le(b, a),
    ;

    /// The order is transitive.
    proof fn lemma_key_le_transitive(a: Self::V, b: Self::V, c: Self::V)
        requires
            Self::key_le(a, b),
            Self::key_le(b, c),
        ensures
            Self::key_le(a, c),
    ;

    /// Two orderable values that each come no later than the other are equal.
    proof fn lemma_key_le_antisymmetric(a: Self::V, b: Self::V)
        requires
            Self::orderable(a),
            Self::orderable(b),
            Self::key_le(a, b),
            Self::key_le(b, a),
        ensures
            a == b,
    ;

    /// Whether `self` comes no later than `other`; both are orderable.
    fn key_le_exec(&self, other: &Self) -> (r: bool)
        ensures
            r == Self::key_le(self@, other@),
            Self::orderable(self@),
            Self::orderable(other@),
    ;
}

/// The sequence is in non-decreasing order of key.
pub open spec fn key_sorted<T: SortKey>(s: Seq<T::V>) -> bool {
    forall|i: int, j: int| 0 <= i < j < s.len() ==> T::key_le(s[i], s[j])
}

/// Optional byte strings in the order of `Option<Txid>` and
/// `Option<ScriptBuf>`: unknown first, then lexicographic.
pub open spec fn opt_bytes_lt(a: Option<Seq<u8>>, b: Option<Seq<u8>>) -> bool {
    match (a, b) {
        (None, Some(_)) => true,
        (Some(x), Some(y)) => bytes_lt(x, y),
        _ => false,
    }
}

/// Optional integers in the order of `Option<u32>` and `Option<u64>`:
/// unknown first, then by value.
pub open spec fn opt_int_lt(a: Option<int>, b: Option<int>) -> bool {
    match (a, b) {
        (None, Some(_)) => true,
        (Some(x), Some(y)) => x < y,
        _ => false,
    }
}

/// An optional `u32` as an optional integer.
pub open spec fn opt_u32_int(a: Option<u32>) -> Option<int> {
    match a {
        Some(x) => Some(x as int),
        None => None,
    }
}

/// An optional `u64` as an optional integer.
pub open spec fn opt_u64_int(a: Option<u64>) -> Option<int> {
    match a {
        Some(x) => Some(x as int),
        None => None,
    }
}

/// An optional transaction id as it is displayed: its bytes reversed.
pub open spec fn opt_reversed(a: Option<Seq<u8>>) -> Option<Seq<u8>> {
    match a {
        Some(x) => Some(bytes_reversed(x)),
        None => None,
    }
}

/// The BIP-69 order of inputs: by txid as displayed (its bytes in reverse
/// order, compared lexicographically), then by output index.
pub open spec fn vin_key_le(a: PartialVinView, b: PartialVinView) -> bool {
    ||| opt_bytes_lt(opt_reversed(a.previous_output), opt_reversed(b.previous_output))
    ||| (opt_reversed(a.previous_output) == opt_reversed(b.previous_output) && !opt_int_lt(
        opt_u32_int(b.spent_output_index),
        opt_u32_int(a.spent_output_index),
    ))
}

/// The BIP-69 order of outputs: by amount, then by script.
pub open spec fn vout_key_le(a: PartialVoutView, b: PartialVoutView) -> bool {
    ||| opt_int_lt(opt_u64_int(a.value), opt_u64_int(b.value))
    ||| (a.value == b.value && !opt_bytes_lt(b.script_pubkey, a.script_pubkey))
}

/// The optional transaction id with its bytes reversed.
pub(crate) fn reversed_txid(a: &Option<Vec<u8>>) -> (r: Option<Vec<u8>>)
    ensures
        opt_view(r) == opt_reversed(opt_view(*a)),
{
    match a {
        Some(x) => Some(bytes_reverse(x.as_slice())),
        None => None,
    }
}

/// In the order of sequences of fields, two sequences that each come no
/// later than the other are equal, and the order is transitive.
proof fn lemma_parts_le(a: Seq<Part>, b: Seq<Part>, c: Seq<Part>)
    ensures
        !parts_lt(a, b) && !parts_lt(b, a) ==> a == b,
        parts_lt(a, b) || parts_lt(b, a) || a == b,
        !(parts_lt(a, b) && parts_lt(b, a)),
        !parts_lt(b, a) && !parts_lt(c, b) ==> !parts_lt(c, a),
{
    lemma_parts_strict_total();
    let l = |x: Seq<Part>, y: Seq<Part>| parts_lt(x, y);
    assert(l(a, b) == parts_lt(a, b));
    assert(l(b, a) == parts_lt(b, a));
    assert(l(a, a) == parts_lt(a, a));
    assert(l(c, a) == parts_lt(c, a));
    assert(l(c, b) == parts_lt(c, b));
    assert(l(a, c) == parts_lt(a, c));
    assert(l(b, c) == parts_lt(b, c));
}

/// Inputs in the order of their fields: the BIP-69 key first, then every
/// other field.
impl SortKey for PartialVin {
    open spec fn key_le(a: PartialVinView, b: PartialVinView) -> bool {
        !parts_lt(vin_parts(b), vin_parts(a))
    }

    open spec fn orderable(a: PartialVinView) -> bool {
        vin_listable(a)
    }

    proof fn lemma_key_le_total(a: PartialVinView, b: PartialVinView) {
        lemma_parts_le(vin_parts(a), vin_parts(b), vin_parts(a));
    }

    proof fn lemma_key_le_transitive(a: PartialVinView, b: PartialVinView, c: PartialVinView) {
        lemma_parts_le(vin_parts(a), vin_parts(b), vin_parts(c));
    }

    proof fn lemma_key_le_antisymmetric(a: PartialVinView, b: PartialVinView) {
        lemma_parts_le(vin_parts(a), vin_parts(b), vin_parts(a));
        lemma_vin_parts_injective(a, b);
    }

    fn key_le_exec(&self, other: &Self) -> (r: bool) {
        let mine = vin_fields(self);
        let theirs = vin_fields(other);
        match lex_compare(&theirs, &mine) {
            Order::Less => false,
            _ => true,
        }
    }
}

/// Outputs in the order of their fields: the BIP-69 key first, then every
/// other field.
impl SortKey for PartialVout {
    open spec fn key_le(a: PartialVoutView, b: PartialVoutView) -> bool {
        !parts_lt(vout_parts(b), vout_parts(a))
    }

    open spec fn orderable(a: PartialVoutView) -> bool {
        vout_listable(a)
    }

    proof fn lemma_key_le_total(a: PartialVoutView, b: PartialVoutView) {
        lemma_parts_le(vout_parts(a), vout_parts(b), vout_parts(a));
    }

    proof fn lemma_key_le_transitive(a: PartialVoutView, b: PartialVoutView, c: PartialVoutView) {
        lemma_parts_le(vout_parts(a), vout_parts(b), vout_parts(c));
    }

    proof fn lemma_key_le_antisymmetric(a: PartialVoutView, b: PartialVoutView) {
        lemma_parts_le(vout_parts(a), vout_parts(b), vout_parts(a));
        lemma_vout_parts_injective(a, b);
    }

    fn key_le_exec(&self, other: &Self) -> (r: bool) {
        let mine = vout_fields(self);
        let theirs = vout_fields(other);
        match lex_compare(&theirs, &mine) {
            Order::Less => false,
            _ => true,
        }
    }
}

/// The order of inputs comes no later than BIP-69 does: an input placed
/// before another is not after it by txid as displayed, then output index.
pub proof fn lemma_vin_order_refines_bip69(a: PartialVinView, b: PartialVinView)
    requires
        <PartialVin as SortKey>::key_le(a, b),
    ensures
        vin_key_le(a, b),
{
    reveal_with_fuel(lex_lt, 3);
    lemma_part_strict_total();
    let (pa, pb) = (vin_parts(a), vin_parts(b));
    let l = part_lt_fn();
    assert(l(pa[0], pb[0]) == part_lt(pa[0], pb[0]));
    assert(l(pb[0], pa[0]) == part_lt(pb[0], pa[0]));
    assert(pb.drop_first()[0] == pb[1]);
    assert(pa.drop_first()[0] == pa[1]);
    lemma_bytes_lt_total(
        opt_reversed(a.previous_output)->Some_0,
        opt_reversed(b.previous_output)->Some_0,
    );
}

/// The order of outputs comes no later than BIP-69 does: an output placed
/// before another is not after it by amount, then script.
pub proof fn lemma_vout_order_refines_bip69(a: PartialVoutView, b: PartialVoutView)
    requires
        <PartialVout as SortKey>::key_le(a, b),
    ensures
        vout_key_le(a, b),
{
    reveal_with_fuel(lex_lt, 3);
    lemma_part_strict_total();
    let (pa, pb) = (vout_parts(a), vout_parts(b));
    let l = part_lt_fn();
    assert(l(pa[0], pb[0]) == part_lt(pa[0], pb[0]));
    assert(l(pb[0], pa[0]) == part_lt(pb[0], pa[0]));
    assert(pb.drop_first()[0] == pb[1]);
    assert(pa.drop_first()[0] == pa[1]);
    lemma_bytes_lt_total(a.script_pubkey->Some_0, b.script_pubkey->Some_0);
}

/// Every item is orderable, as the comparison of each item with itself
/// shows.
pub(crate) fn check_orderable<T: SortKey>(items: &Vec<T>)
    ensures
        forall|i: int| 0 <= i < items@.len() ==> T::orderable(#[trigger] items@[i]@),
{
    let n = items.len();
    let mut i: usize = 0;
    while i < n
        invariant
            n == items@.len(),
            i <= n,
            forall|k: int| 0 <= k < i ==> T::orderable(#[trigger] items@[k]@),
        decreases n - i,
    {
        let _ = items[i].key_le_exec(&items[i]);
        i = i + 1;
    }
}

/// A set of orderable values has distinct keys.
pub proof fn lemma_orderable_keys_distinct<T: SortKey>(s: Set<T::V>)
    requires
        forall|x: T::V| #[trigger] s.contains(x) ==> T::orderable(x),
    ensures
        keys_distinct::<T>(s),
{
    assert forall|x: T::V, y: T::V|
        s.contains(x) && s.contains(y) && T::key_le(x, y) && T::key_le(y, x) implies x == y by {
        T::lemma_key_le_antisymmetric(x, y);
    }
}

/// A rearrangement keeps the length, keeps the set of items, and keeps the
/// items distinct when they were.
pub proof fn lemma_permutation_keeps_set<V>(s1: Seq<V>, s2: Seq<V>)
    requires
        s1.to_multiset() == s2.to_multiset(),
        s1.no_duplicates(),
    ensures
        s2.no_duplicates(),
        s2.to_set() == s1.to_set(),
        s2.len() == s1.len(),
{
    broadcast use vstd::seq_lib::group_to_multiset_ensures;

    vstd::seq_lib::to_multiset_len(s1);
    vstd::seq_lib::to_multiset_len(s2);
    s1.lemma_multiset_has_no_duplicates();
    s2.lemma_multiset_has_no_duplicates_conv();
    assert forall|x: V| s1.to_set().contains(x) <==> s2.to_set().contains(x) by {
        assert(s1.contains(x) <==> s1.to_multiset().count(x) > 0);
        assert(s2.contains(x) <==> s2.to_multiset().count(x) > 0);
    }
    assert(s2.to_set() =~= s1.to_set());
}

/// The position of an item with the least key.
fn position_of_least<T: SortKey>(items: &Vec<T>) -> (m: usize)
    requires
        items@.len() > 0,
    ensures
        m < items@.len(),
        forall|k: int| 0 <= k < items@.len() ==> T::key_le(items@[m as int]@, #[trigger] items@[k]@),
{
    let n = items.len();
    let mut m: usize = 0;
    let mut i: usize = 1;
    proof {
        T::lemma_key_le_total(items@[0]@, items@[0]@);
    }
    while i < n
        invariant
            n == items@.len(),
            1 <= i <= n,
            m < i,
            forall|k: int| 0 <= k < i ==> T::key_le(items@[m as int]@, #[trigger] items@[k]@),
        decreases n - i,
    {
        if !items[m].key_le_exec(&items[i]) {
            proof {
                T::lemma_key_le_total(items@[m as int]@, items@[i as int]@);
                assert forall|k: int| 0 <= k <= i implies T::key_le(
                    items@[i as int]@,
                    #[trigger] items@[k]@,
                ) by {
                    if k < i {
                        T::lemma_key_le_transitive(items@[i as int]@, items@[m as int]@, items@[k]@);
                    } else {
                        T::lemma_key_le_total(items@[i as int]@, items@[i as int]@);
                    }
                }
            }
            m = i;
        } else {
            assert(T::key_le(items@[m as int]@, items@[i as int]@));
        }
        i = i + 1;
    }
    m
}

/// The items in non-decreasing order of key.
pub fn sort_by_key<T: SortKey>(items: Vec<T>) -> (r: Vec<T>)
    ensures
        views(r@).to_multiset() == views(items@).to_multiset(),
        key_sorted::<T>(views(r@)),
{
    broadcast use vstd::seq_lib::group_to_multiset_ensures;

    let ghost all = views(items@).to_multiset();
    let mut rest = items;
    let mut out: Vec<T> = Vec::new();
    assert(views(out@).to_multiset() =~= Multiset::empty());
    assert(views(out@).to_multiset().add(views(rest@).to_multiset()) =~= all);
    while rest.len() > 0
        invariant
            views(out@).to_multiset().add(views(rest@).to_multiset()) == all,
            key_sorted::<T>(views(out@)),
            forall|i: int, j: int|
                0 <= i < out@.len() && 0 <= j < rest@.len() ==> T::key_le(
                    #[trigger] out@[i]@,
                    #[trigger] rest@[j]@,
                ),
        decreases rest@.len(),
    {
        let m = position_of_least(&rest);
        let ghost before_rest = rest@;
        let ghost before_out = out@;
        let x = rest.remove(m);
        proof {
            assert(views(rest@) =~= views(before_rest).remove(m as int));
            assert(views(before_rest)[m as int] == x@);
        }
        out.push(x);
        proof {
            broadcast use vstd::multiset::group_multiset_axioms;

            assert(views(out@) =~= views(before_out).push(x@));
            vstd::seq_lib::to_multiset_remove(views(before_rest), m as int);
            vstd::seq_lib::to_multiset_build(views(before_out), x@);
            vstd::seq_lib::to_multiset_contains(views(before_rest), x@);
            assert(views(before_rest).contains(x@));
            assert(views(out@).to_multiset().add(views(rest@).to_multiset()) =~= all);
            assert forall|i: int, j: int| 0 <= i < j < views(out@).len() implies T::key_le(
                views(out@)[i],
                views(out@)[j],
            ) by {
                if j == before_out.len() {
                    assert(T::key_le(before_out[i]@, before_rest[m as int]@));
                }
            }
            assert forall|i: int, j: int| 0 <= i < out@.len() && 0 <= j < rest@.len() implies T::key_le(
                #[trigger] out@[i]@,
                #[trigger] rest@[j]@,
            ) by {
                let jj = if j < m { j } else { j + 1 };
                assert(rest@[j] == before_rest[jj]);
                if i < before_out.len() {
                    assert(T::key_le(before_out[i]@, before_rest[jj]@));
                } else {
                    assert(T::key_le(before_rest[m as int]@, before_rest[jj]@));
                }
            }
        }
    }
    assert(views(rest@).to_multiset() =~= Multiset::empty());
    assert(views(out@).to_multiset() =~= all);
    out
}

/// The sequence is in strictly increasing order of key: each item's key is
/// below the keys of the items after it.
pub open spec fn key_strictly_sorted<T: SortKey>(s: Seq<T::V>) -> bool {
    forall|i: int, j: int| 0 <= i < j < s.len() ==> !T::key_le(#[trigger] s[j], #[trigger] s[i])
}

/// No two items of the set share a key.
pub open spec fn keys_distinct<T: SortKey>(s: Set<T::V>) -> bool {
    forall|x: T::V, y: T::V|
        #![trigger s.contains(x), s.contains(y)]
        s.contains(x) && s.contains(y) && T::key_le(x, y) && T::key_le(y, x) ==> x == y
}

/// The items of a set in strictly increasing order of key.
pub open spec fn key_listing<T: SortKey>(s: Set<T::V>) -> Seq<T::V> {
    choose|q: Seq<T::V>| key_strictly_sorted::<T>(q) && q.to_set() == s
}

/// The items of `s` in the order that the salt gives: the item at position
/// `i` is the one at position `salted_order(salt, n)[i]` of `s`.
pub open spec fn salted<V>(s: Seq<V>, salt: Seq<u8>) -> Seq<V> {
    Seq::new(s.len(), |i: int| s[salted_order(salt, s.len())[i] as int])
}

/// A strictly sorted sequence holds no item twice.
proof fn lemma_strictly_sorted_no_duplicates<T: SortKey>(q: Seq<T::V>)
    requires
        key_strictly_sorted::<T>(q),
    ensures
        q.no_duplicates(),
{
    assert forall|i: int, j: int| 0 <= i < q.len() && 0 <= j < q.len() && i != j implies q[i]
        != q[j] by {
        T::lemma_key_le_total(q[i], q[i]);
    }
}

/// Two strictly sorted sequences with the same items are the same
/// sequence.
pub proof fn lemma_strictly_sorted_unique<T: SortKey>(q1: Seq<T::V>, q2: Seq<T::V>)
    requires
        key_strictly_sorted::<T>(q1),
        key_strictly_sorted::<T>(q2),
        q1.to_set() == q2.to_set(),
    ensures
        q1 == q2,
    decreases q1.len(),
{
    if q1.len() == 0 {
        if q2.len() > 0 {
            assert(q2.to_set().contains(q2[0]));
        }
        assert(q1 =~= q2);
    } else {
        assert(q1.to_set().contains(q1[0]));
        assert(q2.len() > 0);
        assert(q2.to_set().contains(q2[0]));
        let j = choose|j: int| 0 <= j < q2.len() && q2[j] == q1[0];
        let i = choose|i: int| 0 <= i < q1.len() && q1[i] == q2[0];
        T::lemma_key_le_total(q1[0], q1[0]);
        T::lemma_key_le_total(q1[0], q1[i]);
        if j > 0 {
            assert(!T::key_le(q2[j], q2[0]));
            if i > 0 {
                assert(!T::key_le(q1[i], q1[0]));
            }
            assert(false);
        }
        assert(q1[0] == q2[0]);
        lemma_strictly_sorted_no_duplicates::<T>(q1);
        lemma_strictly_sorted_no_duplicates::<T>(q2);
        let r1 = q1.drop_first();
        let r2 = q2.drop_first();
        assert forall|x: T::V| r1.to_set().contains(x) <==> r2.to_set().contains(x) by {
            if r1.contains(x) {
                let k = choose|k: int| 0 <= k < r1.len() && r1[k] == x;
                assert(q1[k + 1] == x);
                assert(q1.to_set().contains(x));
                let k2 = choose|k2: int| 0 <= k2 < q2.len() && q2[k2] == x;
                assert(k2 != 0);
                assert(r2[k2 - 1] == x);
            }
            if r2.contains(x) {
                let k = choose|k: int| 0 <= k < r2.len() && r2[k] == x;
                assert(q2[k + 1] == x);
                assert(q2.to_set().contains(x));
                let k1 = choose|k1: int| 0 <= k1 < q1.len() && q1[k1] == x;
                assert(k1 != 0);
                assert(r1[k1 - 1] == x);
            }
        }
        assert(r1.to_set() =~= r2.to_set());
        lemma_strictly_sorted_unique::<T>(r1, r2);
        assert(q1.len() == r1.len() + 1);
        assert(q2.len() == r2.len() + 1);
        assert forall|k: int| 0 <= k < q1.len() implies q1[k] == q2[k] by {
            if k > 0 {
                assert(q1[k] == r1[k - 1]);
                assert(q2[k] == r2[k - 1]);
            }
        }
        assert(q1 =~= q2);
    }
}

/// A sequence sorted by key that lists a set whose keys are distinct, each
/// item once, is the set's listing in increasing order of key.
pub proof fn lemma_sorted_is_key_listing<T: SortKey>(q: Seq<T::V>, s: Set<T::V>)
    requires
        key_sorted::<T>(q),
        q.no_duplicates(),
        q.to_set() == s,
        keys_distinct::<T>(s),
    ensures
        key_strictly_sorted::<T>(q),
        key_listing::<T>(s) == q,
{
    assert forall|i: int, j: int| 0 <= i < j < q.len() implies !T::key_le(#[trigger] q[j], #[trigger] q[i]) by {
        assert(s.contains(q[i]));
        assert(s.contains(q[j]));
        assert(T::key_le(q[i], q[j]));
    }
    let c = key_listing::<T>(s);
    lemma_strictly_sorted_unique::<T>(c, q);
}

/// The order in which rand's `SliceRandom::shuffle` leaves the items when
/// it draws from rand_chacha's ChaCha20 generator seeded with `seed`.
pub uninterp spec fn chacha20_shuffle(seed: Seq<u8>, items: Seq<usize>) -> Seq<usize>;

/// Seeds rand_chacha's `ChaCha20Rng` with the 32 bytes
/// (`rand::SeedableRng::from_seed`) and shuffles the indices with
/// `rand::seq::SliceRandom::shuffle` drawing from it. The shuffle only swaps
/// items, so the vector holds the same indices as before, each as often; the
/// order is a function of the seed and the indices alone (the generator is
/// deterministic and rand draws indices below 2^32 the same way on every
/// platform), and it is named, not stated.
#[verifier::external_body]
fn shuffle_indices(seed: [u8; 32], indices: &mut Vec<usize>)
    ensures
        final(indices)@ == chacha20_shuffle(seed@, old(indices)@),
        final(indices)@.to_multiset() == old(indices)@.to_multiset(),
{
    let mut rng = <rand_chacha::ChaCha20Rng as rand::SeedableRng>::from_seed(seed);
    rand::seq::SliceRandom::shuffle(indices.as_mut_slice(), &mut rng);
}

/// The indices `0, 1, ..., n - 1`, in order.
pub open spec fn index_range(n: nat) -> Seq<usize> {
    Seq::new(n, |i: int| i as usize)
}

/// `p` lists each of the indices `0 .. n` once.
pub open spec fn is_index_permutation(p: Seq<usize>, n: nat) -> bool {
    &&& p.len() == n
    &&& p.no_duplicates()
    &&& forall|i: int| 0 <= i < n ==> #[trigger] p[i] < n
    &&& forall|k: int| 0 <= k < n ==> #[trigger] index_hit(p, k)
}

/// Some position of `p` holds the index `k`.
pub open spec fn index_hit(p: Seq<usize>, k: int) -> bool {
    exists|i: int| 0 <= i < p.len() && p[i] == k
}

/// The order that the salt gives to `n` items: the position in the input of
/// the item that lands at each position of the output.
pub open spec fn salted_order(salt: Seq<u8>, n: nat) -> Seq<usize> {
    chacha20_shuffle(salt, index_range(n))
}

/// Rearranging a sequence by a permutation of its indices keeps its set of
/// items, and keeps the items distinct when they were.
pub proof fn lemma_reindex_keeps_set<V>(s: Seq<V>, p: Seq<usize>, t: Seq<V>)
    requires
        is_index_permutation(p, s.len()),
        t.len() == s.len(),
        forall|i: int| 0 <= i < t.len() ==> t[i] == s[p[i] as int],
    ensures
        t.to_set() == s.to_set(),
        s.no_duplicates() ==> t.no_duplicates(),
{
    assert forall|x: V| t.to_set().contains(x) <==> s.to_set().contains(x) by {
        if t.contains(x) {
            let i = choose|i: int| 0 <= i < t.len() && t[i] == x;
            assert(p[i] < s.len());
        }
        if s.contains(x) {
            let k = choose|k: int| 0 <= k < s.len() && s[k] == x;
            assert(index_hit(p, k));
            let i = choose|i: int| 0 <= i < p.len() && p[i] == k;
            assert(t[i] == x);
        }
    }
    assert(t.to_set() =~= s.to_set());
    if s.no_duplicates() {
        assert forall|i: int, j: int| 0 <= i < t.len() && 0 <= j < t.len() && i != j implies t[i]
            != t[j] by {
            assert(p[i] != p[j]);
            assert(p[i] < s.len() && p[j] < s.len());
        }
    }
}

/// The items at the given positions: the item at position `i` of the result
/// is the one at position `order[i]` of `items`.
pub fn reorder<T: IdempotentValue>(items: &Vec<T>, order: &Vec<usize>) -> (r: Vec<T>)
    requires
        forall|j: int| 0 <= j < order@.len() ==> #[trigger] order@[j] < items@.len(),
    ensures
        r@.len() == order@.len(),
        forall|j: int| 0 <= j < r@.len() ==> #[trigger] r@[j]@ == items@[order@[j] as int]@,
{
    let n = order.len();
    let mut r: Vec<T> = Vec::new();
    let mut i: usize = 0;
    while i < n
        invariant
            n == order@.len(),
            forall|j: int| 0 <= j < n ==> #[trigger] order@[j] < items@.len(),
            i <= n,
            r@.len() == i,
            forall|j: int| 0 <= j < i ==> #[trigger] r@[j]@ == items@[order@[j] as int]@,
        decreases n - i,
    {
        let x = items[order[i]].copy_value();
        r.push(x);
        i = i + 1;
    }
    r
}

/// The items in the order that a ChaCha20 generator seeded with the salt
/// draws: the item at position `i` of the result is the one at position
/// `salted_order(salt, n)[i]` of the input, and that order is a permutation.
pub fn shuffle_with_salt<T: IdempotentValue>(items: Vec<T>, salt: &[u8; 32]) -> (r: Vec<T>)
    ensures
        is_index_permutation(salted_order(salt@, items@.len()), items@.len()),
        r@.len() == items@.len(),
        forall|i: int|
            0 <= i < r@.len() ==> #[trigger] r@[i]@ == items@[salted_order(salt@, items@.len())[i] as int]@,
        views(r@).to_set() == views(items@).to_set(),
        views(items@).no_duplicates() ==> views(r@).no_duplicates(),
{
    let n = items.len();
    let mut order: Vec<usize> = Vec::new();
    let mut k: usize = 0;
    while k < n
        invariant
            k <= n,
            order@ =~= index_range(k as nat),
        decreases n - k,
    {
        order.push(k);
        k = k + 1;
        assert(order@ =~= index_range(k as nat));
    }
    let ghost range = order@;
    shuffle_indices(*salt, &mut order);
    proof {
        assert(range.no_duplicates());
        lemma_permutation_keeps_set(range, order@);
        assert forall|i: int| 0 <= i < n implies #[trigger] order@[i] < n by {
            assert(order@.to_set().contains(order@[i]));
            assert(range.to_set().contains(order@[i]));
        }
        assert forall|j: int| 0 <= j < n implies #[trigger] index_hit(order@, j) by {
            assert(range[j] == j);
            assert(range.to_set().contains(range[j]));
            assert(order@.to_set().contains(range[j]));
        }
        assert((*salt)@ == salt@);
    }
    let r = reorder(&items, &order);
    proof {
        lemma_reindex_keeps_set(views(items@), order@, views(r@));
    }
    r
}

} // verus!
