//! Merging sets of inputs: inputs that spend the same known outpoint are one
//! input, and join into one; the other inputs are kept side by side.
use vstd::prelude::*;

use crate::bytes::bytes_equal;
use crate::input::{
    join_partial_vin, lemma_partial_vin_join_associative, lemma_partial_vin_join_commutative,
    lemma_partial_vin_join_idempotent,
    PartialVin, PartialVinView,
};
use crate::value_set::ValueSet;
use crate::values::{and_then, views, IdempotentValue};
use crate::{Join, JoinError};

verus! {

/// The input knows the whole outpoint it spends.
pub open spec fn outpoint_known(p: PartialVinView) -> bool {
    p.previous_output is Some && p.spent_output_index is Some
}

/// Both inputs know their outpoints, and these are the same.
pub open spec fn same_outpoint(p: PartialVinView, q: PartialVinView) -> bool {
    &&& outpoint_known(p)
    &&& outpoint_known(q)
    &&& p.previous_output == q.previous_output
    &&& p.spent_output_index == q.spent_output_index
}

/// No two inputs of the set spend the same known outpoint.
pub open spec fn one_per_outpoint(s: Set<PartialVinView>) -> bool {
    forall|p: PartialVinView, q: PartialVinView|
        #![trigger s.contains(p), s.contains(q)]
        s.contains(p) && s.contains(q) && same_outpoint(p, q) ==> p == q
}

/// Some input of the set spends the same known outpoint as `p`.
pub open spec fn has_partner(p: PartialVinView, s: Set<PartialVinView>) -> bool {
    exists|q: PartialVinView| #[trigger] s.contains(q) && same_outpoint(p, q)
}

/// `z` is the join of an input of `a` and an input of `b` that spend the
/// same known outpoint.
pub open spec fn merged_from(a: Set<PartialVinView>, b: Set<PartialVinView>, z: PartialVinView) -> bool {
    exists|x: PartialVinView, y: PartialVinView|
        #![trigger a.contains(x), b.contains(y)]
        a.contains(x) && b.contains(y) && same_outpoint(x, y) && join_partial_vin(x, y) == Ok::<
            PartialVinView,
            JoinError,
        >(z)
}

/// Two inputs, one of each set, spend the same known outpoint and fail to
/// join with error `e`.
pub open spec fn input_conflict(a: Set<PartialVinView>, b: Set<PartialVinView>, e: JoinError) -> bool {
    exists|x: PartialVinView, y: PartialVinView|
        #![trigger a.contains(x), b.contains(y)]
        a.contains(x) && b.contains(y) && same_outpoint(x, y) && join_partial_vin(x, y) == Err::<
            PartialVinView,
            JoinError,
        >(e)
}

/// The inputs of both sets, where the two inputs that spend one known
/// outpoint are replaced by their join.
pub open spec fn merged_inputs(a: Set<PartialVinView>, b: Set<PartialVinView>) -> Set<PartialVinView> {
    Set::new(
        |z: PartialVinView|
            (a.contains(z) && !has_partner(z, b)) || (b.contains(z) && !has_partner(z, a))
                || merged_from(a, b, z),
    )
}

/// The join of two sets of inputs: the merged inputs, or, when two inputs
/// that spend one outpoint disagree (their join is a scalar disagreement),
/// that disagreement.
pub open spec fn join_input_sets(a: Set<PartialVinView>, b: Set<PartialVinView>) -> Result<
    Set<PartialVinView>,
    JoinError,
> {
    if input_conflict(a, b, JoinError::ScalarDisagree) {
        Err(JoinError::ScalarDisagree)
    } else {
        Ok(merged_inputs(a, b))
    }
}

/// What the input `x` brings to the merge with the set `b`: itself when no
/// input of `b` spends its outpoint, else its join with that input.
pub open spec fn contributes(x: PartialVinView, b: Set<PartialVinView>, z: PartialVinView) -> bool {
    ||| (!has_partner(x, b) && z == x)
    ||| exists|y: PartialVinView|
        #[trigger] b.contains(y) && same_outpoint(x, y) && join_partial_vin(x, y) == Ok::<
            PartialVinView,
            JoinError,
        >(z)
}

/// The input `x` fails to join with the input of `b` that spends its
/// outpoint, with error `e`.
pub open spec fn conflicts(x: PartialVinView, b: Set<PartialVinView>, e: JoinError) -> bool {
    exists|y: PartialVinView|
        #[trigger] b.contains(y) && same_outpoint(x, y) && join_partial_vin(x, y) == Err::<
            PartialVinView,
            JoinError,
        >(e)
}

/// A join of two partial inputs keeps the outpoint they share.
pub proof fn lemma_join_keeps_outpoint(x: PartialVinView, y: PartialVinView)
    requires
        same_outpoint(x, y),
        join_partial_vin(x, y) is Ok,
    ensures
        same_outpoint(x, join_partial_vin(x, y)->Ok_0),
{
}

/// The merge of two sets with one input per known outpoint again has one
/// input per known outpoint.
pub proof fn lemma_merged_one_per_outpoint(a: Set<PartialVinView>, b: Set<PartialVinView>)
    requires
        one_per_outpoint(a),
        one_per_outpoint(b),
    ensures
        one_per_outpoint(merged_inputs(a, b)),
{
    let m = merged_inputs(a, b);
    assert forall|p: PartialVinView, q: PartialVinView|
        m.contains(p) && m.contains(q) && same_outpoint(p, q) implies p == q by {
        if merged_from(a, b, p) {
            let (x1, y1) = choose|x: PartialVinView, y: PartialVinView|
                #![trigger a.contains(x), b.contains(y)]
                a.contains(x) && b.contains(y) && same_outpoint(x, y) && join_partial_vin(x, y)
                    == Ok::<PartialVinView, JoinError>(p);
            lemma_join_keeps_outpoint(x1, y1);
            if merged_from(a, b, q) {
                let (x2, y2) = choose|x: PartialVinView, y: PartialVinView|
                    #![trigger a.contains(x), b.contains(y)]
                    a.contains(x) && b.contains(y) && same_outpoint(x, y) && join_partial_vin(x, y)
                        == Ok::<PartialVinView, JoinError>(q);
                lemma_join_keeps_outpoint(x2, y2);
                assert(a.contains(x1) && a.contains(x2));
                assert(x1 == x2);
                assert(b.contains(y1) && b.contains(y2));
                assert(y1 == y2);
            } else if a.contains(q) {
                assert(b.contains(y1) && same_outpoint(q, y1));
            } else {
                assert(a.contains(x1) && same_outpoint(q, x1));
            }
        } else if merged_from(a, b, q) {
            let (x2, y2) = choose|x: PartialVinView, y: PartialVinView|
                #![trigger a.contains(x), b.contains(y)]
                a.contains(x) && b.contains(y) && same_outpoint(x, y) && join_partial_vin(x, y)
                    == Ok::<PartialVinView, JoinError>(q);
            lemma_join_keeps_outpoint(x2, y2);
            if a.contains(p) {
                assert(b.contains(y2) && same_outpoint(p, y2));
            } else {
                assert(a.contains(x2) && same_outpoint(p, x2));
            }
        } else if a.contains(p) && !has_partner(p, b) {
            if b.contains(q) && !has_partner(q, a) {
                assert(b.contains(q) && same_outpoint(p, q));
            }
        } else {
            if a.contains(q) && !has_partner(q, b) {
                assert(b.contains(p) && same_outpoint(q, p));
            }
        }
    }
}

/// Joining a set of inputs with itself gives it back.
pub proof fn lemma_join_input_sets_idempotent(a: Set<PartialVinView>)
    requires
        one_per_outpoint(a),
    ensures
        join_input_sets(a, a) == Ok::<Set<PartialVinView>, JoinError>(a),
{
    assert forall|x: PartialVinView| #[trigger] a.contains(x) implies join_partial_vin(x, x) == Ok::<
        PartialVinView,
        JoinError,
    >(x) by {
        lemma_partial_vin_join_idempotent(x);
    }
    assert forall|e: JoinError| !input_conflict(a, a, e) by {
        if input_conflict(a, a, e) {
            let (x, y) = choose|x: PartialVinView, y: PartialVinView|
                #![trigger a.contains(x), a.contains(y)]
                a.contains(x) && a.contains(y) && same_outpoint(x, y) && join_partial_vin(x, y)
                    == Err::<PartialVinView, JoinError>(e);
            assert(x == y);
        }
    }
    assert forall|z: PartialVinView| merged_inputs(a, a).contains(z) <==> a.contains(z) by {
        if a.contains(z) && outpoint_known(z) {
            assert(a.contains(z) && a.contains(z) && same_outpoint(z, z));
            assert(merged_from(a, a, z));
        }
        if merged_from(a, a, z) {
            let (x, y) = choose|x: PartialVinView, y: PartialVinView|
                #![trigger a.contains(x), a.contains(y)]
                a.contains(x) && a.contains(y) && same_outpoint(x, y) && join_partial_vin(x, y)
                    == Ok::<PartialVinView, JoinError>(z);
            assert(x == y);
        }
    }
    assert(merged_inputs(a, a) =~= a);
}

/// The join of sets of inputs does not depend on the order of its
/// arguments.
pub proof fn lemma_join_input_sets_commutative(a: Set<PartialVinView>, b: Set<PartialVinView>)
    ensures
        join_input_sets(a, b) == join_input_sets(b, a),
        merged_inputs(a, b) == merged_inputs(b, a),
{
    assert forall|x: PartialVinView, y: PartialVinView|
        join_partial_vin(x, y) == join_partial_vin(y, x) by {
        lemma_partial_vin_join_commutative(x, y);
    }
    assert forall|e: JoinError| input_conflict(a, b, e) <==> input_conflict(b, a, e) by {
        if input_conflict(a, b, e) {
            let (x, y) = choose|x: PartialVinView, y: PartialVinView|
                #![trigger a.contains(x), b.contains(y)]
                a.contains(x) && b.contains(y) && same_outpoint(x, y) && join_partial_vin(x, y)
                    == Err::<PartialVinView, JoinError>(e);
            assert(b.contains(y) && a.contains(x) && same_outpoint(y, x));
        }
        if input_conflict(b, a, e) {
            let (x, y) = choose|x: PartialVinView, y: PartialVinView|
                #![trigger b.contains(x), a.contains(y)]
                b.contains(x) && a.contains(y) && same_outpoint(x, y) && join_partial_vin(x, y)
                    == Err::<PartialVinView, JoinError>(e);
            assert(a.contains(y) && b.contains(x) && same_outpoint(y, x));
        }
    }
    assert forall|z: PartialVinView| merged_from(a, b, z) <==> merged_from(b, a, z) by {
        if merged_from(a, b, z) {
            let (x, y) = choose|x: PartialVinView, y: PartialVinView|
                #![trigger a.contains(x), b.contains(y)]
                a.contains(x) && b.contains(y) && same_outpoint(x, y) && join_partial_vin(x, y)
                    == Ok::<PartialVinView, JoinError>(z);
            assert(b.contains(y) && a.contains(x) && same_outpoint(y, x));
        }
        if merged_from(b, a, z) {
            let (x, y) = choose|x: PartialVinView, y: PartialVinView|
                #![trigger b.contains(x), a.contains(y)]
                b.contains(x) && a.contains(y) && same_outpoint(x, y) && join_partial_vin(x, y)
                    == Ok::<PartialVinView, JoinError>(z);
            assert(a.contains(y) && b.contains(x) && same_outpoint(y, x));
        }
    }
    assert(merged_inputs(a, b) =~= merged_inputs(b, a));
}

/// Two inputs of sets that merge, one of each, that spend one known
/// outpoint join.
proof fn lemma_no_conflict(a: Set<PartialVinView>, b: Set<PartialVinView>, x: PartialVinView, y: PartialVinView)
    requires
        join_input_sets(a, b) is Ok,
        a.contains(x),
        b.contains(y),
        same_outpoint(x, y),
    ensures
        join_partial_vin(x, y) is Ok,
{
    if let Err(e) = join_partial_vin(x, y) {
        assert(input_conflict(a, b, e));
        match e {
            JoinError::ScalarDisagree => {},
            JoinError::StructuralMismatch => {},
        }
    }
}

/// An input with a known outpoint of either of two sets that merge has an
/// input of the merge that spends its outpoint.
proof fn lemma_present_in_merge(a: Set<PartialVinView>, b: Set<PartialVinView>, x: PartialVinView)
    requires
        join_input_sets(a, b) is Ok,
        a.contains(x) || b.contains(x),
        outpoint_known(x),
    ensures
        has_partner(x, merged_inputs(a, b)),
{
    lemma_join_input_sets_commutative(a, b);
    let (p, q) = if a.contains(x) { (a, b) } else { (b, a) };
    assert(merged_inputs(p, q) == merged_inputs(a, b));
    assert(join_input_sets(p, q) is Ok);
    if has_partner(x, q) {
        let y = choose|y: PartialVinView| #[trigger] q.contains(y) && same_outpoint(x, y);
        lemma_no_conflict(p, q, x, y);
        let z = join_partial_vin(x, y)->Ok_0;
        lemma_join_keeps_outpoint(x, y);
        assert(merged_from(p, q, z));
        assert(merged_inputs(p, q).contains(z));
    } else {
        assert(merged_inputs(p, q).contains(x));
        assert(same_outpoint(x, x));
    }
}

/// An input that spends the same outpoint as an input of a merge spends
/// the outpoint of an input of one of the merged sets.
proof fn lemma_partner_in_merge(b: Set<PartialVinView>, c: Set<PartialVinView>, x: PartialVinView)
    requires
        has_partner(x, merged_inputs(b, c)),
    ensures
        has_partner(x, b) || has_partner(x, c),
{
    let v = choose|v: PartialVinView| #[trigger] merged_inputs(b, c).contains(v) && same_outpoint(x, v);
    if merged_from(b, c, v) {
        let (y, w) = choose|y: PartialVinView, w: PartialVinView|
            #![trigger b.contains(y), c.contains(w)]
            b.contains(y) && c.contains(w) && same_outpoint(y, w) && join_partial_vin(y, w)
                == Ok::<PartialVinView, JoinError>(v);
        lemma_join_keeps_outpoint(y, w);
        assert(b.contains(y) && same_outpoint(x, y));
    } else if b.contains(v) {
        assert(b.contains(v) && same_outpoint(x, v));
    } else {
        assert(c.contains(v) && same_outpoint(x, v));
    }
}

/// When `a` merges with `b` and the result with `c`, then `b` merges with
/// `c` and `a` with the result, and every input of the first grouping is an
/// input of the second.
proof fn lemma_merge_regroup(a: Set<PartialVinView>, b: Set<PartialVinView>, c: Set<PartialVinView>)
    requires
        one_per_outpoint(a),
        one_per_outpoint(b),
        one_per_outpoint(c),
        join_input_sets(a, b) is Ok,
        join_input_sets(merged_inputs(a, b), c) is Ok,
    ensures
        join_input_sets(b, c) is Ok,
        join_input_sets(a, merged_inputs(b, c)) is Ok,
        merged_inputs(merged_inputs(a, b), c).subset_of(merged_inputs(a, merged_inputs(b, c))),
{
    let ab = merged_inputs(a, b);
    let bc = merged_inputs(b, c);
    lemma_merged_one_per_outpoint(a, b);
    assert forall|e: JoinError| !input_conflict(b, c, e) by {
        if input_conflict(b, c, e) {
            let (y, w) = choose|y: PartialVinView, w: PartialVinView|
                #![trigger b.contains(y), c.contains(w)]
                b.contains(y) && c.contains(w) && same_outpoint(y, w) && join_partial_vin(y, w)
                    == Err::<PartialVinView, JoinError>(e);
            if has_partner(y, a) {
                let x = choose|x: PartialVinView| #[trigger] a.contains(x) && same_outpoint(y, x);
                lemma_no_conflict(a, b, x, y);
                let xy = join_partial_vin(x, y)->Ok_0;
                lemma_join_keeps_outpoint(x, y);
                assert(merged_from(a, b, xy));
                assert(ab.contains(xy));
                lemma_no_conflict(ab, c, xy, w);
                lemma_partial_vin_join_associative(x, y, w);
            } else {
                assert(ab.contains(y));
                lemma_no_conflict(ab, c, y, w);
            }
        }
    }
    lemma_merged_one_per_outpoint(b, c);
    assert forall|e: JoinError| !input_conflict(a, bc, e) by {
        if input_conflict(a, bc, e) {
            let (x, v) = choose|x: PartialVinView, v: PartialVinView|
                #![trigger a.contains(x), bc.contains(v)]
                a.contains(x) && bc.contains(v) && same_outpoint(x, v) && join_partial_vin(x, v)
                    == Err::<PartialVinView, JoinError>(e);
            if merged_from(b, c, v) {
                let (y, w) = choose|y: PartialVinView, w: PartialVinView|
                    #![trigger b.contains(y), c.contains(w)]
                    b.contains(y) && c.contains(w) && same_outpoint(y, w) && join_partial_vin(y, w)
                        == Ok::<PartialVinView, JoinError>(v);
                lemma_join_keeps_outpoint(y, w);
                lemma_no_conflict(a, b, x, y);
                let xy = join_partial_vin(x, y)->Ok_0;
                lemma_join_keeps_outpoint(x, y);
                assert(merged_from(a, b, xy));
                assert(ab.contains(xy));
                lemma_no_conflict(ab, c, xy, w);
                lemma_partial_vin_join_associative(x, y, w);
            } else if b.contains(v) && !has_partner(v, c) {
                lemma_no_conflict(a, b, x, v);
            } else {
                if has_partner(x, b) {
                    let y = choose|y: PartialVinView| #[trigger] b.contains(y) && same_outpoint(x, y);
                    assert(b.contains(y) && same_outpoint(v, y));
                }
                assert(ab.contains(x));
                lemma_no_conflict(ab, c, x, v);
            }
        }
    }
    assert forall|z: PartialVinView| merged_inputs(ab, c).contains(z) implies merged_inputs(a, bc).contains(z) by {
        if merged_from(ab, c, z) {
            let (u, w) = choose|u: PartialVinView, w: PartialVinView|
                #![trigger ab.contains(u), c.contains(w)]
                ab.contains(u) && c.contains(w) && same_outpoint(u, w) && join_partial_vin(u, w)
                    == Ok::<PartialVinView, JoinError>(z);
            lemma_join_keeps_outpoint(u, w);
            if merged_from(a, b, u) {
                let (x, y) = choose|x: PartialVinView, y: PartialVinView|
                    #![trigger a.contains(x), b.contains(y)]
                    a.contains(x) && b.contains(y) && same_outpoint(x, y) && join_partial_vin(x, y)
                        == Ok::<PartialVinView, JoinError>(u);
                lemma_join_keeps_outpoint(x, y);
                lemma_partial_vin_join_associative(x, y, w);
                let yw = join_partial_vin(y, w)->Ok_0;
                lemma_join_keeps_outpoint(y, w);
                assert(merged_from(b, c, yw));
                assert(bc.contains(yw));
                assert(merged_from(a, bc, z));
            } else if a.contains(u) && !has_partner(u, b) {
                if has_partner(w, b) {
                    let y = choose|y: PartialVinView| #[trigger] b.contains(y) && same_outpoint(w, y);
                    assert(b.contains(y) && same_outpoint(u, y));
                }
                assert(bc.contains(w));
                assert(merged_from(a, bc, z));
            } else {
                assert(merged_from(b, c, z));
                assert(bc.contains(z));
                if has_partner(z, a) {
                    let x = choose|x: PartialVinView| #[trigger] a.contains(x) && same_outpoint(z, x);
                    assert(a.contains(x) && same_outpoint(u, x));
                }
            }
        } else if ab.contains(z) && !has_partner(z, c) {
            if merged_from(a, b, z) {
                let (x, y) = choose|x: PartialVinView, y: PartialVinView|
                    #![trigger a.contains(x), b.contains(y)]
                    a.contains(x) && b.contains(y) && same_outpoint(x, y) && join_partial_vin(x, y)
                        == Ok::<PartialVinView, JoinError>(z);
                lemma_join_keeps_outpoint(x, y);
                if has_partner(y, c) {
                    let w = choose|w: PartialVinView| #[trigger] c.contains(w) && same_outpoint(y, w);
                    assert(c.contains(w) && same_outpoint(z, w));
                }
                assert(bc.contains(y));
                assert(merged_from(a, bc, z));
            } else if a.contains(z) && !has_partner(z, b) {
                if has_partner(z, bc) {
                    lemma_partner_in_merge(b, c, z);
                }
            } else {
                assert(bc.contains(z));
            }
        } else {
            assert(c.contains(z) && !has_partner(z, ab));
            if has_partner(z, b) {
                let y = choose|y: PartialVinView| #[trigger] b.contains(y) && same_outpoint(z, y);
                lemma_present_in_merge(a, b, y);
                let v = choose|v: PartialVinView| #[trigger] ab.contains(v) && same_outpoint(y, v);
                assert(ab.contains(v) && same_outpoint(z, v));
            }
            assert(bc.contains(z));
            if has_partner(z, a) {
                let x = choose|x: PartialVinView| #[trigger] a.contains(x) && same_outpoint(z, x);
                lemma_present_in_merge(a, b, x);
                let v = choose|v: PartialVinView| #[trigger] ab.contains(v) && same_outpoint(x, v);
                assert(ab.contains(v) && same_outpoint(z, v));
            }
        }
    }
}

/// The merge of sets of inputs with one input per known outpoint does not
/// depend on how three of them are grouped.
pub proof fn lemma_join_input_sets_associative(a: Set<PartialVinView>, b: Set<PartialVinView>, c: Set<PartialVinView>)
    requires
        one_per_outpoint(a),
        one_per_outpoint(b),
        one_per_outpoint(c),
    ensures
        and_then(join_input_sets(a, b), |ab: Set<PartialVinView>| join_input_sets(ab, c))
            == and_then(join_input_sets(b, c), |bc: Set<PartialVinView>| join_input_sets(a, bc)),
{
    let ab = merged_inputs(a, b);
    let bc = merged_inputs(b, c);
    lemma_join_input_sets_commutative(a, b);
    lemma_join_input_sets_commutative(b, c);
    lemma_join_input_sets_commutative(ab, c);
    lemma_join_input_sets_commutative(a, bc);
    if join_input_sets(a, b) is Ok && join_input_sets(ab, c) is Ok {
        lemma_merge_regroup(a, b, c);
        lemma_merge_regroup(c, b, a);
        assert(merged_inputs(ab, c) =~= merged_inputs(a, bc));
    }
    if join_input_sets(b, c) is Ok && join_input_sets(a, bc) is Ok {
        lemma_merge_regroup(c, b, a);
    }
}

/// Adding one input to a set with one input per known outpoint: an input
/// whose outpoint no input of the set spends is simply added, and an input
/// that is already there changes nothing.
pub proof fn lemma_merge_single(a: Set<PartialVinView>, x: PartialVinView)
    requires
        one_per_outpoint(a),
    ensures
        !has_partner(x, a) ==> join_input_sets(a, Set::empty().insert(x)) == Ok::<
            Set<PartialVinView>,
            JoinError,
        >(a.insert(x)),
        a.contains(x) ==> join_input_sets(a, Set::empty().insert(x)) == Ok::<
            Set<PartialVinView>,
            JoinError,
        >(a),
{
    let b = Set::empty().insert(x);
    lemma_partial_vin_join_idempotent(x);
    if !has_partner(x, a) {
        assert forall|e: JoinError| !input_conflict(a, b, e) by {
            if input_conflict(a, b, e) {
                let (p, q) = choose|p: PartialVinView, q: PartialVinView|
                    #![trigger a.contains(p), b.contains(q)]
                    a.contains(p) && b.contains(q) && same_outpoint(p, q) && join_partial_vin(p, q)
                        == Err::<PartialVinView, JoinError>(e);
                assert(q == x);
                assert(a.contains(p) && same_outpoint(x, p));
            }
        }
        assert forall|z: PartialVinView| merged_inputs(a, b).contains(z) <==> a.insert(x).contains(z) by {
            if merged_from(a, b, z) {
                let (p, q) = choose|p: PartialVinView, q: PartialVinView|
                    #![trigger a.contains(p), b.contains(q)]
                    a.contains(p) && b.contains(q) && same_outpoint(p, q) && join_partial_vin(p, q)
                        == Ok::<PartialVinView, JoinError>(z);
                assert(q == x);
                assert(a.contains(p) && same_outpoint(x, p));
            }
            if a.contains(z) && has_partner(z, b) {
                let q = choose|q: PartialVinView| #[trigger] b.contains(q) && same_outpoint(z, q);
                assert(q == x);
                assert(a.contains(z) && same_outpoint(x, z));
            }
        }
        assert(merged_inputs(a, b) =~= a.insert(x));
    }
    if a.contains(x) {
        assert forall|e: JoinError| !input_conflict(a, b, e) by {
            if input_conflict(a, b, e) {
                let (p, q) = choose|p: PartialVinView, q: PartialVinView|
                    #![trigger a.contains(p), b.contains(q)]
                    a.contains(p) && b.contains(q) && same_outpoint(p, q) && join_partial_vin(p, q)
                        == Err::<PartialVinView, JoinError>(e);
                assert(q == x);
                assert(a.contains(p) && a.contains(x));
            }
        }
        assert forall|z: PartialVinView| merged_inputs(a, b).contains(z) <==> a.contains(z) by {
            if merged_from(a, b, z) {
                let (p, q) = choose|p: PartialVinView, q: PartialVinView|
                    #![trigger a.contains(p), b.contains(q)]
                    a.contains(p) && b.contains(q) && same_outpoint(p, q) && join_partial_vin(p, q)
                        == Ok::<PartialVinView, JoinError>(z);
                assert(q == x);
                assert(a.contains(p) && a.contains(x));
            }
            if a.contains(z) {
                if has_partner(z, b) {
                    let q = choose|q: PartialVinView| #[trigger] b.contains(q) && same_outpoint(z, q);
                    assert(q == x);
                    assert(a.contains(z) && a.contains(x));
                    assert(z == x);
                    assert(a.contains(x) && b.contains(x) && same_outpoint(x, x));
                    assert(merged_from(a, b, z));
                }
            }
        }
        assert(merged_inputs(a, b) =~= a);
    }
}

/// The position of an input of `items` that spends the same known outpoint
/// as `p`, if there is one.
fn partner_index(p: &PartialVin, items: &Vec<PartialVin>) -> (r: Option<usize>)
    ensures
        r matches Some(j) ==> j < items@.len() && same_outpoint(p@, items@[j as int]@),
        r is None ==> forall|j: int| 0 <= j < items@.len() ==> !same_outpoint(p@, #[trigger] items@[j]@),
{
    let (txid, vout) = match (&p.previous_output, p.spent_output_index) {
        (Some(t), Some(v)) => (t, v),
        _ => return None,
    };
    let n = items.len();
    let mut j: usize = 0;
    while j < n
        invariant
            n == items@.len(),
            j <= n,
            p@.previous_output == Some(txid@),
            p@.spent_output_index == Some(vout),
            forall|k: int| 0 <= k < j ==> !same_outpoint(p@, #[trigger] items@[k]@),
        decreases n - j,
    {
        match (&items[j].previous_output, items[j].spent_output_index) {
            (Some(t2), Some(v2)) => {
                if v2 == vout && bytes_equal(t2.as_slice(), txid.as_slice()) {
                    return Some(j);
                }
            },
            _ => {},
        }
        j = j + 1;
    }
    None
}

/// Merges two sets of inputs that each hold one input per known outpoint.
pub fn merge_inputs(a: &ValueSet<PartialVin>, b: &ValueSet<PartialVin>) -> (r: Result<
    ValueSet<PartialVin>,
    JoinError,
>)
    requires
        one_per_outpoint(a@),
        one_per_outpoint(b@),
    ensures
        r matches Ok(s) ==> join_input_sets(a@, b@) == Ok::<Set<PartialVinView>, JoinError>(s@),
        r matches Err(e) ==> join_input_sets(a@, b@) == Err::<Set<PartialVinView>, JoinError>(e),
{
    let xs = a.items();
    let ys = b.items();
    let ghost xv = views(xs@);
    let ghost yv = views(ys@);
    let ghost sa = a@;
    let ghost sb = b@;
    let mut out: ValueSet<PartialVin> = ValueSet::new();
    let mut scalar = false;
    let n = xs.len();
    let mut i: usize = 0;
    while i < n
        invariant
            n == xs@.len(),
            xv == views(xs@),
            yv == views(ys@),
            xv.to_set() == sa,
            yv.to_set() == sb,
            one_per_outpoint(sb),
            i <= n,
            forall|w: PartialVinView|
                out@.contains(w) <==> exists|k: int| 0 <= k < i && contributes(#[trigger] xv[k], sb, w),
            scalar <==> exists|k: int| 0 <= k < i && conflicts(#[trigger] xv[k], sb, JoinError::ScalarDisagree),
        decreases n - i,
    {
        let ghost x = xv[i as int];
        assert(xs@[i as int]@ == x);
        match partner_index(&xs[i], ys) {
            Some(j) => {
                let ghost y = yv[j as int];
                assert(ys@[j as int]@ == y);
                assert(sb.contains(y));
                assert forall|y2: PartialVinView| sb.contains(y2) && same_outpoint(x, y2) implies y2 == y by {
                    assert(sb.contains(y) && same_outpoint(y2, y));
                }
                match xs[i].join(&ys[j]) {
                    Ok(z) => {
                        let ghost old_out = out@;
                        out.insert(z);
                        assert forall|e: JoinError| !conflicts(x, sb, e) by {}
                        assert forall|w: PartialVinView|
                            out@.contains(w) <==> exists|k: int| 0 <= k < i + 1 && contributes(#[trigger] xv[k], sb, w) by {
                            if contributes(x, sb, w) {
                                assert(has_partner(x, sb));
                            }
                            if w == z@ {
                                assert(contributes(xv[i as int], sb, w));
                            }
                        }
                    },
                    Err(e) => {
                        assert(conflicts(xv[i as int], sb, e));
                        assert forall|w: PartialVinView| !contributes(x, sb, w) by {
                            assert(has_partner(x, sb));
                        }
                        assert forall|e2: JoinError| conflicts(x, sb, e2) implies e2 == e by {}
                        assert(e == JoinError::ScalarDisagree);
                        scalar = true;
                    },
                }
            },
            None => {
                assert forall|y2: PartialVinView| sb.contains(y2) implies !same_outpoint(x, y2) by {
                    let k = choose|k: int| 0 <= k < yv.len() && yv[k] == y2;
                    assert(ys@[k]@ == y2);
                }
                assert(!has_partner(x, sb));
                assert forall|e: JoinError| !conflicts(x, sb, e) by {}
                let c = xs[i].copy_value();
                out.insert(c);
                assert forall|w: PartialVinView|
                    out@.contains(w) <==> exists|k: int| 0 <= k < i + 1 && contributes(#[trigger] xv[k], sb, w) by {
                    if w == c@ {
                        assert(contributes(xv[i as int], sb, w));
                    }
                }
            },
        }
        i = i + 1;
    }
    let m = ys.len();
    let mut j: usize = 0;
    while j < m
        invariant
            n == xs@.len(),
            m == ys@.len(),
            xv == views(xs@),
            yv == views(ys@),
            xv.to_set() == sa,
            yv.to_set() == sb,
            j <= m,
            forall|w: PartialVinView|
                out@.contains(w) <==> ((exists|k: int| 0 <= k < n && contributes(#[trigger] xv[k], sb, w))
                    || (exists|k: int| 0 <= k < j && !has_partner(#[trigger] yv[k], sa) && w == yv[k])),
        decreases m - j,
    {
        let ghost y = yv[j as int];
        assert(ys@[j as int]@ == y);
        match partner_index(&ys[j], xs) {
            Some(k) => {
                assert(xs@[k as int]@ == xv[k as int]);
                assert(sa.contains(xv[k as int]));
                assert(same_outpoint(y, xv[k as int]));
                assert(has_partner(y, sa));
            },
            None => {
                assert forall|x2: PartialVinView| sa.contains(x2) implies !same_outpoint(y, x2) by {
                    let k = choose|k: int| 0 <= k < xv.len() && xv[k] == x2;
                    assert(xs@[k]@ == x2);
                }
                let c = ys[j].copy_value();
                out.insert(c);
                assert(!has_partner(yv[j as int], sa));
            },
        }
        j = j + 1;
    }
    proof {
        assert forall|e: JoinError|
            input_conflict(sa, sb, e) <==> exists|k: int| 0 <= k < n && conflicts(#[trigger] xv[k], sb, e) by {
            if input_conflict(sa, sb, e) {
                let (x, y) = choose|x: PartialVinView, y: PartialVinView|
                    #![trigger sa.contains(x), sb.contains(y)]
                    sa.contains(x) && sb.contains(y) && same_outpoint(x, y) && join_partial_vin(x, y)
                        == Err::<PartialVinView, JoinError>(e);
                let k = choose|k: int| 0 <= k < xv.len() && xv[k] == x;
                assert(conflicts(xv[k], sb, e));
            }
            if exists|k: int| 0 <= k < n && conflicts(#[trigger] xv[k], sb, e) {
                let k = choose|k: int| 0 <= k < n && conflicts(#[trigger] xv[k], sb, e);
                assert(sa.contains(xv[k]));
            }
        }
        assert forall|w: PartialVinView| out@.contains(w) <==> merged_inputs(sa, sb).contains(w) by {
            if exists|k: int| 0 <= k < n && contributes(#[trigger] xv[k], sb, w) {
                let k = choose|k: int| 0 <= k < n && contributes(#[trigger] xv[k], sb, w);
                assert(sa.contains(xv[k]));
                if !(!has_partner(xv[k], sb) && w == xv[k]) {
                    let y = choose|y: PartialVinView|
                        #[trigger] sb.contains(y) && same_outpoint(xv[k], y) && join_partial_vin(xv[k], y)
                            == Ok::<PartialVinView, JoinError>(w);
                    assert(merged_from(sa, sb, w));
                }
            }
            if exists|k: int| 0 <= k < m && !has_partner(#[trigger] yv[k], sa) && w == yv[k] {
                let k = choose|k: int| 0 <= k < m && !has_partner(#[trigger] yv[k], sa) && w == yv[k];
                assert(sb.contains(yv[k]));
            }
            if sa.contains(w) && !has_partner(w, sb) {
                let k = choose|k: int| 0 <= k < xv.len() && xv[k] == w;
                assert(contributes(xv[k], sb, w));
            }
            if sb.contains(w) && !has_partner(w, sa) {
                let k = choose|k: int| 0 <= k < yv.len() && yv[k] == w;
                assert(!has_partner(yv[k], sa) && w == yv[k]);
            }
            if merged_from(sa, sb, w) {
                let (x, y) = choose|x: PartialVinView, y: PartialVinView|
                    #![trigger sa.contains(x), sb.contains(y)]
                    sa.contains(x) && sb.contains(y) && same_outpoint(x, y) && join_partial_vin(x, y)
                        == Ok::<PartialVinView, JoinError>(w);
                let k = choose|k: int| 0 <= k < xv.len() && xv[k] == x;
                assert(contributes(xv[k], sb, w));
            }
        }
        assert(out@ =~= merged_inputs(sa, sb));
    }
    if scalar {
        Err(JoinError::ScalarDisagree)
    } else {
        Ok(out)
    }
}

} // verus!
