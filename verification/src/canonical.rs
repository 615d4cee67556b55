//! A total order on inputs and outputs that refines the BIP-69 order: two
//! inputs (or outputs) that BIP-69 ties are told apart by all their other
//! fields, maps compared by their entries in key order. A set has exactly
//! one listing in this order, so a rearrangement of that listing depends on
//! the set alone.
use vstd::prelude::*;

use crate::byte_map::{has_key, keys_sorted, lemma_pairs_to_map_index, pairs_to_map, unique_keys};
use crate::byte_map::{pairs_view, ByteMap};
use crate::bytes::{bytes_compare, bytes_copy, bytes_lt, bytes_reversed, lemma_bytes_lt_irreflexive, lemma_bytes_lt_total,
    lemma_bytes_lt_transitive, Order};
use crate::input::{PartialVin, PartialVinView};
use crate::ordering::{opt_reversed, reversed_txid};
use crate::output::{PartialVout, PartialVoutView, TxOut};
use crate::values::{opt_view, views};

verus! {

/// `lt` is a strict total order: irreflexive, transitive, and any two
/// distinct values compare.
pub open spec fn strict_total<V>(lt: spec_fn(V, V) -> bool) -> bool {
    &&& forall|x: V| !#[trigger] lt(x, x)
    &&& forall|x: V, y: V| x != y ==> #[trigger] lt(x, y) || lt(y, x)
    &&& forall|x: V, y: V, z: V| #[trigger] lt(x, y) && #[trigger] lt(y, z) ==> lt(x, z)
}

/// The lexicographic order of sequences that `lt` orders item by item: the
/// first differing item decides, and a proper prefix comes first.
pub open spec fn lex_lt<V>(a: Seq<V>, b: Seq<V>, lt: spec_fn(V, V) -> bool) -> bool
    decreases a.len(),
{
    if a.len() == 0 {
        b.len() > 0
    } else if b.len() == 0 {
        false
    } else if lt(a[0], b[0]) {
        true
    } else if a[0] == b[0] {
        lex_lt(a.drop_first(), b.drop_first(), lt)
    } else {
        false
    }
}

/// No sequence precedes itself.
proof fn lemma_lex_irreflexive<V>(a: Seq<V>, lt: spec_fn(V, V) -> bool)
    requires
        strict_total(lt),
    ensures
        !lex_lt(a, a, lt),
    decreases a.len(),
{
    if a.len() > 0 {
        assert(!lt(a[0], a[0]));
        lemma_lex_irreflexive(a.drop_first(), lt);
    }
}

/// Two distinct sequences compare.
proof fn lemma_lex_total<V>(a: Seq<V>, b: Seq<V>, lt: spec_fn(V, V) -> bool)
    requires
        strict_total(lt),
        a != b,
    ensures
        lex_lt(a, b, lt) || lex_lt(b, a, lt),
    decreases a.len(),
{
    if a.len() > 0 && b.len() > 0 {
        if a[0] == b[0] {
            let ra = a.drop_first();
            let rb = b.drop_first();
            assert(ra.len() == a.len() - 1);
            assert(rb.len() == b.len() - 1);
            if ra == rb {
                assert forall|i: int| 0 <= i < a.len() implies a[i] == b[i] by {
                    if i > 0 {
                        assert(ra[i - 1] == rb[i - 1]);
                    }
                }
                assert(a =~= b);
            }
            lemma_lex_total(ra, rb, lt);
        } else {
            assert(lt(a[0], b[0]) || lt(b[0], a[0]));
        }
    } else if a.len() == 0 && b.len() == 0 {
        assert(a =~= b);
    }
}

/// The lexicographic order is transitive.
proof fn lemma_lex_transitive<V>(a: Seq<V>, b: Seq<V>, c: Seq<V>, lt: spec_fn(V, V) -> bool)
    requires
        strict_total(lt),
        lex_lt(a, b, lt),
        lex_lt(b, c, lt),
    ensures
        lex_lt(a, c, lt),
    decreases a.len(),
{
    if a.len() > 0 && b.len() > 0 && c.len() > 0 {
        if lt(a[0], b[0]) && lt(b[0], c[0]) {
            assert(lt(a[0], c[0]));
        } else if a[0] == b[0] && b[0] == c[0] {
            lemma_lex_transitive(a.drop_first(), b.drop_first(), c.drop_first(), lt);
        }
    }
}

/// The lexicographic order of a strict total order is one too.
pub proof fn lemma_lex_strict_total<V>(lt: spec_fn(V, V) -> bool)
    requires
        strict_total(lt),
    ensures
        strict_total(|a: Seq<V>, b: Seq<V>| lex_lt(a, b, lt)),
{
    let l = |a: Seq<V>, b: Seq<V>| lex_lt(a, b, lt);
    assert forall|x: Seq<V>| !#[trigger] l(x, x) by {
        lemma_lex_irreflexive(x, lt);
    }
    assert forall|x: Seq<V>, y: Seq<V>| x != y implies #[trigger] l(x, y) || l(y, x) by {
        lemma_lex_total(x, y, lt);
    }
    assert forall|x: Seq<V>, y: Seq<V>, z: Seq<V>| #[trigger] l(x, y) && #[trigger] l(y, z) implies l(x, z) by {
        lemma_lex_transitive(x, y, z, lt);
    }
}

/// Map entries in order of key, then of value.
pub open spec fn pair_lt(p: (Seq<u8>, Seq<u8>), q: (Seq<u8>, Seq<u8>)) -> bool {
    bytes_lt(p.0, q.0) || (p.0 == q.0 && bytes_lt(p.1, q.1))
}

/// The order of map entries, as a function value.
pub open spec fn pair_lt_fn() -> spec_fn((Seq<u8>, Seq<u8>), (Seq<u8>, Seq<u8>)) -> bool {
    |p: (Seq<u8>, Seq<u8>), q: (Seq<u8>, Seq<u8>)| pair_lt(p, q)
}

/// The order of map entries is a strict total order.
pub proof fn lemma_pair_strict_total()
    ensures
        strict_total(pair_lt_fn()),
{
    let l = pair_lt_fn();
    assert forall|x: (Seq<u8>, Seq<u8>)| !#[trigger] l(x, x) by {
        lemma_bytes_lt_irreflexive(x.0);
        lemma_bytes_lt_irreflexive(x.1);
    }
    assert forall|x: (Seq<u8>, Seq<u8>), y: (Seq<u8>, Seq<u8>)| x != y implies #[trigger] l(x, y) || l(y, x) by {
        lemma_bytes_lt_total(x.0, y.0);
        lemma_bytes_lt_total(x.1, y.1);
    }
    assert forall|x: (Seq<u8>, Seq<u8>), y: (Seq<u8>, Seq<u8>), z: (Seq<u8>, Seq<u8>)|
        #[trigger] l(x, y) && #[trigger] l(y, z) implies l(x, z) by {
        lemma_bytes_lt_total(x.0, y.0);
        lemma_bytes_lt_total(y.0, z.0);
        lemma_bytes_lt_total(x.0, z.0);
        if bytes_lt(x.0, y.0) && bytes_lt(y.0, z.0) {
            lemma_bytes_lt_transitive(x.0, y.0, z.0);
        }
        if bytes_lt(x.1, y.1) && bytes_lt(y.1, z.1) {
            lemma_bytes_lt_transitive(x.1, y.1, z.1);
        }
    }
}

/// One field of an input or output as the total order compares it: unknown,
/// a number, bytes, an amount with a script, or the entries of a map in key
/// order.
pub enum Part {
    Absent,
    Int(int),
    Bytes(Seq<u8>),
    Output(int, Seq<u8>),
    Entries(Seq<(Seq<u8>, Seq<u8>)>),
}

/// The kinds of fields in the order in which they compare: unknown first.
pub open spec fn part_rank(p: Part) -> int {
    match p {
        Part::Absent => 0,
        Part::Int(_) => 1,
        Part::Bytes(_) => 2,
        Part::Output(_, _) => 3,
        Part::Entries(_) => 4,
    }
}

/// The order of fields: by kind, then by value.
pub open spec fn part_lt(a: Part, b: Part) -> bool {
    match (a, b) {
        (Part::Int(x), Part::Int(y)) => x < y,
        (Part::Bytes(x), Part::Bytes(y)) => bytes_lt(x, y),
        (Part::Output(v, x), Part::Output(w, y)) => v < w || (v == w && bytes_lt(x, y)),
        (Part::Entries(x), Part::Entries(y)) => lex_lt(x, y, pair_lt_fn()),
        _ => part_rank(a) < part_rank(b),
    }
}

/// The order of fields, as a function value.
pub open spec fn part_lt_fn() -> spec_fn(Part, Part) -> bool {
    |a: Part, b: Part| part_lt(a, b)
}

/// The order of fields is a strict total order.
pub proof fn lemma_part_strict_total()
    ensures
        strict_total(part_lt_fn()),
{
    lemma_pair_strict_total();
    lemma_lex_strict_total(pair_lt_fn());
    let e = |a: Seq<(Seq<u8>, Seq<u8>)>, b: Seq<(Seq<u8>, Seq<u8>)>| lex_lt(a, b, pair_lt_fn());
    let l = part_lt_fn();
    assert forall|x: Part| !#[trigger] l(x, x) by {
        match x {
            Part::Bytes(u) => lemma_bytes_lt_irreflexive(u),
            Part::Output(_, u) => lemma_bytes_lt_irreflexive(u),
            Part::Entries(u) => assert(!e(u, u)),
            _ => {},
        }
    }
    assert forall|x: Part, y: Part| x != y implies #[trigger] l(x, y) || l(y, x) by {
        match (x, y) {
            (Part::Bytes(u), Part::Bytes(v)) => lemma_bytes_lt_total(u, v),
            (Part::Output(_, u), Part::Output(_, v)) => lemma_bytes_lt_total(u, v),
            (Part::Entries(u), Part::Entries(v)) => assert(u != v ==> e(u, v) || e(v, u)),
            _ => {},
        }
    }
    assert forall|x: Part, y: Part, z: Part| #[trigger] l(x, y) && #[trigger] l(y, z) implies l(x, z) by {
        match (x, y, z) {
            (Part::Bytes(u), Part::Bytes(v), Part::Bytes(w)) => lemma_bytes_lt_transitive(u, v, w),
            (Part::Output(_, u), Part::Output(_, v), Part::Output(_, w)) => {
                if bytes_lt(u, v) && bytes_lt(v, w) {
                    lemma_bytes_lt_transitive(u, v, w);
                }
            },
            (Part::Entries(u), Part::Entries(v), Part::Entries(w)) => {
                assert(e(u, v) && e(v, w) ==> e(u, w));
            },
            _ => {},
        }
    }
}

/// The order of sequences of fields, as a function value.
pub open spec fn parts_lt(a: Seq<Part>, b: Seq<Part>) -> bool {
    lex_lt(a, b, part_lt_fn())
}

/// The order of sequences of fields is a strict total order.
pub proof fn lemma_parts_strict_total()
    ensures
        strict_total(|a: Seq<Part>, b: Seq<Part>| parts_lt(a, b)),
{
    lemma_part_strict_total();
    lemma_lex_strict_total(part_lt_fn());
    let l1 = |a: Seq<Part>, b: Seq<Part>| parts_lt(a, b);
    let l2 = |a: Seq<Part>, b: Seq<Part>| lex_lt(a, b, part_lt_fn());
    assert(l1 =~= l2);
}

/// The entries of a map in increasing order of key.
pub open spec fn map_listing(m: Map<Seq<u8>, Seq<u8>>) -> Seq<(Seq<u8>, Seq<u8>)> {
    choose|s: Seq<(Seq<u8>, Seq<u8>)>| keys_sorted(s) && pairs_to_map(s) == m
}

/// The map is the map of a list of entries in increasing order of key.
pub open spec fn listable(m: Map<Seq<u8>, Seq<u8>>) -> bool {
    exists|s: Seq<(Seq<u8>, Seq<u8>)>| keys_sorted(s) && pairs_to_map(s) == m
}

/// Keys in increasing order are distinct.
pub proof fn lemma_sorted_keys_unique(s: Seq<(Seq<u8>, Seq<u8>)>)
    requires
        keys_sorted(s),
    ensures
        unique_keys(s),
{
    assert forall|i: int, j: int| 0 <= i < s.len() && 0 <= j < s.len() && i != j implies s[i].0
        != s[j].0 by {
        lemma_bytes_lt_irreflexive(s[i].0);
        if i < j {
            assert(bytes_lt(s[i].0, s[j].0));
        } else {
            assert(bytes_lt(s[j].0, s[i].0));
        }
    }
}

/// Two lists of entries in increasing order of key that stand for the same
/// map are the same list.
pub proof fn lemma_sorted_listing_unique(s1: Seq<(Seq<u8>, Seq<u8>)>, s2: Seq<(Seq<u8>, Seq<u8>)>)
    requires
        keys_sorted(s1),
        keys_sorted(s2),
        pairs_to_map(s1) == pairs_to_map(s2),
    ensures
        s1 == s2,
    decreases s1.len(),
{
    lemma_sorted_keys_unique(s1);
    lemma_sorted_keys_unique(s2);
    let m = pairs_to_map(s1);
    if s1.len() == 0 {
        if s2.len() > 0 {
            lemma_pairs_to_map_index(s2, 0);
            assert(!has_key(s1, s2[0].0));
        }
        assert(s1 =~= s2);
    } else {
        lemma_pairs_to_map_index(s1, 0);
        assert(m.contains_key(s1[0].0));
        assert(has_key(s2, s1[0].0));
        let j = choose|j: int| 0 <= j < s2.len() && s2[j].0 == s1[0].0;
        lemma_pairs_to_map_index(s2, 0);
        assert(has_key(s1, s2[0].0));
        let i = choose|i: int| 0 <= i < s1.len() && s1[i].0 == s2[0].0;
        lemma_bytes_lt_irreflexive(s1[0].0);
        lemma_bytes_lt_total(s1[0].0, s1[i].0);
        if j > 0 {
            assert(bytes_lt(s2[0].0, s2[j].0));
            if i > 0 {
                assert(bytes_lt(s1[0].0, s1[i].0));
            }
            assert(false);
        }
        let k = s1[0].0;
        lemma_pairs_to_map_index(s2, 0);
        assert(s1[0] == s2[0]);
        let t1 = s1.drop_first();
        let t2 = s2.drop_first();
        assert(keys_sorted(t1)) by {
            assert forall|a: int, b: int| 0 <= a < b < t1.len() implies bytes_lt(#[trigger] t1[a].0, #[trigger] t1[b].0) by {
                assert(t1[a] == s1[a + 1] && t1[b] == s1[b + 1]);
            }
        }
        assert(keys_sorted(t2)) by {
            assert forall|a: int, b: int| 0 <= a < b < t2.len() implies bytes_lt(#[trigger] t2[a].0, #[trigger] t2[b].0) by {
                assert(t2[a] == s2[a + 1] && t2[b] == s2[b + 1]);
            }
        }
        lemma_sorted_keys_unique(t1);
        lemma_sorted_keys_unique(t2);
        assert forall|key: Seq<u8>| #[trigger] pairs_to_map(t1).contains_key(key) implies pairs_to_map(t2).contains_key(key)
            && pairs_to_map(t1)[key] == pairs_to_map(t2)[key] by {
            let a = choose|a: int| 0 <= a < t1.len() && t1[a].0 == key;
            lemma_pairs_to_map_index(t1, a);
            assert(t1[a] == s1[a + 1]);
            lemma_pairs_to_map_index(s1, a + 1);
            let b = choose|b: int| 0 <= b < s2.len() && s2[b].0 == key;
            lemma_pairs_to_map_index(s2, b);
            assert(b != 0);
            assert(t2[b - 1] == s2[b]);
            lemma_pairs_to_map_index(t2, b - 1);
        }
        assert forall|key: Seq<u8>| #[trigger] pairs_to_map(t2).contains_key(key) implies pairs_to_map(t1).contains_key(key) by {
            let b = choose|b: int| 0 <= b < t2.len() && t2[b].0 == key;
            assert(t2[b] == s2[b + 1]);
            lemma_pairs_to_map_index(s2, b + 1);
            let a = choose|a: int| 0 <= a < s1.len() && s1[a].0 == key;
            assert(a != 0);
            assert(t1[a - 1] == s1[a]);
        }
        assert(pairs_to_map(t1) =~= pairs_to_map(t2));
        lemma_sorted_listing_unique(t1, t2);
        assert forall|a: int| 0 <= a < s1.len() implies s1[a] == s2[a] by {
            if a > 0 {
                assert(s1[a] == t1[a - 1]);
                assert(s2[a] == t2[a - 1]);
            }
        }
        assert(s1 =~= s2);
    }
}

/// A list of entries in increasing order of key is the listing of its map.
pub proof fn lemma_map_listing(s: Seq<(Seq<u8>, Seq<u8>)>)
    requires
        keys_sorted(s),
    ensures
        listable(pairs_to_map(s)),
        map_listing(pairs_to_map(s)) == s,
{
    let l = map_listing(pairs_to_map(s));
    lemma_sorted_listing_unique(l, s);
}

/// A listable map is the map of its listing.
pub proof fn lemma_listing_of_listable(m: Map<Seq<u8>, Seq<u8>>)
    requires
        listable(m),
    ensures
        keys_sorted(map_listing(m)),
        pairs_to_map(map_listing(m)) == m,
{
}

/// A type whose values a strict total order on their views compares.
pub trait Ordered: View + Sized {
    /// The order, as a function value.
    spec fn lt_fn() -> spec_fn(Self::V, Self::V) -> bool;

    /// The order is a strict total order.
    proof fn lemma_lt_strict_total()
        ensures
            strict_total(Self::lt_fn()),
    ;

    /// Compares two values.
    fn compare(&self, other: &Self) -> (r: Order)
        ensures
            (r == Order::Equal) == (self@ == other@),
            (r == Order::Less) == (Self::lt_fn())(self@, other@),
            (r == Order::Greater) == (Self::lt_fn())(other@, self@),
    ;
}

/// Compares two lists in the lexicographic order of their items.
pub fn lex_compare<T: Ordered>(a: &Vec<T>, b: &Vec<T>) -> (r: Order)
    ensures
        (r == Order::Equal) == (views(a@) == views(b@)),
        (r == Order::Less) == lex_lt(views(a@), views(b@), T::lt_fn()),
        (r == Order::Greater) == lex_lt(views(b@), views(a@), T::lt_fn()),
{
    proof {
        T::lemma_lt_strict_total();
        lemma_lex_strict_total(T::lt_fn());
    }
    let ghost va = views(a@);
    let ghost vb = views(b@);
    let ghost lt = T::lt_fn();
    let na = a.len();
    let nb = b.len();
    let mut i: usize = 0;
    assert(va.skip(0) =~= va);
    assert(vb.skip(0) =~= vb);
    while i < na && i < nb
        invariant
            na == a@.len(),
            nb == b@.len(),
            va == views(a@),
            vb == views(b@),
            lt == T::lt_fn(),
            i <= na,
            i <= nb,
            va.take(i as int) == vb.take(i as int),
            lex_lt(va, vb, lt) == lex_lt(va.skip(i as int), vb.skip(i as int), lt),
            lex_lt(vb, va, lt) == lex_lt(vb.skip(i as int), va.skip(i as int), lt),
        decreases na - i,
    {
        let c = a[i].compare(&b[i]);
        proof {
            assert(va.skip(i as int)[0] == va[i as int]);
            assert(vb.skip(i as int)[0] == vb[i as int]);
            assert(va[i as int] == a@[i as int]@);
            assert(vb[i as int] == b@[i as int]@);
        }
        match c {
            Order::Less => {
                proof {
                    assert(!lt(vb[i as int], va[i as int]));
                    assert(va != vb) by {
                        assert(va[i as int] != vb[i as int]);
                    }
                }
                return Order::Less;
            },
            Order::Greater => {
                proof {
                    assert(va != vb) by {
                        assert(va[i as int] != vb[i as int]);
                    }
                }
                return Order::Greater;
            },
            Order::Equal => {},
        }
        proof {
            assert(va.skip(i as int).drop_first() =~= va.skip(i + 1));
            assert(vb.skip(i as int).drop_first() =~= vb.skip(i + 1));
            assert(va.take(i + 1) =~= va.take(i as int).push(va[i as int]));
            assert(vb.take(i + 1) =~= vb.take(i as int).push(vb[i as int]));
        }
        i = i + 1;
    }
    if na == nb {
        assert(va =~= va.take(i as int));
        assert(vb =~= vb.take(i as int));
        Order::Equal
    } else if na < nb {
        assert(va.skip(i as int).len() == 0);
        assert(va != vb) by {
            assert(va.len() != vb.len());
        }
        Order::Less
    } else {
        assert(vb.skip(i as int).len() == 0);
        assert(va != vb) by {
            assert(va.len() != vb.len());
        }
        Order::Greater
    }
}

impl Ordered for (Vec<u8>, Vec<u8>) {
    open spec fn lt_fn() -> spec_fn((Seq<u8>, Seq<u8>), (Seq<u8>, Seq<u8>)) -> bool {
        pair_lt_fn()
    }

    proof fn lemma_lt_strict_total() {
        lemma_pair_strict_total();
    }

    fn compare(&self, other: &Self) -> (r: Order) {
        proof {
            lemma_bytes_lt_total(self.0@, other.0@);
            lemma_bytes_lt_total(self.1@, other.1@);
            lemma_bytes_lt_irreflexive(self.0@);
            lemma_bytes_lt_irreflexive(self.1@);
        }
        match bytes_compare(self.0.as_slice(), other.0.as_slice()) {
            Order::Equal => bytes_compare(self.1.as_slice(), other.1.as_slice()),
            c => c,
        }
    }
}

/// A field of an input or output, held to be compared.
pub enum FieldValue {
    Absent,
    Int(u64),
    Bytes(Vec<u8>),
    Output(u64, Vec<u8>),
    Entries(Vec<(Vec<u8>, Vec<u8>)>),
}

impl View for FieldValue {
    type V = Part;

    open spec fn view(&self) -> Part {
        match self {
            FieldValue::Absent => Part::Absent,
            FieldValue::Int(x) => Part::Int(*x as int),
            FieldValue::Bytes(b) => Part::Bytes(b@),
            FieldValue::Output(v, b) => Part::Output(*v as int, b@),
            FieldValue::Entries(e) => Part::Entries(views(e@)),
        }
    }
}

/// The rank of the kind of a field.
fn rank_of(p: &FieldValue) -> (r: u8)
    ensures
        r as int == part_rank(p@),
{
    match p {
        FieldValue::Absent => 0,
        FieldValue::Int(_) => 1,
        FieldValue::Bytes(_) => 2,
        FieldValue::Output(_, _) => 3,
        FieldValue::Entries(_) => 4,
    }
}

impl Ordered for FieldValue {
    open spec fn lt_fn() -> spec_fn(Part, Part) -> bool {
        part_lt_fn()
    }

    proof fn lemma_lt_strict_total() {
        lemma_part_strict_total();
    }

    fn compare(&self, other: &Self) -> (r: Order) {
        proof {
            lemma_part_strict_total();
        }
        match (self, other) {
            (FieldValue::Int(x), FieldValue::Int(y)) => {
                if *x < *y {
                    Order::Less
                } else if *x == *y {
                    Order::Equal
                } else {
                    Order::Greater
                }
            },
            (FieldValue::Bytes(x), FieldValue::Bytes(y)) => {
                proof {
                    lemma_bytes_lt_total(x@, y@);
                }
                bytes_compare(x.as_slice(), y.as_slice())
            },
            (FieldValue::Output(v, x), FieldValue::Output(w, y)) => {
                proof {
                    lemma_bytes_lt_total(x@, y@);
                }
                if *v < *w {
                    Order::Less
                } else if *v > *w {
                    Order::Greater
                } else {
                    bytes_compare(x.as_slice(), y.as_slice())
                }
            },
            (FieldValue::Entries(x), FieldValue::Entries(y)) => lex_compare(x, y),
            (FieldValue::Absent, FieldValue::Absent) => Order::Equal,
            _ => {
                let (ra, rb) = (rank_of(self), rank_of(other));
                if ra < rb {
                    Order::Less
                } else {
                    Order::Greater
                }
            },
        }
    }
}

/// An optional 32-bit number as a field.
pub open spec fn u32_part(o: Option<u32>) -> Part {
    match o {
        Some(x) => Part::Int(x as int),
        None => Part::Absent,
    }
}

/// An optional 64-bit number as a field.
pub open spec fn u64_part(o: Option<u64>) -> Part {
    match o {
        Some(x) => Part::Int(x as int),
        None => Part::Absent,
    }
}

/// An optional byte string as a field.
pub open spec fn bytes_part(o: Option<Seq<u8>>) -> Part {
    match o {
        Some(x) => Part::Bytes(x),
        None => Part::Absent,
    }
}

/// An optional transaction output as a field.
pub open spec fn output_part(o: Option<(u64, Seq<u8>)>) -> Part {
    match o {
        Some(x) => Part::Output(x.0 as int, x.1),
        None => Part::Absent,
    }
}

/// A map as a field: its entries in key order.
pub open spec fn map_part(m: Map<Seq<u8>, Seq<u8>>) -> Part {
    Part::Entries(map_listing(m))
}

/// Transaction ids with equal reversed bytes are equal.
pub proof fn lemma_opt_reversed_injective(a: Option<Seq<u8>>, b: Option<Seq<u8>>)
    requires
        opt_reversed(a) == opt_reversed(b),
    ensures
        a == b,
{
    if let (Some(x), Some(y)) = (a, b) {
        assert(bytes_reversed(x).len() == x.len());
        assert forall|k: int| 0 <= k < x.len() implies x[k] == y[k] by {
            assert(bytes_reversed(x)[x.len() - 1 - k] == x[k]);
            assert(bytes_reversed(y)[y.len() - 1 - k] == y[k]);
        }
        assert(x =~= y);
    }
}

fn u32_field(o: Option<u32>) -> (r: FieldValue)
    ensures
        r@ == u32_part(o),
{
    match o {
        Some(x) => FieldValue::Int(x as u64),
        None => FieldValue::Absent,
    }
}

fn u64_field(o: Option<u64>) -> (r: FieldValue)
    ensures
        r@ == u64_part(o),
{
    match o {
        Some(x) => FieldValue::Int(x),
        None => FieldValue::Absent,
    }
}

fn bytes_field(o: &Option<Vec<u8>>) -> (r: FieldValue)
    ensures
        r@ == bytes_part(opt_view(*o)),
{
    match o {
        Some(x) => FieldValue::Bytes(bytes_copy(x)),
        None => FieldValue::Absent,
    }
}

fn output_field(o: &Option<TxOut>) -> (r: FieldValue)
    ensures
        r@ == output_part(opt_view(*o)),
{
    match o {
        Some(x) => FieldValue::Output(x.value, bytes_copy(&x.script_pubkey)),
        None => FieldValue::Absent,
    }
}

fn map_field(m: &ByteMap) -> (r: FieldValue)
    ensures
        r@ == map_part(m@),
        listable(m@),
{
    let e = m.to_entries();
    proof {
        assert(views(e@) =~= pairs_view(e@));
        lemma_map_listing(pairs_view(e@));
    }
    FieldValue::Entries(e)
}

/// The fields of a partial input in the order in which they are compared:
/// the BIP-69 key first (the txid as displayed, then the output index),
/// then every other field.
pub open spec fn vin_parts(a: PartialVinView) -> Seq<Part> {
    seq![
        bytes_part(opt_reversed(a.previous_output)),
        u32_part(a.spent_output_index),
        u32_part(a.data.sequence),
        u32_part(a.data.min_time),
        u32_part(a.data.min_height),
        bytes_part(a.data.non_witness_utxo),
        output_part(a.data.witness_utxo),
        map_part(a.data.partial_sigs),
        u32_part(a.data.sighash_type),
        bytes_part(a.data.redeem_script),
        bytes_part(a.data.witness_script),
        map_part(a.data.bip32_derivations),
        bytes_part(a.data.final_script_sig),
        bytes_part(a.data.final_script_witness),
        map_part(a.data.ripemd160_preimages),
        map_part(a.data.sha256_preimages),
        map_part(a.data.hash160_preimages),
        map_part(a.data.hash256_preimages),
        bytes_part(a.data.tap_key_sig),
        map_part(a.data.tap_script_sigs),
        map_part(a.data.tap_scripts),
        map_part(a.data.tap_key_origins),
        bytes_part(a.data.tap_internal_key),
        bytes_part(a.data.tap_merkle_root),
        map_part(a.data.proprietaries),
        map_part(a.data.unknowns),
    ]
}

/// Every map of the partial input has a listing in key order, as the maps
/// of a [`PartialVin`] always do.
pub open spec fn vin_listable(a: PartialVinView) -> bool {
    &&& listable(a.data.partial_sigs)
    &&& listable(a.data.bip32_derivations)
    &&& listable(a.data.ripemd160_preimages)
    &&& listable(a.data.sha256_preimages)
    &&& listable(a.data.hash160_preimages)
    &&& listable(a.data.hash256_preimages)
    &&& listable(a.data.tap_script_sigs)
    &&& listable(a.data.tap_scripts)
    &&& listable(a.data.tap_key_origins)
    &&& listable(a.data.proprietaries)
    &&& listable(a.data.unknowns)
}

/// The fields of a partial output in the order in which they are compared:
/// the BIP-69 key first (the amount, then the script), then every other
/// field.
pub open spec fn vout_parts(a: PartialVoutView) -> Seq<Part> {
    seq![
        u64_part(a.value),
        bytes_part(a.script_pubkey),
        bytes_part(a.data.redeem_script),
        bytes_part(a.data.witness_script),
        map_part(a.data.bip32_derivations),
        bytes_part(a.data.tap_internal_key),
        bytes_part(a.data.tap_tree),
        map_part(a.data.tap_key_origins),
        map_part(a.data.proprietaries),
        map_part(a.data.unknowns),
    ]
}

/// Every map of the partial output has a listing in key order, as the maps
/// of a [`PartialVout`] always do.
pub open spec fn vout_listable(a: PartialVoutView) -> bool {
    &&& listable(a.data.bip32_derivations)
    &&& listable(a.data.tap_key_origins)
    &&& listable(a.data.proprietaries)
    &&& listable(a.data.unknowns)
}

/// Partial inputs whose maps have listings and whose fields compare equal
/// are equal.
pub proof fn lemma_vin_parts_injective(a: PartialVinView, b: PartialVinView)
    requires
        vin_listable(a),
        vin_listable(b),
        vin_parts(a) == vin_parts(b),
    ensures
        a == b,
{
    let (pa, pb) = (vin_parts(a), vin_parts(b));
    assert(pa[0] == pb[0]);
    assert(pa[1] == pb[1]);
    assert(pa[2] == pb[2]);
    assert(pa[3] == pb[3]);
    assert(pa[4] == pb[4]);
    assert(pa[5] == pb[5]);
    assert(pa[6] == pb[6]);
    assert(pa[7] == pb[7]);
    assert(pa[8] == pb[8]);
    assert(pa[9] == pb[9]);
    assert(pa[10] == pb[10]);
    assert(pa[11] == pb[11]);
    assert(pa[12] == pb[12]);
    assert(pa[13] == pb[13]);
    assert(pa[14] == pb[14]);
    assert(pa[15] == pb[15]);
    assert(pa[16] == pb[16]);
    assert(pa[17] == pb[17]);
    assert(pa[18] == pb[18]);
    assert(pa[19] == pb[19]);
    assert(pa[20] == pb[20]);
    assert(pa[21] == pb[21]);
    assert(pa[22] == pb[22]);
    assert(pa[23] == pb[23]);
    assert(pa[24] == pb[24]);
    assert(pa[25] == pb[25]);
    lemma_opt_reversed_injective(a.previous_output, b.previous_output);
    lemma_listing_of_listable(a.data.partial_sigs);
    lemma_listing_of_listable(b.data.partial_sigs);
    lemma_listing_of_listable(a.data.bip32_derivations);
    lemma_listing_of_listable(b.data.bip32_derivations);
    lemma_listing_of_listable(a.data.ripemd160_preimages);
    lemma_listing_of_listable(b.data.ripemd160_preimages);
    lemma_listing_of_listable(a.data.sha256_preimages);
    lemma_listing_of_listable(b.data.sha256_preimages);
    lemma_listing_of_listable(a.data.hash160_preimages);
    lemma_listing_of_listable(b.data.hash160_preimages);
    lemma_listing_of_listable(a.data.hash256_preimages);
    lemma_listing_of_listable(b.data.hash256_preimages);
    lemma_listing_of_listable(a.data.tap_script_sigs);
    lemma_listing_of_listable(b.data.tap_script_sigs);
    lemma_listing_of_listable(a.data.tap_scripts);
    lemma_listing_of_listable(b.data.tap_scripts);
    lemma_listing_of_listable(a.data.tap_key_origins);
    lemma_listing_of_listable(b.data.tap_key_origins);
    lemma_listing_of_listable(a.data.proprietaries);
    lemma_listing_of_listable(b.data.proprietaries);
    lemma_listing_of_listable(a.data.unknowns);
    lemma_listing_of_listable(b.data.unknowns);
    assert(a.data == b.data);
}

/// Partial outputs whose maps have listings and whose fields compare equal
/// are equal.
pub proof fn lemma_vout_parts_injective(a: PartialVoutView, b: PartialVoutView)
    requires
        vout_listable(a),
        vout_listable(b),
        vout_parts(a) == vout_parts(b),
    ensures
        a == b,
{
    let (pa, pb) = (vout_parts(a), vout_parts(b));
    assert(pa[0] == pb[0]);
    assert(pa[1] == pb[1]);
    assert(pa[2] == pb[2]);
    assert(pa[3] == pb[3]);
    assert(pa[4] == pb[4]);
    assert(pa[5] == pb[5]);
    assert(pa[6] == pb[6]);
    assert(pa[7] == pb[7]);
    assert(pa[8] == pb[8]);
    assert(pa[9] == pb[9]);
    lemma_listing_of_listable(a.data.bip32_derivations);
    lemma_listing_of_listable(b.data.bip32_derivations);
    lemma_listing_of_listable(a.data.tap_key_origins);
    lemma_listing_of_listable(b.data.tap_key_origins);
    lemma_listing_of_listable(a.data.proprietaries);
    lemma_listing_of_listable(b.data.proprietaries);
    lemma_listing_of_listable(a.data.unknowns);
    lemma_listing_of_listable(b.data.unknowns);
    assert(a.data == b.data);
}

/// The fields of a partial input, held to be compared.
pub fn vin_fields(p: &PartialVin) -> (r: Vec<FieldValue>)
    ensures
        views(r@) == vin_parts(p@),
        vin_listable(p@),
{
    let mut r: Vec<FieldValue> = Vec::new();
    r.push(bytes_field(&reversed_txid(&p.previous_output)));
    r.push(u32_field(p.spent_output_index));
    r.push(u32_field(p.data.sequence));
    r.push(u32_field(p.data.min_time));
    r.push(u32_field(p.data.min_height));
    r.push(bytes_field(&p.data.non_witness_utxo));
    r.push(output_field(&p.data.witness_utxo));
    r.push(map_field(&p.data.partial_sigs));
    r.push(u32_field(p.data.sighash_type));
    r.push(bytes_field(&p.data.redeem_script));
    r.push(bytes_field(&p.data.witness_script));
    r.push(map_field(&p.data.bip32_derivations));
    r.push(bytes_field(&p.data.final_script_sig));
    r.push(bytes_field(&p.data.final_script_witness));
    r.push(map_field(&p.data.ripemd160_preimages));
    r.push(map_field(&p.data.sha256_preimages));
    r.push(map_field(&p.data.hash160_preimages));
    r.push(map_field(&p.data.hash256_preimages));
    r.push(bytes_field(&p.data.tap_key_sig));
    r.push(map_field(&p.data.tap_script_sigs));
    r.push(map_field(&p.data.tap_scripts));
    r.push(map_field(&p.data.tap_key_origins));
    r.push(bytes_field(&p.data.tap_internal_key));
    r.push(bytes_field(&p.data.tap_merkle_root));
    r.push(map_field(&p.data.proprietaries));
    r.push(map_field(&p.data.unknowns));
    assert(views(r@) =~= vin_parts(p@));
    r
}

/// The fields of a partial output, held to be compared.
pub fn vout_fields(p: &PartialVout) -> (r: Vec<FieldValue>)
    ensures
        views(r@) == vout_parts(p@),
        vout_listable(p@),
{
    let mut r: Vec<FieldValue> = Vec::new();
    r.push(u64_field(p.value));
    r.push(bytes_field(&p.script_pubkey));
    r.push(bytes_field(&p.data.redeem_script));
    r.push(bytes_field(&p.data.witness_script));
    r.push(map_field(&p.data.bip32_derivations));
    r.push(bytes_field(&p.data.tap_internal_key));
    r.push(bytes_field(&p.data.tap_tree));
    r.push(map_field(&p.data.tap_key_origins));
    r.push(map_field(&p.data.proprietaries));
    r.push(map_field(&p.data.unknowns));
    assert(views(r@) =~= vout_parts(p@));
    r
}

} // verus!
