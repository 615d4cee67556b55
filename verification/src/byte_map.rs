//! Maps from byte strings to byte strings: the key-value records of a PSBT
//! (signatures by public key, derivations, preimages, proprietary and
//! unknown entries) in their serialized form. Two maps join to their union
//! when they agree on every key they share.
use vstd::prelude::*;

use crate::bytes::{bytes_compare, bytes_copy, bytes_equal, bytes_lt, bytes_order,
    lemma_bytes_lt_irreflexive, lemma_bytes_lt_total, lemma_bytes_lt_transitive, Order};
use crate::values::{and_then, IdempotentValue};
use crate::{Join, JoinError};

verus! {

/// The entries of an association list, seen through the views of their bytes.
pub open spec fn pairs_view(s: Seq<(Vec<u8>, Vec<u8>)>) -> Seq<(Seq<u8>, Seq<u8>)> {
    s.map_values(|e: (Vec<u8>, Vec<u8>)| (e.0@, e.1@))
}

/// No key occurs twice in the association list.
pub open spec fn unique_keys(s: Seq<(Seq<u8>, Seq<u8>)>) -> bool {
    forall|i: int, j: int| 0 <= i < s.len() && 0 <= j < s.len() && i != j ==> s[i].0 != s[j].0
}

/// The keys of the association list increase strictly, in the
/// lexicographic order of bytes.
pub open spec fn keys_sorted(s: Seq<(Seq<u8>, Seq<u8>)>) -> bool {
    forall|i: int, j: int| 0 <= i < j < s.len() ==> bytes_lt(#[trigger] s[i].0, #[trigger] s[j].0)
}

/// Whether a key occurs in the association list.
pub open spec fn has_key(s: Seq<(Seq<u8>, Seq<u8>)>, k: Seq<u8>) -> bool {
    exists|i: int| 0 <= i < s.len() && s[i].0 == k
}

/// The map that an association list stands for.
pub open spec fn pairs_to_map(s: Seq<(Seq<u8>, Seq<u8>)>) -> Map<Seq<u8>, Seq<u8>> {
    Map::new(
        |k: Seq<u8>| has_key(s, k),
        |k: Seq<u8>| s[choose|i: int| 0 <= i < s.len() && s[i].0 == k].1,
    )
}

/// Two maps that hold the same value under every key they share.
pub open spec fn maps_agree<K, V>(a: Map<K, V>, b: Map<K, V>) -> bool {
    forall|k: K| a.contains_key(k) && b.contains_key(k) ==> a[k] == b[k]
}

/// The map holds the entry.
pub open spec fn entry_in(m: Map<Seq<u8>, Seq<u8>>, e: (Seq<u8>, Seq<u8>)) -> bool {
    m.contains_key(e.0) && m[e.0] == e.1
}

/// The join of two maps: their union where they agree, a key collision
/// otherwise.
pub open spec fn join_map<K, V>(a: Map<K, V>, b: Map<K, V>) -> Result<Map<K, V>, JoinError> {
    if maps_agree(a, b) {
        Ok(a.union_prefer_right(b))
    } else {
        Err(JoinError::StructuralMismatch)
    }
}

/// In a list without repeated keys, the map holds each entry's value under
/// its key.
pub proof fn lemma_pairs_to_map_index(s: Seq<(Seq<u8>, Seq<u8>)>, i: int)
    requires
        unique_keys(s),
        0 <= i < s.len(),
    ensures
        pairs_to_map(s).contains_key(s[i].0),
        pairs_to_map(s)[s[i].0] == s[i].1,
{
    assert(has_key(s, s[i].0));
    let j = choose|j: int| 0 <= j < s.len() && s[j].0 == s[i].0;
    assert(j == i);
}

/// The empty list stands for the empty map.
pub proof fn lemma_pairs_to_map_empty()
    ensures
        pairs_to_map(Seq::<(Seq<u8>, Seq<u8>)>::empty()) == Map::<Seq<u8>, Seq<u8>>::empty(),
{
    assert(pairs_to_map(Seq::<(Seq<u8>, Seq<u8>)>::empty()) =~= Map::<Seq<u8>, Seq<u8>>::empty());
}

/// Appending an entry with a new key inserts it into the map.
pub proof fn lemma_pairs_to_map_push(s: Seq<(Seq<u8>, Seq<u8>)>, k: Seq<u8>, v: Seq<u8>)
    requires
        unique_keys(s),
        !has_key(s, k),
    ensures
        unique_keys(s.push((k, v))),
        pairs_to_map(s.push((k, v))) == pairs_to_map(s).insert(k, v),
{
    let t = s.push((k, v));
    assert(unique_keys(t));
    assert forall|key: Seq<u8>| #[trigger] pairs_to_map(t).contains_key(key) implies pairs_to_map(
        s,
    ).insert(k, v).contains_key(key) && pairs_to_map(t)[key] == pairs_to_map(s).insert(k, v)[key] by {
        let i = choose|i: int| 0 <= i < t.len() && t[i].0 == key;
        lemma_pairs_to_map_index(t, i);
        if i < s.len() {
            assert(s[i] == t[i]);
            lemma_pairs_to_map_index(s, i);
        }
    }
    assert forall|key: Seq<u8>| #[trigger] pairs_to_map(s).insert(k, v).contains_key(key)
        implies pairs_to_map(t).contains_key(key) by {
        if key == k {
            assert(t[s.len() as int].0 == k);
        } else {
            let i = choose|i: int| 0 <= i < s.len() && s[i].0 == key;
            assert(t[i] == s[i]);
        }
    }
    assert(pairs_to_map(t) =~= pairs_to_map(s).insert(k, v));
}

/// Inserting an entry with a new key at any position inserts it into the
/// map.
pub proof fn lemma_pairs_to_map_insert(s: Seq<(Seq<u8>, Seq<u8>)>, i: int, k: Seq<u8>, v: Seq<u8>)
    requires
        unique_keys(s),
        !has_key(s, k),
        0 <= i <= s.len(),
    ensures
        unique_keys(s.insert(i, (k, v))),
        pairs_to_map(s.insert(i, (k, v))) == pairs_to_map(s).insert(k, v),
{
    let t = s.insert(i, (k, v));
    assert forall|a: int, b: int| 0 <= a < t.len() && 0 <= b < t.len() && a != b implies t[a].0
        != t[b].0 by {
        if a != i && b != i {
            let sa = if a < i { a } else { a - 1 };
            let sb = if b < i { b } else { b - 1 };
            assert(t[a] == s[sa]);
            assert(t[b] == s[sb]);
        } else if a == i {
            let sb = if b < i { b } else { b - 1 };
            assert(t[b] == s[sb]);
        } else {
            let sa = if a < i { a } else { a - 1 };
            assert(t[a] == s[sa]);
        }
    }
    assert forall|key: Seq<u8>| #[trigger] pairs_to_map(t).contains_key(key) implies pairs_to_map(
        s,
    ).insert(k, v).contains_key(key) && pairs_to_map(t)[key] == pairs_to_map(s).insert(k, v)[key] by {
        let j = choose|j: int| 0 <= j < t.len() && t[j].0 == key;
        lemma_pairs_to_map_index(t, j);
        if j != i {
            let sj = if j < i { j } else { j - 1 };
            assert(t[j] == s[sj]);
            lemma_pairs_to_map_index(s, sj);
        }
    }
    assert forall|key: Seq<u8>| #[trigger] pairs_to_map(s).insert(k, v).contains_key(key)
        implies pairs_to_map(t).contains_key(key) by {
        if key == k {
            assert(t[i].0 == k);
        } else {
            let j = choose|j: int| 0 <= j < s.len() && s[j].0 == key;
            let tj = if j < i { j } else { j + 1 };
            assert(t[tj] == s[j]);
        }
    }
    assert(pairs_to_map(t) =~= pairs_to_map(s).insert(k, v));
}

/// Replacing the value of an entry updates the map under that entry's key.
pub proof fn lemma_pairs_to_map_update(s: Seq<(Seq<u8>, Seq<u8>)>, i: int, v: Seq<u8>)
    requires
        unique_keys(s),
        0 <= i < s.len(),
    ensures
        unique_keys(s.update(i, (s[i].0, v))),
        pairs_to_map(s.update(i, (s[i].0, v))) == pairs_to_map(s).insert(s[i].0, v),
{
    let k = s[i].0;
    let t = s.update(i, (k, v));
    assert(unique_keys(t));
    assert forall|key: Seq<u8>| #[trigger] pairs_to_map(t).contains_key(key) implies pairs_to_map(
        s,
    ).insert(k, v).contains_key(key) && pairs_to_map(t)[key] == pairs_to_map(s).insert(k, v)[key] by {
        let j = choose|j: int| 0 <= j < t.len() && t[j].0 == key;
        lemma_pairs_to_map_index(t, j);
        if j != i {
            lemma_pairs_to_map_index(s, j);
        }
    }
    assert forall|key: Seq<u8>| #[trigger] pairs_to_map(s).insert(k, v).contains_key(key)
        implies pairs_to_map(t).contains_key(key) by {
        if key == k {
            assert(t[i].0 == k);
        } else {
            let j = choose|j: int| 0 <= j < s.len() && s[j].0 == key;
            assert(t[j] == s[j]);
        }
    }
    assert(pairs_to_map(t) =~= pairs_to_map(s).insert(k, v));
}

/// Joining a map with itself gives it back.
pub proof fn lemma_join_map_idempotent<K, V>(a: Map<K, V>)
    ensures
        join_map(a, a) == Ok::<Map<K, V>, JoinError>(a),
{
    assert(a.union_prefer_right(a) =~= a);
}

/// The join of maps does not depend on the order of its arguments.
pub proof fn lemma_join_map_commutative<K, V>(a: Map<K, V>, b: Map<K, V>)
    ensures
        join_map(a, b) == join_map(b, a),
{
    if maps_agree(a, b) {
        assert(a.union_prefer_right(b) =~= b.union_prefer_right(a));
    }
}

/// The join of maps does not depend on how three of them are grouped.
pub proof fn lemma_join_map_associative<K, V>(a: Map<K, V>, b: Map<K, V>, c: Map<K, V>)
    ensures
        and_then(join_map(a, b), |ab: Map<K, V>| join_map(ab, c)) == and_then(
            join_map(b, c),
            |bc: Map<K, V>| join_map(a, bc),
        ),
{
    let ab = a.union_prefer_right(b);
    let bc = b.union_prefer_right(c);
    if maps_agree(a, b) && maps_agree(ab, c) {
        assert(maps_agree(b, c));
        assert(maps_agree(a, bc));
        assert(ab.union_prefer_right(c) =~= a.union_prefer_right(bc));
    } else if maps_agree(b, c) && maps_agree(a, bc) {
        assert(maps_agree(a, b));
        assert(maps_agree(ab, c));
    }
}

/// The join of two maps keeps every entry of both.
pub proof fn lemma_join_map_upper_bound<K, V>(a: Map<K, V>, b: Map<K, V>)
    ensures
        join_map(a, b) is Ok ==> a.submap_of(join_map(a, b)->Ok_0) && b.submap_of(
            join_map(a, b)->Ok_0,
        ),
        join_map(a, b) is Ok ==> join_map(a, b)->Ok_0.dom() == a.dom() + b.dom(),
{
    if maps_agree(a, b) {
        assert(a.union_prefer_right(b).dom() =~= a.dom() + b.dom());
    }
}

/// Whatever map holds the entries of two maps holds those of their join,
/// which then exists: the join is their least upper bound among maps
/// ordered by inclusion.
pub proof fn lemma_join_map_least<K, V>(a: Map<K, V>, b: Map<K, V>, c: Map<K, V>)
    requires
        a.submap_of(c),
        b.submap_of(c),
    ensures
        join_map(a, b) is Ok,
        join_map(a, b)->Ok_0.submap_of(c),
{
    assert(maps_agree(a, b)) by {
        assert forall|k: K| a.contains_key(k) && b.contains_key(k) implies a[k] == b[k] by {
            assert(c.contains_key(k));
        }
    }
}

/// A finite map from byte strings to byte strings.
#[derive(Debug, PartialEq, Eq, Hash)]
pub struct ByteMap {
    entries: Vec<(Vec<u8>, Vec<u8>)>,
}

impl View for ByteMap {
    type V = Map<Seq<u8>, Seq<u8>>;

    closed spec fn view(&self) -> Map<Seq<u8>, Seq<u8>> {
        pairs_to_map(pairs_view(self.entries@))
    }
}

impl ByteMap {
    #[verifier::type_invariant]
    closed spec fn keys_unique(self) -> bool {
        &&& unique_keys(pairs_view(self.entries@))
        &&& keys_sorted(pairs_view(self.entries@))
    }

    /// The entries of the map, each key once.
    pub closed spec fn pairs(&self) -> Seq<(Seq<u8>, Seq<u8>)> {
        pairs_view(self.entries@)
    }

    /// The empty map.
    pub fn new() -> (r: Self)
        ensures
            r@ == Map::<Seq<u8>, Seq<u8>>::empty(),
    {
        proof {
            lemma_pairs_to_map_empty();
            assert(pairs_view(Seq::<(Vec<u8>, Vec<u8>)>::empty()) =~= Seq::empty());
        }
        ByteMap { entries: Vec::new() }
    }

    /// The entries of the map, each key once.
    pub fn entries(&self) -> (r: &Vec<(Vec<u8>, Vec<u8>)>)
        ensures
            pairs_view(r@) == self.pairs(),
            unique_keys(pairs_view(r@)),
            keys_sorted(pairs_view(r@)),
            pairs_to_map(pairs_view(r@)) == self@,
    {
        proof {
            use_type_invariant(self);
        }
        &self.entries
    }

    /// A copy of the entries, in increasing order of key.
    pub fn to_entries(&self) -> (r: Vec<(Vec<u8>, Vec<u8>)>)
        ensures
            pairs_view(r@) == self.pairs(),
            keys_sorted(pairs_view(r@)),
            pairs_to_map(pairs_view(r@)) == self@,
    {
        proof {
            use_type_invariant(self);
        }
        let c = self.copy();
        let ByteMap { entries } = c;
        entries
    }

    /// Whether the map is empty.
    pub fn is_empty(&self) -> (r: bool)
        ensures
            r == (self@ == Map::<Seq<u8>, Seq<u8>>::empty()),
    {
        proof {
            use_type_invariant(self);
        }
        if self.entries.len() == 0 {
            proof {
                assert(pairs_view(self.entries@) =~= Seq::empty());
                lemma_pairs_to_map_empty();
            }
            true
        } else {
            proof {
                lemma_pairs_to_map_index(pairs_view(self.entries@), 0);
                assert(!Map::<Seq<u8>, Seq<u8>>::empty().contains_key(
                    pairs_view(self.entries@)[0].0,
                ));
            }
            false
        }
    }

    /// The position of a key among the entries, if it is there.
    fn position(&self, key: &[u8]) -> (r: Option<usize>)
        ensures
            r matches Some(i) ==> i < self.pairs().len() && self.pairs()[i as int].0 == key@,
            r is None ==> !has_key(self.pairs(), key@),
    {
        let n = self.entries.len();
        let mut i: usize = 0;
        while i < n
            invariant
                n == self.entries@.len(),
                i <= n,
                forall|j: int| 0 <= j < i ==> self.pairs()[j].0 != key@,
            decreases n - i,
        {
            if bytes_equal(self.entries[i].0.as_slice(), key) {
                return Some(i);
            }
            i = i + 1;
        }
        None
    }

    /// The value stored under a key.
    pub fn get(&self, key: &[u8]) -> (r: Option<&Vec<u8>>)
        ensures
            r matches Some(v) ==> self@.contains_key(key@) && self@[key@] == v@,
            r is None ==> !self@.contains_key(key@),
    {
        proof {
            use_type_invariant(self);
        }
        match self.position(key) {
            Some(i) => {
                proof {
                    lemma_pairs_to_map_index(self.pairs(), i as int);
                }
                Some(&self.entries[i].1)
            },
            None => None,
        }
    }

    /// Where a key belongs among the sorted entries: whether it is there,
    /// and the position of the first entry whose key is not below it.
    fn slot(&self, key: &[u8]) -> (r: (bool, usize))
        ensures
            r.1 <= self.pairs().len(),
            r.0 ==> r.1 < self.pairs().len() && self.pairs()[r.1 as int].0 == key@,
            !r.0 ==> !has_key(self.pairs(), key@),
            !r.0 ==> forall|j: int| 0 <= j < r.1 ==> bytes_lt(#[trigger] self.pairs()[j].0, key@),
            !r.0 ==> forall|j: int| r.1 <= j < self.pairs().len() ==> bytes_lt(key@, #[trigger] self.pairs()[j].0),
    {
        proof {
            use_type_invariant(self);
            lemma_bytes_lt_irreflexive(key@);
        }
        let n = self.entries.len();
        let mut i: usize = 0;
        while i < n
            invariant
                n == self.pairs().len(),
                i <= n,
                keys_sorted(self.pairs()),
                forall|j: int| 0 <= j < i ==> bytes_lt(#[trigger] self.pairs()[j].0, key@),
            decreases n - i,
        {
            proof {
                assert(self.pairs()[i as int] == (self.entries@[i as int].0@, self.entries@[i as int].1@));
            }
            match bytes_compare(self.entries[i].0.as_slice(), key) {
                Order::Less => {},
                Order::Equal => {
                    return (true, i);
                },
                Order::Greater => {
                    proof {
                        let p = self.pairs();
                        lemma_bytes_lt_irreflexive(key@);
                        lemma_bytes_lt_total(p[i as int].0, key@);
                        assert forall|j: int| i <= j < n implies bytes_lt(key@, #[trigger] p[j].0) by {
                            if j > i {
                                lemma_bytes_lt_transitive(key@, p[i as int].0, p[j].0);
                            }
                        }
                        assert forall|j: int| 0 <= j < n implies p[j].0 != key@ by {
                            if j < i {
                                assert(bytes_lt(p[j].0, key@));
                            } else {
                                assert(bytes_lt(key@, p[j].0));
                            }
                        }
                    }
                    return (false, i);
                },
            }
            i = i + 1;
        }
        proof {
            let p = self.pairs();
            lemma_bytes_lt_irreflexive(key@);
            assert forall|j: int| 0 <= j < n implies p[j].0 != key@ by {
                assert(bytes_lt(p[j].0, key@));
            }
        }
        (false, n)
    }

    /// Stores a value under a key, replacing the value that was there.
    pub fn insert(&mut self, key: Vec<u8>, value: Vec<u8>)
        ensures
            final(self)@ == old(self)@.insert(key@, value@),
    {
        proof {
            use_type_invariant(&*self);
        }
        let (found, i) = self.slot(key.as_slice());
        let mut entries: Vec<(Vec<u8>, Vec<u8>)> = Vec::new();
        std::mem::swap(&mut entries, &mut self.entries);
        let ghost old_pairs = pairs_view(entries@);
        let ghost k = key@;
        let ghost v = value@;
        if found {
            let old_key = bytes_copy(&entries[i].0);
            entries.set(i, (old_key, value));
            proof {
                lemma_pairs_to_map_update(old_pairs, i as int, v);
                assert(pairs_view(entries@) =~= old_pairs.update(i as int, (k, v)));
                let t = pairs_view(entries@);
                assert forall|a: int, b: int| 0 <= a < b < t.len() implies bytes_lt(#[trigger] t[a].0, #[trigger] t[b].0) by {
                    assert(t[a].0 == old_pairs[a].0);
                    assert(t[b].0 == old_pairs[b].0);
                }
            }
        } else {
            entries.insert(i, (key, value));
            proof {
                lemma_pairs_to_map_insert(old_pairs, i as int, k, v);
                let t = pairs_view(entries@);
                assert(t =~= old_pairs.insert(i as int, (k, v)));
                assert forall|a: int, b: int| 0 <= a < b < t.len() implies bytes_lt(#[trigger] t[a].0, #[trigger] t[b].0) by {
                    if b < i {
                        assert(t[a] == old_pairs[a] && t[b] == old_pairs[b]);
                    } else if b == i {
                        assert(t[a] == old_pairs[a]);
                    } else if a < i {
                        assert(t[a] == old_pairs[a] && t[b] == old_pairs[b - 1]);
                    } else if a == i {
                        assert(t[b] == old_pairs[b - 1]);
                    } else {
                        assert(t[a] == old_pairs[a - 1] && t[b] == old_pairs[b - 1]);
                    }
                }
            }
        }
        self.entries = entries;
    }

    /// A deep copy of the map.
    pub fn copy(&self) -> (r: Self)
        ensures
            r@ == self@,
            r.pairs() == self.pairs(),
    {
        proof {
            use_type_invariant(self);
        }
        let n = self.entries.len();
        let mut entries: Vec<(Vec<u8>, Vec<u8>)> = Vec::new();
        let mut i: usize = 0;
        while i < n
            invariant
                n == self.entries@.len(),
                i <= n,
                entries@.len() == i,
                forall|j: int|
                    0 <= j < i ==> (#[trigger] entries@[j]).0@ == self.entries@[j].0@
                        && entries@[j].1@ == self.entries@[j].1@,
            decreases n - i,
        {
            let k = bytes_copy(&self.entries[i].0);
            let v = bytes_copy(&self.entries[i].1);
            entries.push((k, v));
            i = i + 1;
        }
        assert(pairs_view(entries@) =~= self.pairs());
        ByteMap { entries }
    }

    /// Whether two maps hold the same entries.
    pub fn same_map(&self, other: &Self) -> (r: bool)
        ensures
            r == (self@ == other@),
    {
        proof {
            use_type_invariant(self);
            use_type_invariant(other);
        }
        if !self.contained_in(other) {
            return false;
        }
        if !other.contained_in(self) {
            return false;
        }
        assert(self@ =~= other@);
        true
    }

    /// Whether every entry of this map is an entry of the other.
    fn contained_in(&self, other: &Self) -> (r: bool)
        ensures
            r == self@.submap_of(other@),
    {
        proof {
            use_type_invariant(self);
        }
        let n = self.entries.len();
        let mut i: usize = 0;
        while i < n
            invariant
                n == self.entries@.len(),
                i <= n,
                unique_keys(self.pairs()),
                self@ == pairs_to_map(self.pairs()),
                forall|j: int| 0 <= j < i ==> entry_in(other@, #[trigger] self.pairs()[j]),
            decreases n - i,
        {
            proof {
                assert(self.pairs()[i as int] == (self.entries@[i as int].0@, self.entries@[i as int].1@));
            }
            let ok = match other.get(self.entries[i].0.as_slice()) {
                Some(v) => bytes_equal(v.as_slice(), self.entries[i].1.as_slice()),
                None => false,
            };
            proof {
                lemma_pairs_to_map_index(self.pairs(), i as int);
            }
            if !ok {
                return false;
            }
            assert(entry_in(other@, self.pairs()[i as int]));
            i = i + 1;
        }
        assert forall|k: Seq<u8>| #[trigger] self@.contains_key(k) implies other@.contains_key(k)
            && other@[k] == self@[k] by {
            let j = choose|j: int| 0 <= j < self.pairs().len() && self.pairs()[j].0 == k;
            lemma_pairs_to_map_index(self.pairs(), j);
            assert(entry_in(other@, self.pairs()[j]));
        }
        true
    }
}

/// Joins two maps that are fields of a larger value: a key with two values
/// there is a disagreement of that value.
pub fn join_field_map(a: &ByteMap, b: &ByteMap) -> (r: Result<ByteMap, JoinError>)
    ensures
        r matches Ok(m) ==> join_map(a@, b@) == Ok::<Map<Seq<u8>, Seq<u8>>, JoinError>(m@),
        r is Err ==> join_map(a@, b@) is Err && r == Err::<ByteMap, JoinError>(JoinError::ScalarDisagree),
{
    match a.join(b) {
        Ok(m) => Ok(m),
        Err(_) => Err(JoinError::ScalarDisagree),
    }
}

impl Clone for ByteMap {
    fn clone(&self) -> (r: Self)
        ensures
            r@ == self@,
    {
        self.copy()
    }
}

impl IdempotentValue for ByteMap {
    fn same_value(&self, other: &Self) -> (r: bool) {
        self.same_map(other)
    }

    fn copy_value(&self) -> (r: Self) {
        self.copy()
    }
}

impl Join for ByteMap {
    /// The union of the two maps, or a key collision where they hold
    /// different values under one key.
    fn join(&self, other: &Self) -> (r: Result<Self, JoinError>)
        ensures
            r matches Ok(m) ==> join_map(self@, other@) == Ok::<
                Map<Seq<u8>, Seq<u8>>,
                JoinError,
            >(m@),
            r matches Err(e) ==> join_map(self@, other@) == Err::<
                Map<Seq<u8>, Seq<u8>>,
                JoinError,
            >(e),
    {
        proof {
            use_type_invariant(other);
        }
        let mut result = self.copy();
        let ghost op = other.pairs();
        let n = other.entries.len();
        let mut j: usize = 0;
        proof {
            lemma_pairs_to_map_empty();
            assert(op.take(0) =~= Seq::empty());
            assert(self@.union_prefer_right(Map::empty()) =~= self@);
        }
        while j < n
            invariant
                n == op.len(),
                op == other.pairs(),
                unique_keys(op),
                other@ == pairs_to_map(op),
                j <= n,
                unique_keys(op.take(j as int)),
                result@ == self@.union_prefer_right(pairs_to_map(op.take(j as int))),
                maps_agree(self@, pairs_to_map(op.take(j as int))),
            decreases n - j,
        {
            let ghost k = op[j as int].0;
            let ghost v = op[j as int].1;
            proof {
                assert(op.take(j + 1) =~= op.take(j as int).push((k, v)));
                assert(!has_key(op.take(j as int), k)) by {
                    if has_key(op.take(j as int), k) {
                        let i = choose|i: int| 0 <= i < j && op.take(j as int)[i].0 == k;
                        assert(op[i].0 == op[j as int].0);
                    }
                }
                lemma_pairs_to_map_push(op.take(j as int), k, v);
                lemma_pairs_to_map_index(op, j as int);
            }
            let found = match result.get(other.entries[j].0.as_slice()) {
                Some(existing) => Some(bytes_equal(existing.as_slice(), other.entries[j].1.as_slice())),
                None => None,
            };
            match found {
                Some(true) => {
                    proof {
                        assert(result@ =~= self@.union_prefer_right(
                            pairs_to_map(op.take(j + 1)),
                        ));
                    }
                },
                Some(false) => {
                    proof {
                        assert(self@.contains_key(k));
                        assert(!maps_agree(self@, other@));
                    }
                    return Err(JoinError::StructuralMismatch);
                },
                None => {
                    let key = bytes_copy(&other.entries[j].0);
                    let value = bytes_copy(&other.entries[j].1);
                    result.insert(key, value);
                    proof {
                        assert(result@ =~= self@.union_prefer_right(
                            pairs_to_map(op.take(j + 1)),
                        ));
                    }
                },
            }
            j = j + 1;
        }
        proof {
            assert(op.take(n as int) =~= op);
        }
        Ok(result)
    }
}

} // verus!
