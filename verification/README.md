# lattice_psbt

A PSBT (BIP-174/BIP-370, version 2) modelled as a join semilattice, written
and proved in Verus. Peers that learn inputs, outputs and metadata of a
transaction independently merge their fragments with `join`.

What is proved, over the views of the types:

- Every field, map, input, output and the global map joins idempotently,
  commutatively and associatively (the two groupings of three give the same
  result, error included), and the join is the least upper bound in the
  order "knows at least as much as". The global counts join to the larger
  of the two.
- A map joined on its own reports a key with two values as a structural
  mismatch. Inside an input, output or state every failure, whatever field
  it comes from, is a scalar disagreement: with one error for every failed
  join of a record, the error does not depend on how joins are grouped.
- Unordered states hold one input per known outpoint (a type invariant).
  Their join merges the two inputs that spend one outpoint into their join,
  or fails when those disagree; it is idempotent, commutative and
  associative, and it is the least upper bound of the two states.
- Ordered states join only when both sides fixed the same lists in the same
  order (else a scalar disagreement); these joins are idempotent,
  commutative and associative.
- BIP-69 sorts inputs by txid as displayed (its bytes reversed), then output
  index, and outputs by amount, then script. Items that BIP-69 ties are
  ordered by all their other fields, so the order is a total one and the
  sorted list is a function of the set. The salted ordering rearranges that
  sorted list by the order that a ChaCha20 generator seeded with the salt
  draws, so it is a function of the set and the salt.

Layout:

- `src/` — the verified library.
  - `bytes.rs`: byte-string equality, copy, reversal and lexicographic order.
  - `byte_map.rs`: maps from serialized keys to serialized values, kept
    sorted by key so that equal maps have equal entries; join is the union,
    and a key with two different values is a collision.
  - `value_set.rs`: sets of values without repetitions; join is the union.
  - `values.rs`, `partial_join.rs`: scalar joins (`Option` with `None` as
    "unknown"), the `PartialJoin` trait.
  - `input.rs`, `output.rs`, `global.rs`: the PSBT maps and their joins, with
    the laws proved over their views.
  - `input_merge.rs`: merging sets of inputs by outpoint.
  - `conversions.rs`: `From` and `TryFrom` between partial and complete
    inputs and outputs.
  - `canonical.rs`: the total order on inputs and outputs.
  - `ordering.rs`: sorting and the salted shuffle (ChaCha20 from
    `rand_chacha`, shuffle from `rand`).
  - `transaction.rs`: the typestate `Transaction` (unordered, ordered inputs,
    ordered outputs, finalized) and the conversion to a complete PSBT.
  - `constructor.rs`: the Constructor role.
- `app/` — conversions between the `bitcoin`/`psbt_v2` types and the
  byte-level model of the library, and error types with `std::error::Error`.
- `tests/` — tests run against the compiled library.

Choices that Verus imposes:

- Maps are `ByteMap` (a sorted vector of entries) and sets are `ValueSet` (a
  vector without repetitions) rather than `BTreeMap` and `HashSet`: vstd
  specifies those collections only for keys whose `Eq` and `Ord` it knows to
  obey its model, which byte vectors and structs of this crate are not.
- The Constructor markers are unit structs, not variantless enums: Verus
  takes no enum without variants. Their trait states `Send` and `Sync` but
  not `Unpin`, a bound Verus does not know. `Constructor` clones by hand,
  as Verus does not support cloning its `PhantomData` field.
- Inputs and outputs reach their data through `Deref` only: Verus does not
  support `DerefMut`, and the `data` field is public.
- The conversions between partial and complete inputs and outputs are
  impls of `From` and `TryFrom` in a module of their own (`conversions.rs`):
  beside the joins, their specifications push an associativity proof over
  its resource limit. The conversion of a finalized transaction is the
  associated function `Psbt::try_from`: vstd's specification of `TryFrom`
  states the result as a value, and this result is built of vectors that
  the contract describes through their views.
