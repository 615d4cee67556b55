//! Scalar values: a value either agrees with another one or conflicts with
//! it, and an optional value that is still unknown (`None`) takes whatever
//! the other side knows.
use vstd::prelude::*;

use crate::bytes::{bytes_copy, bytes_equal};
use crate::partial_join::PartialJoin;
use crate::{Join, JoinError};

verus! {

/// Why two values could not be joined.
#[derive(Debug, Clone, Copy, PartialEq, Eq, Structural)]
pub enum ValueError {
    /// The values differ.
    Conflict,
}

/// A value whose join is trivial: equal values join to themselves and
/// different values conflict.
pub trait IdempotentValue: Sized + View {
    /// Whether the two values are equal.
    fn same_value(&self, other: &Self) -> (r: bool)
        ensures
            r == (self@ == other@),
    ;

    /// A copy of the value.
    fn copy_value(&self) -> (r: Self)
        ensures
            r@ == self@,
    ;
}

impl IdempotentValue for u8 {
    fn same_value(&self, other: &Self) -> (r: bool) {
        *self == *other
    }

    fn copy_value(&self) -> (r: Self) {
        *self
    }
}

impl IdempotentValue for u32 {
    fn same_value(&self, other: &Self) -> (r: bool) {
        *self == *other
    }

    fn copy_value(&self) -> (r: Self) {
        *self
    }
}

impl IdempotentValue for u64 {
    fn same_value(&self, other: &Self) -> (r: bool) {
        *self == *other
    }

    fn copy_value(&self) -> (r: Self) {
        *self
    }
}

impl IdempotentValue for i32 {
    fn same_value(&self, other: &Self) -> (r: bool) {
        *self == *other
    }

    fn copy_value(&self) -> (r: Self) {
        *self
    }
}

impl IdempotentValue for usize {
    fn same_value(&self, other: &Self) -> (r: bool) {
        *self == *other
    }

    fn copy_value(&self) -> (r: Self) {
        *self
    }
}

impl IdempotentValue for Vec<u8> {
    fn same_value(&self, other: &Self) -> (r: bool) {
        bytes_equal(self.as_slice(), other.as_slice())
    }

    fn copy_value(&self) -> (r: Self) {
        bytes_copy(self)
    }
}

/// The optional value seen through the view of its content.
pub open spec fn opt_view<T: View>(o: Option<T>) -> Option<T::V> {
    match o {
        Some(x) => Some(x@),
        None => None,
    }
}

/// The sequence seen through the views of its items.
pub open spec fn views<T: View>(s: Seq<T>) -> Seq<T::V> {
    s.map_values(|x: T| x@)
}

/// Feeds a successful result to the next join, and passes an error on.
pub open spec fn and_then<V, E>(r: Result<V, E>, f: spec_fn(V) -> Result<V, E>) -> Result<V, E> {
    match r {
        Ok(v) => f(v),
        Err(e) => Err(e),
    }
}

/// The join of two plain values: equal values join to themselves.
pub open spec fn join_value<V>(a: V, b: V) -> Result<V, ValueError> {
    if a == b {
        Ok(a)
    } else {
        Err(ValueError::Conflict)
    }
}

/// The join of two optional scalars: an unknown value takes the other side,
/// two known values must agree.
pub open spec fn join_opt<V>(a: Option<V>, b: Option<V>) -> Result<Option<V>, JoinError> {
    match (a, b) {
        (None, _) => Ok(b),
        (_, None) => Ok(a),
        (Some(x), Some(y)) => if x == y {
            Ok(a)
        } else {
            Err(JoinError::ScalarDisagree)
        },
    }
}

/// Joining a plain value with itself gives it back.
pub proof fn lemma_join_value_idempotent<V>(a: V)
    ensures
        join_value(a, a) == Ok::<V, ValueError>(a),
{
}

/// The join of plain values does not depend on the order of its arguments.
pub proof fn lemma_join_value_commutative<V>(a: V, b: V)
    ensures
        join_value(a, b) == join_value(b, a),
{
}

/// The join of plain values does not depend on how three of them are grouped.
pub proof fn lemma_join_value_associative<V>(a: V, b: V, c: V)
    ensures
        and_then(join_value(a, b), |ab: V| join_value(ab, c)) == and_then(
            join_value(b, c),
            |bc: V| join_value(a, bc),
        ),
{
}

/// Joining an optional scalar with itself gives it back.
pub proof fn lemma_join_opt_idempotent<V>(a: Option<V>)
    ensures
        join_opt(a, a) == Ok::<Option<V>, JoinError>(a),
{
}

/// The join of optional scalars does not depend on the order of its arguments.
pub proof fn lemma_join_opt_commutative<V>(a: Option<V>, b: Option<V>)
    ensures
        join_opt(a, b) == join_opt(b, a),
{
}

/// The join of optional scalars does not depend on how three of them are
/// grouped.
pub proof fn lemma_join_opt_associative<V>(a: Option<V>, b: Option<V>, c: Option<V>)
    ensures
        and_then(join_opt(a, b), |ab: Option<V>| join_opt(ab, c)) == and_then(
            join_opt(b, c),
            |bc: Option<V>| join_opt(a, bc),
        ),
{
}

/// The information order on optional scalars: an unknown value is below
/// everything, a known value only below itself.
pub open spec fn opt_le<V>(a: Option<V>, b: Option<V>) -> bool {
    a is Some ==> b == a
}

/// The join of two optional scalars is above both, and it fails exactly when
/// both are known and differ.
pub proof fn lemma_join_opt_upper_bound<V>(a: Option<V>, b: Option<V>)
    ensures
        join_opt(a, b) is Ok ==> opt_le(a, join_opt(a, b)->Ok_0) && opt_le(b, join_opt(a, b)->Ok_0),
        join_opt(a, b) is Err <==> (a is Some && b is Some && a != b),
{
}

/// Whatever is above two optional scalars is above their join, which then
/// exists: the join is their least upper bound.
pub proof fn lemma_join_opt_least<V>(a: Option<V>, b: Option<V>, c: Option<V>)
    requires
        opt_le(a, c),
        opt_le(b, c),
    ensures
        join_opt(a, b) is Ok,
        opt_le(join_opt(a, b)->Ok_0, c),
{
}

/// Joins two plain values.
pub fn join_scalar<T: IdempotentValue>(a: &T, b: &T) -> (r: Result<T, ValueError>)
    ensures
        r matches Ok(v) ==> join_value(a@, b@) == Ok::<T::V, ValueError>(v@),
        r matches Err(e) ==> join_value(a@, b@) == Err::<T::V, ValueError>(e),
{
    if a.same_value(b) {
        Ok(a.copy_value())
    } else {
        Err(ValueError::Conflict)
    }
}

/// Whether two optional values are equal.
pub fn same_option<T: IdempotentValue>(a: &Option<T>, b: &Option<T>) -> (r: bool)
    ensures
        r == (opt_view(*a) == opt_view(*b)),
{
    match (a, b) {
        (None, None) => true,
        (Some(x), Some(y)) => x.same_value(y),
        _ => false,
    }
}

/// A copy of an optional value.
pub fn copy_option<T: IdempotentValue>(a: &Option<T>) -> (r: Option<T>)
    ensures
        opt_view(r) == opt_view(*a),
{
    match a {
        Some(x) => Some(x.copy_value()),
        None => None,
    }
}

/// Joins two optional scalars.
pub fn join_option<T: IdempotentValue>(a: &Option<T>, b: &Option<T>) -> (r: Result<
    Option<T>,
    JoinError,
>)
    ensures
        r matches Ok(v) ==> join_opt(opt_view(*a), opt_view(*b)) == Ok::<
            Option<T::V>,
            JoinError,
        >(opt_view(v)),
        r matches Err(e) ==> join_opt(opt_view(*a), opt_view(*b)) == Err::<
            Option<T::V>,
            JoinError,
        >(e),
{
    match (a, b) {
        (None, None) => Ok(None),
        (None, Some(y)) => Ok(Some(y.copy_value())),
        (Some(x), None) => Ok(Some(x.copy_value())),
        (Some(x), Some(y)) => {
            if x.same_value(y) {
                Ok(Some(x.copy_value()))
            } else {
                Err(JoinError::ScalarDisagree)
            }
        },
    }
}

impl<T: IdempotentValue> Join for Option<T> {
    fn join(&self, other: &Self) -> (r: Result<Self, JoinError>)
        ensures
            r matches Ok(v) ==> join_opt(opt_view(*self), opt_view(*other)) == Ok::<
                Option<T::V>,
                JoinError,
            >(opt_view(v)),
            r matches Err(e) ==> join_opt(opt_view(*self), opt_view(*other)) == Err::<
                Option<T::V>,
                JoinError,
            >(e),
    {
        join_option(self, other)
    }
}

impl PartialJoin for u8 {
    type Error = ValueError;

    fn join(&self, other: &Self) -> (r: Result<Self, ValueError>)
        ensures
            r == join_value(*self, *other),
    {
        join_scalar(self, other)
    }
}

impl PartialJoin for u32 {
    type Error = ValueError;

    fn join(&self, other: &Self) -> (r: Result<Self, ValueError>)
        ensures
            r == join_value(*self, *other),
    {
        join_scalar(self, other)
    }
}

impl PartialJoin for u64 {
    type Error = ValueError;

    fn join(&self, other: &Self) -> (r: Result<Self, ValueError>)
        ensures
            r == join_value(*self, *other),
    {
        join_scalar(self, other)
    }
}

impl PartialJoin for i32 {
    type Error = ValueError;

    fn join(&self, other: &Self) -> (r: Result<Self, ValueError>)
        ensures
            r == join_value(*self, *other),
    {
        join_scalar(self, other)
    }
}

impl PartialJoin for usize {
    type Error = ValueError;

    fn join(&self, other: &Self) -> (r: Result<Self, ValueError>)
        ensures
            r == join_value(*self, *other),
    {
        join_scalar(self, other)
    }
}

impl PartialJoin for Vec<u8> {
    type Error = ValueError;

    fn join(&self, other: &Self) -> (r: Result<Self, ValueError>)
        ensures
            r matches Ok(v) ==> join_value(self@, other@) == Ok::<Seq<u8>, ValueError>(v@),
            r matches Err(e) ==> join_value(self@, other@) == Err::<Seq<u8>, ValueError>(e),
    {
        join_scalar(self, other)
    }
}

} // verus!
