//! Identity tokens: the opaque values by which two types are told apart.
//!
//! A token is a `TypeId` of the standard library. Nothing can be read from
//! one; two of them can be compared, and that is all the library does with
//! them. The comparisons are made by the standard library and are taken on
//! trust here, as is the resolver that hands out the token of a type.

use crate::relation::{int_relation, ordering_of};
use core::any::TypeId;
use core::cmp::Ordering;
use vstd::prelude::*;

verus! {

/// `core::any::TypeId`, carried as a value into which nothing looks.
#[verifier::external_type_specification]
#[verifier::external_body]
pub struct ExTypeId(core::any::TypeId);

/// The place of a token in the order that `TypeId` has: an integer that
/// stands for the token. Two tokens are equal exactly if their places are,
/// and one comes before the other exactly if its place is the smaller.
///
/// Which place a token has is not known. That every token has one is what
/// `TypeId` promises by being `Eq` and `Ord`: its order is total and agrees
/// with its equality.
pub uninterp spec fn token_rank(token: TypeId) -> int;

/// `TypeId`'s `==`. Trusted: the two tokens are equal exactly if they take the
/// same place in the order of tokens.
#[verifier::external_body]
pub(crate) fn tokens_equal(a: &TypeId, b: &TypeId) -> (equal: bool)
    ensures
        equal == (token_rank(*a) == token_rank(*b)),
{
    a == b
}

/// `TypeId`'s `Ord::cmp`. Trusted: it orders the tokens by their places, which
/// is to say that it is a total order and agrees with `==`.
#[verifier::external_body]
pub(crate) fn token_order(a: &TypeId, b: &TypeId) -> (order: Ordering)
    ensures
        order == ordering_of(int_relation(token_rank(*a), token_rank(*b))),
{
    a.cmp(b)
}

/// `typeid::of`: the token of the type that `T` becomes when its lifetimes
/// are replaced by `'static`. Nothing is claimed of the token: which one a
/// type gets is settled when the program is built.
#[verifier::external_body]
pub(crate) fn resolve_token<T>() -> (token: TypeId) {
    typeid::of::<T>()
}

} // verus!
