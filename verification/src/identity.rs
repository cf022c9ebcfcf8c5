//! Type identities: a canonical name together with an identity token.

use crate::lexical::{
    char_rank, lemma_lex_relation_reversed, lemma_lex_relation_transitive,
    lemma_ranks_injective, text_relation,
};
use crate::name::{canonical_name, canonical_name_of};
use crate::relation::{int_relation, ordering_of, to_ordering, Relation};
use crate::text::compare_text;
use crate::token::{resolve_token, token_order, token_rank, tokens_equal};
use core::any::TypeId;
use core::cmp::Ordering;
use vstd::prelude::*;
use vstd::relations::{sorted_by, total_ordering};
use vstd::seq_lib::lemma_sorted_unique;
use vstd::std_specs::cmp::{PartialEqSpec, PartialOrdSpec};

verus! {

/// What a type identity stands for: the canonical name of a type, and the
/// place of its identity token in the order of tokens.
#[verifier::ext_equal]
pub struct TypeIdentity {
    pub name: Seq<char>,
    pub token: int,
}

/// How the identity `a` stands to `b`: by canonical name first, in the
/// lexicographic order of the names, and by token among identities of one
/// name.
pub open spec fn identity_relation(a: TypeIdentity, b: TypeIdentity) -> Relation {
    match text_relation(a.name, b.name) {
        Relation::Same => int_relation(a.token, b.token),
        by_name => by_name,
    }
}

/// The unique Specta ID for the type.
///
/// Two identities are equal exactly if their tokens are; the canonical name
/// plays no part in that. They are ordered by canonical name first and by
/// token second, so that a collection keyed by identities is walked in an
/// order that a reader can follow.
///
/// The derived `Ord` compares the fields in the order in which they stand,
/// which is the order that [`SpectaID::cmp`] is proved to give.
#[allow(clippy::derived_hash_with_manual_eq)]
#[allow(clippy::derive_ord_xor_partial_ord)]
#[derive(Debug, Clone, Copy, Hash, Ord)]
pub struct SpectaID {
    pub(crate) name: &'static str,
    pub(crate) tid: TypeId,
}

impl View for SpectaID {
    type V = TypeIdentity;

    closed spec fn view(&self) -> TypeIdentity {
        TypeIdentity { name: self.name@, token: token_rank(self.tid) }
    }
}

impl SpectaID {
    /// The identity of the type `T`, whose full name, as the compiler
    /// reports it, is `reflected_name`.
    ///
    /// The token is the one that the resolver hands out for `T`, whatever the
    /// lifetimes in `T` are. Which token that is cannot be said here;
    /// [`SpectaID::from_parts`] is the same function with the token as an
    /// argument.
    pub fn from<T>(reflected_name: &'static str) -> (id: Self)
        ensures
            id@.name == canonical_name(reflected_name@),
    {
        Self::from_parts(reflected_name, resolve_token::<T>())
    }

    /// The identity of the type whose full name is `reflected_name` and whose
    /// identity token is `token`.
    pub fn from_parts(reflected_name: &'static str, token: TypeId) -> (id: Self)
        ensures
            id@ == (TypeIdentity {
                name: canonical_name(reflected_name@),
                token: token_rank(token),
            }),
    {
        SpectaID { name: canonical_name_of(reflected_name), tid: token }
    }

    /// The canonical name.
    pub fn name(&self) -> (name: &'static str)
        ensures
            name@ == self@.name,
    {
        self.name
    }

    /// The identity token.
    pub fn token(&self) -> (token: TypeId)
        ensures
            token_rank(token) == self@.token,
    {
        self.tid
    }

    /// How this identity stands to `other`: by canonical name first, by token
    /// second.
    pub fn cmp(&self, other: &Self) -> (order: Ordering)
        ensures
            order == ordering_of(identity_relation(self@, other@)),
    {
        match compare_text(self.name, other.name) {
            Relation::Same => token_order(&self.tid, &other.tid),
            by_name => to_ordering(by_name),
        }
    }
}

impl PartialOrd for SpectaID {
    fn partial_cmp(&self, other: &Self) -> (order: Option<Ordering>) {
        Some(self.cmp(other))
    }
}

impl vstd::std_specs::cmp::PartialOrdSpecImpl for SpectaID {
    open spec fn obeys_partial_cmp_spec() -> bool {
        true
    }

    open spec fn partial_cmp_spec(&self, other: &Self) -> Option<Ordering> {
        Some(ordering_of(identity_relation(self@, other@)))
    }
}

impl Eq for SpectaID {}

impl PartialEq for SpectaID {
    fn eq(&self, other: &Self) -> (equal: bool) {
        tokens_equal(&self.tid, &other.tid)
    }
}

impl vstd::std_specs::cmp::PartialEqSpecImpl for SpectaID {
    open spec fn obeys_eq_spec() -> bool {
        true
    }

    open spec fn eq_spec(&self, other: &Self) -> bool {
        self@.token == other@.token
    }
}

/// Equality of identities is an equivalence: every identity is equal to
/// itself, equality does not depend on the side from which it is read, and
/// two identities that are equal to a third are equal to each other.
pub proof fn lemma_equality_is_equivalence(a: SpectaID, b: SpectaID, c: SpectaID)
    ensures
        a.eq_spec(&a),
        a.eq_spec(&b) == b.eq_spec(&a),
        a.eq_spec(&b) && b.eq_spec(&c) ==> a.eq_spec(&c),
{
}

/// Read from the other side, the relation of two identities is the reversed
/// one.
pub proof fn lemma_relation_reversed(a: TypeIdentity, b: TypeIdentity)
    ensures
        identity_relation(b, a) == identity_relation(a, b).reversed(),
{
    lemma_ranks_injective();
    lemma_lex_relation_reversed(a.name, b.name, char_rank());
}

/// Two identities take the same place in the order exactly if they carry the
/// same canonical name and the same token.
pub proof fn lemma_relation_same(a: TypeIdentity, b: TypeIdentity)
    ensures
        identity_relation(a, b) == Relation::Same <==> a == b,
{
}

/// An identity that does not come after a second, which does not come after
/// a third, does not come after the third.
pub proof fn lemma_relation_transitive(a: TypeIdentity, b: TypeIdentity, c: TypeIdentity)
    requires
        identity_relation(a, b) != Relation::After,
        identity_relation(b, c) != Relation::After,
    ensures
        identity_relation(a, c) != Relation::After,
{
    lemma_ranks_injective();
    lemma_lex_relation_transitive(a.name, b.name, c.name, char_rank());
}

/// Of `a < b`, `a == b` and `a > b` exactly one holds, and the order puts
/// equal identities in the same place, for two identities that carry the
/// same canonical name where they carry the same token.
pub proof fn lemma_less_equal_or_greater(a: SpectaID, b: SpectaID)
    requires
        a@.token == b@.token ==> a@.name == b@.name,
    ensures
        ({
            let less = a.partial_cmp_spec(&b) == Some(Ordering::Less);
            let equal = a.eq_spec(&b);
            let greater = a.partial_cmp_spec(&b) == Some(Ordering::Greater);
            &&& less || equal || greater
            &&& !(less && equal)
            &&& !(less && greater)
            &&& !(equal && greater)
        }),
        a.eq_spec(&b) <==> a.partial_cmp_spec(&b) == Some(Ordering::Equal),
{
    lemma_relation_same(a@, b@);
}

/// Whatever their names, two identities that the order puts in the same
/// place are equal, and `a < b` says the same as `b > a`.
pub proof fn lemma_order_agrees_with_equality(a: SpectaID, b: SpectaID)
    ensures
        a.partial_cmp_spec(&b) == Some(Ordering::Equal) <==> a@ == b@,
        a.partial_cmp_spec(&b) == Some(Ordering::Equal) ==> a.eq_spec(&b),
        a.partial_cmp_spec(&b) == Some(Ordering::Less) <==> b.partial_cmp_spec(&a) == Some(
            Ordering::Greater,
        ),
{
    lemma_relation_same(a@, b@);
    lemma_relation_reversed(a@, b@);
}

/// `a` comes before `b` or takes the same place.
pub open spec fn not_after(a: TypeIdentity, b: TypeIdentity) -> bool {
    identity_relation(a, b) != Relation::After
}

/// The order of identities, as the relation "`a` does not come after `b`".
pub open spec fn identity_order() -> spec_fn(TypeIdentity, TypeIdentity) -> bool {
    |a: TypeIdentity, b: TypeIdentity| not_after(a, b)
}

/// The order of identities is a total order.
pub proof fn lemma_identity_order_total()
    ensures
        total_ordering(identity_order()),
{
    let order = identity_order();
    assert forall|a: TypeIdentity| #[trigger] order(a, a) by {
        lemma_relation_same(a, a);
    }
    assert forall|a: TypeIdentity, b: TypeIdentity| #[trigger]
        order(a, b) && #[trigger] order(b, a) implies a == b by {
        lemma_relation_reversed(a, b);
        lemma_relation_same(a, b);
    }
    assert forall|a: TypeIdentity, b: TypeIdentity, c: TypeIdentity| #[trigger]
        order(a, b) && #[trigger] order(b, c) implies order(a, c) by {
        lemma_relation_transitive(a, b, c);
    }
    assert forall|a: TypeIdentity, b: TypeIdentity| #[trigger]
        order(a, b) || #[trigger] order(b, a) by {
        lemma_relation_reversed(a, b);
    }
}

/// A collection of identities can be put in order in one way only: two
/// arrangements of the same identities that are both in order are the same
/// arrangement.
pub proof fn lemma_sorted_arrangement_unique(x: Seq<TypeIdentity>, y: Seq<TypeIdentity>)
    requires
        sorted_by(x, identity_order()),
        sorted_by(y, identity_order()),
        x.to_multiset() == y.to_multiset(),
    ensures
        x == y,
{
    lemma_identity_order_total();
    lemma_sorted_unique(x, y, identity_order());
}

} // verus!
