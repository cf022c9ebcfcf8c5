//! Location tags: where the impl block that registered a type stands.

use crate::lexical::text_relation;
use crate::relation::{ordering_of, to_ordering, Relation};
use crate::text::compare_text;
use core::cmp::Ordering;
use vstd::prelude::*;

verus! {

/// The location of the impl block for a given type. This is used for error
/// reporting. Its content is made elsewhere and is not looked into here: two
/// locations are equal if they hold the same text, and they are ordered as
/// their texts are.
#[allow(clippy::derive_ord_xor_partial_ord)]
#[derive(Debug, Clone, Copy, Eq, Ord)]
pub struct ImplLocation(pub(crate) &'static str);

impl View for ImplLocation {
    type V = Seq<char>;

    /// The text that the location holds.
    open spec fn view(&self) -> Seq<char> {
        self.as_str()@
    }
}

impl ImplLocation {
    /// The location that holds the text `location`.
    pub closed spec fn spec_new(location: &'static str) -> Self {
        ImplLocation(location)
    }

    /// The text that the location holds, as the string that it was made from.
    pub closed spec fn spec_as_str(&self) -> &'static str {
        self.0
    }

    /// The location that holds the text `location`.
    #[verifier::when_used_as_spec(spec_new)]
    pub fn new(location: &'static str) -> (tag: Self)
        ensures
            tag == Self::spec_new(location),
            tag.as_str() == location,
    {
        ImplLocation(location)
    }

    /// Get the location as a string
    #[verifier::when_used_as_spec(spec_as_str)]
    pub fn as_str(&self) -> (text: &'static str)
        ensures
            text == self.spec_as_str(),
    {
        self.0
    }
}

impl PartialEq for ImplLocation {
    fn eq(&self, other: &Self) -> (equal: bool) {
        match compare_text(self.0, other.0) {
            Relation::Same => true,
            _ => false,
        }
    }
}

impl vstd::std_specs::cmp::PartialEqSpecImpl for ImplLocation {
    open spec fn obeys_eq_spec() -> bool {
        true
    }

    open spec fn eq_spec(&self, other: &Self) -> bool {
        self@ == other@
    }
}

impl PartialOrd for ImplLocation {
    fn partial_cmp(&self, other: &Self) -> (order: Option<Ordering>) {
        Some(to_ordering(compare_text(self.0, other.0)))
    }
}

impl vstd::std_specs::cmp::PartialOrdSpecImpl for ImplLocation {
    open spec fn obeys_partial_cmp_spec() -> bool {
        true
    }

    open spec fn partial_cmp_spec(&self, other: &Self) -> Option<Ordering> {
        Some(ordering_of(text_relation(self@, other@)))
    }
}

/// A location gives back the text that it was made from.
pub proof fn lemma_location_round_trip(location: &'static str)
    ensures
        ImplLocation::new(location).as_str() == location,
        ImplLocation::new(location)@ == location@,
{
}

} // verus!
