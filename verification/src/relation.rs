//! Three-way relations.

use core::cmp::Ordering;
use vstd::prelude::*;

verus! {

/// How a first value stands to a second one in a total order.
#[derive(Clone, Copy, Debug, PartialEq, Eq, Structural)]
pub enum Relation {
    /// The first value comes before the second.
    Before,
    /// The two values take the same place.
    Same,
    /// The first value comes after the second.
    After,
}

impl Relation {
    /// The relation seen from the second value.
    pub open spec fn reversed(self) -> Relation {
        match self {
            Relation::Before => Relation::After,
            Relation::Same => Relation::Same,
            Relation::After => Relation::Before,
        }
    }
}

/// The standard library's word for a relation.
pub open spec fn ordering_of(relation: Relation) -> Ordering {
    match relation {
        Relation::Before => Ordering::Less,
        Relation::Same => Ordering::Equal,
        Relation::After => Ordering::Greater,
    }
}

/// Puts a relation in the standard library's words.
pub fn to_ordering(relation: Relation) -> (order: Ordering)
    ensures
        order == ordering_of(relation),
{
    match relation {
        Relation::Before => Ordering::Less,
        Relation::Same => Ordering::Equal,
        Relation::After => Ordering::Greater,
    }
}

/// How `x` stands to `y` among the integers.
pub open spec fn int_relation(x: int, y: int) -> Relation {
    if x < y {
        Relation::Before
    } else if x == y {
        Relation::Same
    } else {
        Relation::After
    }
}

} // verus!
