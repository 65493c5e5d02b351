//! The result of comparing two Foundation objects, and its correspondence
//! with `Ordering`.

use vstd::prelude::*;
use std::cmp::Ordering;

verus! {

/// The result of a Foundation comparison.
#[derive(Clone, Copy, Debug, PartialEq, Eq, Structural)]
pub enum NSComparisonResult {
    Ascending,
    Same,
    Descending,
}

/// The comparison result that stands for an ordering.
pub open spec fn result_of_ordering(order: Ordering) -> NSComparisonResult {
    match order {
        Ordering::Less => NSComparisonResult::Ascending,
        Ordering::Equal => NSComparisonResult::Same,
        Ordering::Greater => NSComparisonResult::Descending,
    }
}

/// The ordering that a comparison result stands for.
pub open spec fn ordering_of_result(r: NSComparisonResult) -> Ordering {
    match r {
        NSComparisonResult::Ascending => Ordering::Less,
        NSComparisonResult::Same => Ordering::Equal,
        NSComparisonResult::Descending => Ordering::Greater,
    }
}

impl NSComparisonResult {
    /// The comparison result that stands for `order`.
    pub fn from_ordering(order: Ordering) -> (r: NSComparisonResult)
        ensures
            r == result_of_ordering(order),
    {
        match order {
            Ordering::Less => NSComparisonResult::Ascending,
            Ordering::Equal => NSComparisonResult::Same,
            Ordering::Greater => NSComparisonResult::Descending,
        }
    }

    /// The ordering that this comparison result stands for.
    pub fn as_ordering(&self) -> (order: Ordering)
        ensures
            order == ordering_of_result(*self),
    {
        match *self {
            NSComparisonResult::Ascending => Ordering::Less,
            NSComparisonResult::Same => Ordering::Equal,
            NSComparisonResult::Descending => Ordering::Greater,
        }
    }

    /// The integer value of this comparison result: -1, 0 or 1.
    pub fn value(&self) -> (v: isize)
        ensures
            *self == NSComparisonResult::Ascending ==> v == -1,
            *self == NSComparisonResult::Same ==> v == 0,
            *self == NSComparisonResult::Descending ==> v == 1,
    {
        match *self {
            NSComparisonResult::Ascending => -1,
            NSComparisonResult::Same => 0,
            NSComparisonResult::Descending => 1,
        }
    }
}

/// Converting an ordering to a comparison result and back gives the same
/// ordering, and converting a comparison result to an ordering and back
/// gives the same comparison result.
pub proof fn lemma_ordering_roundtrip(order: Ordering, r: NSComparisonResult)
    ensures
        ordering_of_result(result_of_ordering(order)) == order,
        result_of_ordering(ordering_of_result(r)) == r,
{
}

} // verus!
