//! Sorting a mutable array with a comparison closure that gives an
//! `Ordering`, through the array's comparison-function sort.

use vstd::prelude::*;
use std::cmp::Ordering;
use crate::array::{pair_sorted, NSMutableArray};
use crate::comparison::{result_of_ordering, NSComparisonResult};
use crate::id::Ownership;
use crate::runtime::Object;

verus! {

/// Whether `compare` has found `p` and `q` in order: comparing `p` with
/// `q` gave something other than greater, or comparing `q` with `p` gave
/// something other than less.
pub open spec fn in_order<F: Fn(Object, Object) -> Ordering>(compare: F, p: Object, q: Object) -> bool {
    ||| exists|o: Ordering| #[trigger] compare.ensures((p, q), o) && o != Ordering::Greater
    ||| exists|o: Ordering| #[trigger] compare.ensures((q, p), o) && o != Ordering::Less
}

/// Whether every two neighbouring objects of `s` were found in order by
/// `compare`.
pub open spec fn ordered_by<F: Fn(Object, Object) -> Ordering>(compare: F, s: Seq<Object>) -> bool {
    forall|k: int, l: int| 0 <= k && l == k + 1 && l < s.len() ==> #[trigger] in_order(compare, s[k], s[l])
}

impl<T, O: Ownership> NSMutableArray<T, O> {
    /// Sorts the array with the comparison closure `compare`, which is only
    /// ever given two objects of the array: the array keeps the same
    /// objects, and every two neighbouring objects end up found in order by
    /// `compare`.
    pub fn sort_by<F: Fn(Object, Object) -> Ordering>(&mut self, compare: F)
        requires
            forall|p: Object, q: Object|
                #![trigger compare.requires((p, q))]
                old(self)@.contains(p) && old(self)@.contains(q) ==> compare.requires((p, q)),
        ensures
            final(self)@.to_multiset() == old(self)@.to_multiset(),
            ordered_by(compare, final(self)@),
    {
        let f = &compare;
        let by_result = |a: Object, b: Object| -> (r: NSComparisonResult)
            requires
                f.requires((a, b)),
            ensures
                exists|o: Ordering| #[trigger] f.ensures((a, b), o) && r == result_of_ordering(o),
            { NSComparisonResult::from_ordering(f(a, b)) };
        self.sort_using_function(by_result);
        proof {
            let s = self@;
            assert forall|k: int, l: int| 0 <= k && l == k + 1 && l < s.len() implies #[trigger] in_order(
                compare,
                s[k],
                s[l],
            ) by {
                assert(pair_sorted(by_result, s[k], s[l]));
                if exists|r: NSComparisonResult| #[trigger] by_result.ensures((s[k], s[l]), r) && r
                    != NSComparisonResult::Descending {
                    let r = choose|r: NSComparisonResult| #[trigger] by_result.ensures((s[k], s[l]), r) && r
                        != NSComparisonResult::Descending;
                    let o = choose|o: Ordering| #[trigger] compare.ensures((s[k], s[l]), o) && r
                        == result_of_ordering(o);
                    assert(o != Ordering::Greater);
                } else {
                    let r = choose|r: NSComparisonResult| #[trigger] by_result.ensures((s[l], s[k]), r) && r
                        != NSComparisonResult::Ascending;
                    let o = choose|o: Ordering| #[trigger] compare.ensures((s[l], s[k]), o) && r
                        == result_of_ordering(o);
                    assert(o != Ordering::Less);
                }
            }
        }
    }
}

} // verus!
