//! Arrays of objects: an immutable `NSArray` and a growable
//! `NSMutableArray`, each holding one retain of every object it contains.

use vstd::prelude::*;
use vstd::multiset::Multiset;
use std::ops::Range;
use crate::comparison::NSComparisonResult;
use crate::foundation::NSRange;
use crate::id::{objects_of, Id, Owned, Ownership};
use crate::rc::release_each;
use crate::runtime::{occurrences, Object, Runtime};

verus! {

/// An array of objects of type `T`, each held with ownership `O`.
pub struct NSArray<T, O> {
    items: Vec<Id<T, O>>,
}

impl<T, O: Ownership> View for NSArray<T, O> {
    type V = Seq<Object>;

    /// The objects of the array, in order.
    closed spec fn view(&self) -> Seq<Object> {
        objects_of(self.items@)
    }
}

impl<T, O: Ownership> NSArray<T, O> {
    /// An empty array.
    pub fn new() -> (a: NSArray<T, O>)
        ensures
            a@ == Seq::<Object>::empty(),
    {
        let a = NSArray { items: Vec::new() };
        assert(a@ =~= Seq::<Object>::empty());
        a
    }

    /// An array holding the pointers of `vec`, in order.
    pub fn from_vec(vec: Vec<Id<T, O>>) -> (a: NSArray<T, O>)
        ensures
            a@ == objects_of(vec@),
    {
        NSArray { items: vec }
    }

    /// The number of objects in the array.
    pub fn count(&self) -> (n: usize)
        ensures
            n == self@.len(),
    {
        self.items.len()
    }

    /// The object at `index`, which must be below the count.
    pub fn object_at(&self, index: usize) -> (o: Object)
        requires
            index < self@.len(),
        ensures
            o == self@[index as int],
    {
        self.items[index].as_ptr()
    }

    /// The first object, or `None` if the array is empty.
    pub fn first_object(&self) -> (o: Option<Object>)
        ensures
            self@.len() == 0 ==> o is None,
            self@.len() > 0 ==> o == Some(self@[0]),
    {
        if self.items.len() == 0 {
            None
        } else {
            Some(self.items[0].as_ptr())
        }
    }

    /// The last object, or `None` if the array is empty.
    pub fn last_object(&self) -> (o: Option<Object>)
        ensures
            self@.len() == 0 ==> o is None,
            self@.len() > 0 ==> o == Some(self@.last()),
    {
        let n = self.items.len();
        if n == 0 {
            None
        } else {
            Some(self.items[n - 1].as_ptr())
        }
    }

    /// The objects at the indices of `range`, which must not end before it
    /// starts nor past the count.
    pub fn objects_in_range(&self, range: Range<usize>) -> (v: Vec<Object>)
        requires
            range.start <= range.end <= self@.len(),
        ensures
            v@ == self@.subrange(range.start as int, range.end as int),
    {
        let r = NSRange::from_range(range);
        let mut v: Vec<Object> = Vec::new();
        let mut i: usize = 0;
        while i < r.length
            invariant
                self@.len() == self.items@.len(),
                r.location + r.length <= self.items.len(),
                i <= r.length,
                v@ == self@.subrange(r.location as int, r.location + i),
            decreases r.length - i,
        {
            v.push(self.items[r.location + i].as_ptr());
            proof {
                assert(self@.subrange(r.location as int, r.location + i + 1) =~= self@.subrange(
                    r.location as int,
                    r.location + i,
                ).push(self@[r.location + i]));
            }
            i = i + 1;
        }
        v
    }

    /// All the objects of the array, in order.
    pub fn to_vec(&self) -> (v: Vec<Object>)
        ensures
            v@ == self@,
    {
        let v = self.objects_in_range(0..self.count());
        assert(self@.subrange(0, self@.len() as int) =~= self@);
        v
    }

    /// The pointers held by `array`, in order; the retains pass to the caller.
    pub fn into_vec(array: NSArray<T, O>) -> (v: Vec<Id<T, O>>)
        ensures
            objects_of(v@) == array@,
    {
        array.items
    }
}

/// Arrays whose objects are owned, whose objects can therefore be reached
/// for mutation.
pub trait INSOwnedArray {
    /// The objects of the array, in order.
    spec fn owned_objects(&self) -> Seq<Object>;

    /// The object at `index`, which must be below the count, reached through
    /// the array for mutation; the array is left as it was.
    fn mut_object_at(&mut self, index: usize) -> (o: Object)
        requires
            index < old(self).owned_objects().len(),
        ensures
            o == old(self).owned_objects()[index as int],
            final(self).owned_objects() == old(self).owned_objects(),
    ;
}

impl<T> INSOwnedArray for NSArray<T, Owned> {
    open spec fn owned_objects(&self) -> Seq<Object> {
        self@
    }

    fn mut_object_at(&mut self, index: usize) -> (o: Object) {
        self.object_at(index)
    }
}

/// Whether the comparison function `comparator` has found `p` and `q` in order:
/// comparing `p` with `q` gave something other than descending, or
/// comparing `q` with `p` gave something other than ascending.
pub open spec fn pair_sorted<G: Fn(Object, Object) -> NSComparisonResult>(comparator: G, p: Object, q: Object) -> bool {
    ||| exists|r: NSComparisonResult| #[trigger] comparator.ensures((p, q), r) && r != NSComparisonResult::Descending
    ||| exists|r: NSComparisonResult| #[trigger] comparator.ensures((q, p), r) && r != NSComparisonResult::Ascending
}

/// Whether every two neighbouring objects of `s` were found in order by
/// the comparison function `comparator`.
pub open spec fn sorted_by<G: Fn(Object, Object) -> NSComparisonResult>(comparator: G, s: Seq<Object>) -> bool {
    forall|k: int, l: int| 0 <= k && l == k + 1 && l < s.len() ==> #[trigger] pair_sorted(comparator, s[k], s[l])
}

/// A growable array of objects of type `T`, each held with ownership `O`.
pub struct NSMutableArray<T, O> {
    array: NSArray<T, O>,
}

impl<T, O: Ownership> View for NSMutableArray<T, O> {
    type V = Seq<Object>;

    /// The objects of the array, in order.
    closed spec fn view(&self) -> Seq<Object> {
        self.array@
    }
}

impl<T, O: Ownership> NSMutableArray<T, O> {
    /// An empty array.
    pub fn new() -> (a: NSMutableArray<T, O>)
        ensures
            a@ == Seq::<Object>::empty(),
    {
        NSMutableArray { array: NSArray::new() }
    }

    /// An array holding the pointers of `vec`, in order.
    pub fn from_vec(vec: Vec<Id<T, O>>) -> (a: NSMutableArray<T, O>)
        ensures
            a@ == objects_of(vec@),
    {
        NSMutableArray { array: NSArray::from_vec(vec) }
    }

    /// The number of objects in the array.
    pub fn count(&self) -> (n: usize)
        ensures
            n == self@.len(),
    {
        self.array.count()
    }

    /// The object at `index`, which must be below the count.
    pub fn object_at(&self, index: usize) -> (o: Object)
        requires
            index < self@.len(),
        ensures
            o == self@[index as int],
    {
        self.array.object_at(index)
    }

    /// The first object, or `None` if the array is empty.
    pub fn first_object(&self) -> (o: Option<Object>)
        ensures
            self@.len() == 0 ==> o is None,
            self@.len() > 0 ==> o == Some(self@[0]),
    {
        self.array.first_object()
    }

    /// The last object, or `None` if the array is empty.
    pub fn last_object(&self) -> (o: Option<Object>)
        ensures
            self@.len() == 0 ==> o is None,
            self@.len() > 0 ==> o == Some(self@.last()),
    {
        self.array.last_object()
    }

    /// The objects at the indices of `range`, which must not end before it
    /// starts nor past the count.
    pub fn objects_in_range(&self, range: Range<usize>) -> (v: Vec<Object>)
        requires
            range.start <= range.end <= self@.len(),
        ensures
            v@ == self@.subrange(range.start as int, range.end as int),
    {
        self.array.objects_in_range(range)
    }

    /// All the objects of the array, in order.
    pub fn to_vec(&self) -> (v: Vec<Object>)
        ensures
            v@ == self@,
    {
        self.array.to_vec()
    }

    /// The pointers held by `array`, in order; the retains pass to the caller.
    pub fn into_vec(array: NSMutableArray<T, O>) -> (v: Vec<Id<T, O>>)
        ensures
            objects_of(v@) == array@,
    {
        NSArray::into_vec(array.array)
    }

    /// Appends `obj`; the array takes over its retain.
    pub fn add_object(&mut self, obj: Id<T, O>)
        ensures
            final(self)@ == old(self)@.push(obj.object()),
    {
        self.array.items.push(obj);
        proof {
            assert(objects_of(self.array.items@) =~= objects_of(old(self).array.items@).push(obj.object()));
        }
    }

    /// Inserts `obj` at `index`, which must not be past the count; the array
    /// takes over its retain.
    pub fn insert_object_at(&mut self, index: usize, obj: Id<T, O>)
        requires
            index <= old(self)@.len(),
        ensures
            final(self)@ == old(self)@.insert(index as int, obj.object()),
    {
        self.array.items.insert(index, obj);
        proof {
            assert(objects_of(self.array.items@) =~= objects_of(old(self).array.items@).insert(
                index as int,
                obj.object(),
            ));
        }
    }

    /// Puts `obj` in place of the object at `index`, which must be below the
    /// count; returns the pointer that was there.
    pub fn replace_object_at(&mut self, index: usize, obj: Id<T, O>) -> (r: Id<T, O>)
        requires
            index < old(self)@.len(),
        ensures
            r.object() == old(self)@[index as int],
            final(self)@ == old(self)@.update(index as int, obj.object()),
    {
        let r = self.array.items.remove(index);
        self.array.items.insert(index, obj);
        proof {
            assert(objects_of(self.array.items@) =~= objects_of(old(self).array.items@).update(
                index as int,
                obj.object(),
            ));
        }
        r
    }

    /// Removes the object at `index`, which must be below the count; returns
    /// its pointer.
    pub fn remove_object_at(&mut self, index: usize) -> (r: Id<T, O>)
        requires
            index < old(self)@.len(),
        ensures
            r.object() == old(self)@[index as int],
            final(self)@ == old(self)@.remove(index as int),
    {
        let r = self.array.items.remove(index);
        proof {
            assert(objects_of(self.array.items@) =~= objects_of(old(self).array.items@).remove(index as int));
        }
        r
    }

    /// Removes the last object, of an array that must not be empty; returns
    /// its pointer.
    pub fn remove_last_object(&mut self) -> (r: Id<T, O>)
        requires
            old(self)@.len() > 0,
        ensures
            r.object() == old(self)@.last(),
            final(self)@ == old(self)@.drop_last(),
    {
        let n = self.array.items.len();
        let r = self.array.items.remove(n - 1);
        proof {
            assert(objects_of(self.array.items@) =~= objects_of(old(self).array.items@).drop_last());
        }
        r
    }

    /// Sorts the array with the comparison function `comparator`, which is
    /// only ever given two objects of the array: the array keeps the same
    /// objects, and every two neighbouring objects end up found in order by
    /// `comparator`.
    pub fn sort_using_function<G: Fn(Object, Object) -> NSComparisonResult>(&mut self, comparator: G)
        requires
            forall|p: Object, q: Object|
                #![trigger comparator.requires((p, q))]
                old(self)@.contains(p) && old(self)@.contains(q) ==> comparator.requires((p, q)),
        ensures
            final(self)@.to_multiset() == old(self)@.to_multiset(),
            sorted_by(comparator, final(self)@),
    {
        broadcast use vstd::multiset::group_multiset_axioms;
        broadcast use vstd::multiset::lemma_multiset_empty_len;
        broadcast use vstd::seq_lib::group_to_multiset_ensures;

        let mut src: Vec<Id<T, O>> = Vec::new();
        std::mem::swap(&mut src, &mut self.array.items);
        let ghost orig = objects_of(src@);
        assert(orig == old(self)@);
        let mut sorted: Vec<Id<T, O>> = Vec::new();
        assert(objects_of(sorted@) =~= Seq::<Object>::empty());
        assert(objects_of(sorted@).to_multiset() =~= Multiset::<Object>::empty());
        assert(objects_of(sorted@).to_multiset().add(objects_of(src@).to_multiset()) =~= orig.to_multiset());
        while src.len() > 0
            invariant
                forall|p: Object, q: Object|
                    #![trigger comparator.requires((p, q))]
                    orig.contains(p) && orig.contains(q) ==> comparator.requires((p, q)),
                forall|k: int| 0 <= k < objects_of(sorted@).len() ==> orig.contains(#[trigger] objects_of(sorted@)[k]),
                forall|k: int| 0 <= k < objects_of(src@).len() ==> orig.contains(#[trigger] objects_of(src@)[k]),
                objects_of(sorted@).to_multiset().add(objects_of(src@).to_multiset()) == orig.to_multiset(),
                sorted_by(comparator, objects_of(sorted@)),
            decreases src.len(),
        {
            let ghost src_before = src@;
            let id = src.pop().unwrap();
            let x = id.as_ptr();
            let ghost so = objects_of(sorted@);
            proof {
                assert(objects_of(src_before) =~= objects_of(src@).push(x));
                assert(objects_of(src_before)[objects_of(src_before).len() - 1] == x);
                assert(orig.contains(x));
                assert forall|k: int| 0 <= k < objects_of(src@).len() implies orig.contains(#[trigger] objects_of(src@)[k]) by {
                    assert(objects_of(src@)[k] == objects_of(src_before)[k]);
                }
            }
            let mut j: usize = sorted.len();
            loop
                invariant_except_break
                    j <= sorted@.len(),
                    so == objects_of(sorted@),
                    orig.contains(x),
                    forall|k: int| 0 <= k < so.len() ==> orig.contains(#[trigger] so[k]),
                    forall|p: Object, q: Object|
                        #![trigger comparator.requires((p, q))]
                        orig.contains(p) && orig.contains(q) ==> comparator.requires((p, q)),
                    j < sorted@.len() ==> comparator.ensures((x, so[j as int]), NSComparisonResult::Ascending),
                ensures
                    j <= sorted@.len(),
                    j < sorted@.len() ==> comparator.ensures((x, so[j as int]), NSComparisonResult::Ascending),
                    j > 0 ==> exists|r: NSComparisonResult| #[trigger] comparator.ensures((x, so[j - 1]), r) && r
                        != NSComparisonResult::Ascending,
                decreases j,
            {
                if j == 0 {
                    break;
                }
                let y = sorted[j - 1].as_ptr();
                proof {
                    assert(so[j - 1] == y);
                    assert(orig.contains(y));
                }
                let r = comparator(x, y);
                match r {
                    NSComparisonResult::Ascending => {
                        j = j - 1;
                    },
                    _ => {
                        break;
                    },
                }
            }
            sorted.insert(j, id);
            proof {
                let sn = objects_of(sorted@);
                assert(sn =~= so.insert(j as int, x));
                assert forall|k: int| 0 <= k < sn.len() implies orig.contains(#[trigger] sn[k]) by {
                    if k < j {
                        assert(sn[k] == so[k]);
                    } else if k > j {
                        assert(sn[k] == so[k - 1]);
                    }
                }
                assert forall|k: int, l: int| 0 <= k && l == k + 1 && l < sn.len() implies #[trigger] pair_sorted(
                    comparator,
                    sn[k],
                    sn[l],
                ) by {
                    if l < j {
                        assert(pair_sorted(comparator, so[k], so[l]));
                    } else if l == j {
                        let r = choose|r: NSComparisonResult| #[trigger] comparator.ensures((x, so[j - 1]), r) && r
                            != NSComparisonResult::Ascending;
                        assert(comparator.ensures((sn[l], sn[k]), r));
                    } else if k == j {
                        assert(comparator.ensures((sn[k], sn[l]), NSComparisonResult::Ascending));
                    } else {
                        assert(pair_sorted(comparator, so[k - 1], so[l - 1]));
                    }
                }
                vstd::seq_lib::to_multiset_insert(so, j as int, x);
                let rest = objects_of(src@);
                assert(objects_of(src_before) == rest.push(x));
                vstd::seq_lib::to_multiset_build(rest, x);
                assert(sn.to_multiset().add(rest.to_multiset()) =~= so.to_multiset().add(
                    objects_of(src_before).to_multiset(),
                ));
            }
        }
        proof {
            assert(objects_of(src@) =~= Seq::<Object>::empty());
            assert(objects_of(src@).to_multiset() =~= Multiset::<Object>::empty());
            assert(objects_of(sorted@).to_multiset() =~= objects_of(sorted@).to_multiset().add(
                objects_of(src@).to_multiset(),
            ));
        }
        self.array.items = sorted;
    }

    /// Removes every object, releasing the array's retain of each.
    pub fn remove_all_objects<I>(&mut self, rt: &mut Runtime<I>)
        requires
            old(rt)@.wf(),
            forall|k: int| 0 <= k < old(self)@.len() ==> old(rt)@.valid_object(#[trigger] old(self)@[k]),
            forall|o: Object| old(rt)@.valid_object(o) ==> occurrences(old(self)@, o.idx as int)
                <= #[trigger] old(rt)@.objects[o.idx as int].retain_count,
        ensures
            final(self)@ == Seq::<Object>::empty(),
            final(rt)@.wf(),
            final(rt)@ == old(rt)@.released_each(old(self)@),
    {
        let objs = self.array.to_vec();
        assert forall|k: int| 0 <= k < objs@.len() implies rt@.valid_object(#[trigger] objs@[k]) by {
            assert(old(self)@[k] == objs@[k]);
        }
        release_each(rt, &objs);
        self.array = NSArray::new();
    }
}

impl<T> INSOwnedArray for NSMutableArray<T, Owned> {
    open spec fn owned_objects(&self) -> Seq<Object> {
        self@
    }

    fn mut_object_at(&mut self, index: usize) -> (o: Object) {
        self.object_at(index)
    }
}

/// Removing the object at the index where one was just inserted gives that
/// object back and leaves the array as it was; so does removing the last
/// object right after adding one.
pub proof fn lemma_insert_then_remove(s: Seq<Object>, i: int, x: Object)
    requires
        0 <= i <= s.len(),
    ensures
        s.insert(i, x)[i] == x,
        s.insert(i, x).remove(i) == s,
        s.push(x).last() == x,
        s.push(x).drop_last() == s,
{
    assert(s.insert(i, x).remove(i) =~= s);
    assert(s.push(x).drop_last() =~= s);
}

/// Putting back the object that replacing the object at an index returned
/// gives back the array as it was.
pub proof fn lemma_replace_then_restore(s: Seq<Object>, i: int, x: Object)
    requires
        0 <= i < s.len(),
    ensures
        s.update(i, x)[i] == x,
        s.update(i, x).update(i, s[i]) == s,
{
    assert(s.update(i, x).update(i, s[i]) =~= s);
}

} // verus!
