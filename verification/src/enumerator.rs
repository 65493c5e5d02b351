//! Enumerating the objects of a collection, one at a time
//! (`NSEnumerator`) or in batches handed over by the collection
//! (`NSFastEnumerator`, over the fast enumeration protocol).

use vstd::prelude::*;
use crate::array::{NSArray, NSMutableArray};
use crate::id::Ownership;
use crate::runtime::Object;

verus! {

/// The number of objects a fast enumerator asks its collection for at once.
pub const FAST_ENUM_BUF_SIZE: usize = 16;

/// The state of a fast enumeration: how many objects the collection has
/// handed out so far.
pub struct NSFastEnumerationState {
    handed_out: usize,
}

impl NSFastEnumerationState {
    /// How many objects the collection has handed out so far.
    pub closed spec fn handed_out_spec(&self) -> nat {
        self.handed_out as nat
    }

    /// The state of an enumeration that has not started.
    pub fn new() -> (s: NSFastEnumerationState)
        ensures
            s.handed_out_spec() == 0,
    {
        NSFastEnumerationState { handed_out: 0 }
    }

    /// How many objects the collection has handed out so far.
    pub fn handed_out(&self) -> (n: usize)
        ensures
            n == self.handed_out_spec(),
    {
        self.handed_out
    }
}

/// Collections whose objects can be enumerated in batches.
pub trait INSFastEnumeration {
    /// The objects of the collection, in the order they are enumerated.
    spec fn enumerated(&self) -> Seq<Object>;

    /// Hands out the next objects of an enumeration in state `state`:
    /// replaces the contents of `buf` with the next `len` objects, or with
    /// all that are left if fewer are, and returns how many it handed out.
    fn count_by_enumerating(&self, state: &mut NSFastEnumerationState, buf: &mut Vec<Object>, len: usize) -> (count:
        usize)
        requires
            old(state).handed_out_spec() <= self.enumerated().len(),
        ensures
            count == if len <= self.enumerated().len() - old(state).handed_out_spec() {
                len as int
            } else {
                self.enumerated().len() - old(state).handed_out_spec()
            },
            final(buf)@ == self.enumerated().subrange(
                old(state).handed_out_spec() as int,
                old(state).handed_out_spec() + count,
            ),
            final(state).handed_out_spec() == old(state).handed_out_spec() + count,
    ;
}

/// Copies the objects of `objects` from index `start` on, at most `len` of
/// them, into `buf`; returns how many it copied.
fn copy_batch(objects: &Vec<Object>, start: usize, buf: &mut Vec<Object>, len: usize) -> (count: usize)
    requires
        start <= objects@.len(),
    ensures
        count == if len <= objects@.len() - start {
            len as int
        } else {
            objects@.len() - start
        },
        final(buf)@ == objects@.subrange(start as int, start + count),
        start + count <= objects.len(),
{
    let left = objects.len() - start;
    let count = if len <= left {
        len
    } else {
        left
    };
    buf.clear();
    let mut i: usize = 0;
    while i < count
        invariant
            i <= count,
            start + count <= objects.len(),
            objects.len() == objects@.len(),
            buf@ == objects@.subrange(start as int, start + i),
        decreases count - i,
    {
        buf.push(objects[start + i]);
        proof {
            assert(objects@.subrange(start as int, start + i + 1) =~= objects@.subrange(start as int, start + i).push(
                objects@[start + i],
            ));
        }
        i = i + 1;
    }
    count
}

impl<T, O: Ownership> INSFastEnumeration for NSArray<T, O> {
    open spec fn enumerated(&self) -> Seq<Object> {
        self@
    }

    fn count_by_enumerating(&self, state: &mut NSFastEnumerationState, buf: &mut Vec<Object>, len: usize) -> (count:
        usize) {
        let objects = self.to_vec();
        let count = copy_batch(&objects, state.handed_out, buf, len);
        state.handed_out = state.handed_out + count;
        count
    }
}

impl<T, O: Ownership> INSFastEnumeration for NSMutableArray<T, O> {
    open spec fn enumerated(&self) -> Seq<Object> {
        self@
    }

    fn count_by_enumerating(&self, state: &mut NSFastEnumerationState, buf: &mut Vec<Object>, len: usize) -> (count:
        usize) {
        let objects = self.to_vec();
        let count = copy_batch(&objects, state.handed_out, buf, len);
        state.handed_out = state.handed_out + count;
        count
    }
}

/// Enumerates the objects of a collection in batches of at most
/// `FAST_ENUM_BUF_SIZE`, asking the collection for the next batch when the
/// current one runs out.
pub struct NSFastEnumerator<'a, C> {
    object: &'a C,
    buf: Vec<Object>,
    pos: usize,
    state: NSFastEnumerationState,
}

impl<'a, C: INSFastEnumeration> NSFastEnumerator<'a, C> {
    /// The objects being enumerated, in order.
    pub closed spec fn seq(&self) -> Seq<Object> {
        self.object.enumerated()
    }

    /// How many objects have been enumerated so far.
    pub closed spec fn index(&self) -> int {
        self.state.handed_out_spec() - self.buf@.len() + self.pos
    }

    /// The enumerator's invariant: the current batch holds the objects just
    /// before those not yet handed out, and its position lies within it.
    pub closed spec fn wf(&self) -> bool {
        &&& self.state.handed_out_spec() <= self.object.enumerated().len()
        &&& self.buf@.len() <= self.state.handed_out_spec()
        &&& self.pos <= self.buf@.len()
        &&& self.buf@ == self.object.enumerated().subrange(
            self.state.handed_out_spec() - self.buf@.len(),
            self.state.handed_out_spec() as int,
        )
    }

    /// An enumerator over the objects of `object`, none enumerated yet.
    pub fn new(object: &'a C) -> (e: NSFastEnumerator<'a, C>)
        ensures
            e.wf(),
            e.seq() == object.enumerated(),
            e.index() == 0,
    {
        let e = NSFastEnumerator { object, buf: Vec::new(), pos: 0, state: NSFastEnumerationState::new() };
        assert(e.buf@ =~= object.enumerated().subrange(0, 0));
        e
    }

    /// Asks the collection for the next batch, once the current one has run
    /// out; returns whether it handed out any object.
    fn update_buf(&mut self) -> (more: bool)
        requires
            old(self).wf(),
            old(self).pos == old(self).buf@.len(),
        ensures
            final(self).wf(),
            final(self).seq() == old(self).seq(),
            final(self).index() == old(self).index(),
            more <==> old(self).index() < old(self).seq().len(),
            more ==> final(self).pos < final(self).buf@.len(),
    {
        let count = self.object.count_by_enumerating(&mut self.state, &mut self.buf, FAST_ENUM_BUF_SIZE);
        self.pos = 0;
        count > 0
    }

    /// The next object, or `None` once every object has been enumerated.
    pub fn next(&mut self) -> (r: Option<Object>)
        requires
            old(self).wf(),
        ensures
            final(self).wf(),
            final(self).seq() == old(self).seq(),
            old(self).index() < old(self).seq().len() ==> r == Some(old(self).seq()[old(self).index()])
                && final(self).index() == old(self).index() + 1,
            old(self).index() >= old(self).seq().len() ==> r is None && final(self).index() == old(self).index(),
    {
        if self.pos == self.buf.len() {
            if !self.update_buf() {
                return None;
            }
        }
        let o = self.buf[self.pos];
        self.pos = self.pos + 1;
        Some(o)
    }
}

/// Enumerates the objects of a collection one at a time.
pub struct NSEnumerator {
    objects: Vec<Object>,
    next: usize,
}

impl NSEnumerator {
    /// The objects being enumerated, in order.
    pub closed spec fn seq(&self) -> Seq<Object> {
        self.objects@
    }

    /// How many objects have been enumerated so far.
    pub closed spec fn index(&self) -> int {
        self.next as int
    }

    /// The enumerator's invariant: it has not gone past the end.
    pub closed spec fn wf(&self) -> bool {
        self.next <= self.objects@.len()
    }

    /// An enumerator over `objects`, none enumerated yet.
    pub fn from_objects(objects: Vec<Object>) -> (e: NSEnumerator)
        ensures
            e.wf(),
            e.seq() == objects@,
            e.index() == 0,
    {
        NSEnumerator { objects, next: 0 }
    }

    /// The next object, or `None` once every object has been enumerated.
    pub fn next(&mut self) -> (r: Option<Object>)
        requires
            old(self).wf(),
        ensures
            final(self).wf(),
            final(self).seq() == old(self).seq(),
            old(self).index() < old(self).seq().len() ==> r == Some(old(self).seq()[old(self).index()])
                && final(self).index() == old(self).index() + 1,
            old(self).index() >= old(self).seq().len() ==> r is None && final(self).index() == old(self).index(),
    {
        if self.next < self.objects.len() {
            let o = self.objects[self.next];
            self.next = self.next + 1;
            Some(o)
        } else {
            None
        }
    }
}

impl<T, O: Ownership> NSArray<T, O> {
    /// An enumerator over the objects of the array, in order.
    pub fn object_enumerator(&self) -> (e: NSEnumerator)
        ensures
            e.wf(),
            e.seq() == self@,
            e.index() == 0,
    {
        NSEnumerator::from_objects(self.to_vec())
    }

    /// A fast enumerator over the objects of the array, in order.
    pub fn enumerator(&self) -> (e: NSFastEnumerator<'_, NSArray<T, O>>)
        ensures
            e.wf(),
            e.seq() == self@,
            e.index() == 0,
    {
        NSFastEnumerator::new(self)
    }
}

impl<T, O: Ownership> NSMutableArray<T, O> {
    /// An enumerator over the objects of the array, in order.
    pub fn object_enumerator(&self) -> (e: NSEnumerator)
        ensures
            e.wf(),
            e.seq() == self@,
            e.index() == 0,
    {
        NSEnumerator::from_objects(self.to_vec())
    }

    /// A fast enumerator over the objects of the array, in order.
    pub fn enumerator(&self) -> (e: NSFastEnumerator<'_, NSMutableArray<T, O>>)
        ensures
            e.wf(),
            e.seq() == self@,
            e.index() == 0,
    {
        NSFastEnumerator::new(self)
    }
}

} // verus!
