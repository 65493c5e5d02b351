//! Reference counting: pointers that hold a retain of an object and release
//! it when given up, weak references that do not retain, and autorelease
//! pools that release objects later, when they are drained.

use vstd::prelude::*;
use std::marker::PhantomData;
use crate::id::{Id, Shared};
use crate::runtime::{Object, ObjectModel, Runtime, RuntimeModel, occurrences, lemma_occurrences_prefix};

verus! {

/// A pointer that holds one retain of an object of type `T`; it may be
/// cloned, each clone holding a retain of its own.
pub struct Retained<T> {
    obj: Box<Object>,
    phantom: PhantomData<T>,
}

impl<T> Retained<T> {
    /// The object this pointer points to.
    pub closed spec fn object(self) -> Object {
        *self.obj
    }

    /// Points to `obj`, taking over a retain the caller already holds.
    pub fn new(obj: Object) -> (r: Retained<T>)
        ensures
            r.object() == obj,
    {
        Retained { obj: Box::new(obj), phantom: PhantomData }
    }

    /// The object this pointer points to.
    pub fn as_ptr(&self) -> (o: Object)
        ensures
            o == self.object(),
    {
        *self.obj
    }

    /// Retains `obj` and points to it.
    pub fn retain<I>(rt: &mut Runtime<I>, obj: Object) -> (r: Retained<T>)
        requires
            old(rt)@.wf(),
            old(rt)@.is_live(obj),
            old(rt)@.objects[obj.idx as int].retain_count < usize::MAX,
        ensures
            final(rt)@.wf(),
            r.object() == obj,
            final(rt)@ == old(rt)@.with_retain_count(obj, old(rt)@.objects[obj.idx as int].retain_count + 1),
    {
        rt.retain(obj);
        Retained { obj: Box::new(obj), phantom: PhantomData }
    }

    /// Another pointer to the same object, retaining it once more.
    pub fn clone_retained<I>(&self, rt: &mut Runtime<I>) -> (r: Retained<T>)
        requires
            old(rt)@.wf(),
            old(rt)@.is_live(self.object()),
            old(rt)@.objects[self.object().idx as int].retain_count < usize::MAX,
        ensures
            final(rt)@.wf(),
            r.object() == self.object(),
            final(rt)@ == old(rt)@.with_retain_count(
                self.object(),
                old(rt)@.objects[self.object().idx as int].retain_count + 1,
            ),
    {
        Retained::retain(rt, *self.obj)
    }

    /// The retain count of the object.
    pub fn retain_count<I>(&self, rt: &Runtime<I>) -> (n: usize)
        requires
            rt@.valid_object(self.object()),
        ensures
            n == rt@.objects[self.object().idx as int].retain_count,
    {
        rt.retain_count(*self.obj)
    }

    /// Hands this pointer's retain over to `pool`, which releases the object
    /// when it is drained; returns the object.
    pub fn autorelease(self, pool: &mut AutoreleasePool) -> (o: Object)
        ensures
            o == self.object(),
            final(pool).pending() == old(pool).pending().push(self.object()),
    {
        let obj = *self.obj;
        pool.add(obj);
        obj
    }

    /// Gives up this pointer, releasing its retain of the object.
    pub fn release<I>(self, rt: &mut Runtime<I>)
        requires
            old(rt)@.wf(),
            old(rt)@.is_live(self.object()),
        ensures
            final(rt)@.wf(),
            final(rt)@ == old(rt)@.with_retain_count(
                self.object(),
                (old(rt)@.objects[self.object().idx as int].retain_count - 1) as nat,
            ),
    {
        rt.release(*self.obj);
    }

    /// A retained pointer that takes over the retain of an owned one.
    pub fn from_owned(owned: Owned<T>) -> (r: Retained<T>)
        ensures
            r.object() == owned.object(),
    {
        Retained { obj: Box::new(owned.obj), phantom: PhantomData }
    }
}

/// A pointer that holds one retain of an object of type `T` and is the
/// only reference to it.
pub struct Owned<T> {
    obj: Object,
    phantom: PhantomData<T>,
}

impl<T> Owned<T> {
    /// The object this pointer points to.
    pub closed spec fn object(self) -> Object {
        self.obj
    }

    /// Points to `obj`, taking over a retain the caller already holds; the
    /// caller must hold no other reference to it.
    pub fn new(obj: Object) -> (r: Owned<T>)
        ensures
            r.object() == obj,
    {
        Owned { obj, phantom: PhantomData }
    }

    /// The object this pointer points to.
    pub fn as_ptr(&self) -> (o: Object)
        ensures
            o == self.object(),
    {
        self.obj
    }

    /// An owned pointer that takes over the retain of `obj`, which must be
    /// the only reference to its object.
    pub fn from_retained(obj: Retained<T>) -> (r: Owned<T>)
        ensures
            r.object() == obj.object(),
    {
        Owned { obj: *obj.obj, phantom: PhantomData }
    }

    /// Hands this pointer's retain over to `pool`; returns the object.
    pub fn autorelease(self, pool: &mut AutoreleasePool) -> (o: Object)
        ensures
            o == self.object(),
            final(pool).pending() == old(pool).pending().push(self.object()),
    {
        Retained::from_owned(self).autorelease(pool)
    }

    /// Gives up this pointer, releasing its retain of the object.
    pub fn release<I>(self, rt: &mut Runtime<I>)
        requires
            old(rt)@.wf(),
            old(rt)@.is_live(self.object()),
        ensures
            final(rt)@.wf(),
            final(rt)@ == old(rt)@.with_retain_count(
                self.object(),
                (old(rt)@.objects[self.object().idx as int].retain_count - 1) as nat,
            ),
    {
        rt.release(self.obj);
    }
}

/// A pointer that holds one retain of an object.
pub struct StrongPtr {
    obj: Object,
}

impl StrongPtr {
    /// The object this pointer points to.
    pub closed spec fn object(self) -> Object {
        self.obj
    }

    /// Points to `obj`, taking over a retain the caller already holds.
    pub fn new(obj: Object) -> (p: StrongPtr)
        ensures
            p.object() == obj,
    {
        StrongPtr { obj }
    }

    /// The object this pointer points to.
    pub fn as_object(&self) -> (o: Object)
        ensures
            o == self.object(),
    {
        self.obj
    }

    /// Gives up this pointer, releasing its retain of the object.
    pub fn release<I>(self, rt: &mut Runtime<I>)
        requires
            old(rt)@.wf(),
            old(rt)@.is_live(self.object()),
        ensures
            final(rt)@.wf(),
            final(rt)@ == old(rt)@.with_retain_count(
                self.object(),
                (old(rt)@.objects[self.object().idx as int].retain_count - 1) as nat,
            ),
    {
        rt.release(self.obj);
    }
}

/// A weak reference to an object: it does not retain the object, and
/// loading it gives nothing once the object has been deallocated.
pub struct WeakId<T> {
    obj: Object,
    phantom: PhantomData<T>,
}

impl<T> WeakId<T> {
    /// The object this reference refers to.
    pub closed spec fn object(self) -> Object {
        self.obj
    }

    /// A weak reference to the object of `obj`.
    pub fn new(obj: &Id<T, Shared>) -> (w: WeakId<T>)
        ensures
            w.object() == obj.object(),
    {
        WeakId { obj: obj.as_ptr(), phantom: PhantomData }
    }

    /// A new shared pointer to the object, retaining it, if it is still
    /// live; `None` once it has been deallocated.
    pub fn load<I>(&self, rt: &mut Runtime<I>) -> (r: Option<Id<T, Shared>>)
        requires
            old(rt)@.wf(),
            old(rt)@.valid_object(self.object()),
            old(rt)@.objects[self.object().idx as int].retain_count < usize::MAX,
        ensures
            final(rt)@.wf(),
            old(rt)@.is_live(self.object()) ==> (r matches Some(id) && id.object() == self.object()
                && final(rt)@ == old(rt)@.with_retain_count(
                self.object(),
                old(rt)@.objects[self.object().idx as int].retain_count + 1,
            )),
            !old(rt)@.is_live(self.object()) ==> r is None && final(rt)@ == old(rt)@,
    {
        match rt.load_weak(self.obj) {
            Some(o) => Some(Id::from_retained_ptr(o)),
            None => None,
        }
    }
}

/// Retains every object of `objects` once for every time it occurs there.
pub fn retain_each<I>(rt: &mut Runtime<I>, objects: &Vec<Object>)
    requires
        old(rt)@.wf(),
        forall|k: int| 0 <= k < objects@.len() ==> old(rt)@.is_live(#[trigger] objects@[k]),
        forall|o: Object| old(rt)@.valid_object(o) ==> #[trigger] old(rt)@.objects[o.idx as int].retain_count
            + occurrences(objects@, o.idx as int) <= usize::MAX,
    ensures
        final(rt)@.wf(),
        final(rt)@ == old(rt)@.retained_each(objects@),
{
    let ghost s = objects@;
    let ghost m0 = rt@;
    let mut i: usize = 0;
    while i < objects.len()
        invariant
            i <= s.len(),
            s == objects@,
            rt@.wf(),
            rt@.classes == m0.classes,
            rt@.objects.len() == m0.objects.len(),
            forall|k: int| 0 <= k < s.len() ==> m0.is_live(#[trigger] s[k]),
            forall|o: Object| m0.valid_object(o) ==> #[trigger] m0.objects[o.idx as int].retain_count + occurrences(
                s,
                o.idx as int,
            ) <= usize::MAX,
            forall|o: Object| m0.valid_object(o) ==> #[trigger] rt@.objects[o.idx as int] == (ObjectModel {
                retain_count: m0.objects[o.idx as int].retain_count + occurrences(s.take(i as int), o.idx as int),
                ..m0.objects[o.idx as int]
            }),
        decreases s.len() - i,
    {
        let o = objects[i];
        let ghost before = rt@;
        proof {
            assert(s.take(i + 1).drop_last() =~= s.take(i as int));
            assert(s.take(i + 1).last() == o);
            lemma_occurrences_prefix(s, i + 1, o.idx as int);
            assert(m0.is_live(o));
            assert(before.objects[o.idx as int].retain_count == m0.objects[o.idx as int].retain_count + occurrences(
                s.take(i as int),
                o.idx as int,
            ));
        }
        rt.retain(o);
        proof {
            assert forall|p: Object| m0.valid_object(p) implies #[trigger] rt@.objects[p.idx as int] == (ObjectModel {
                retain_count: m0.objects[p.idx as int].retain_count + occurrences(s.take(i + 1), p.idx as int),
                ..m0.objects[p.idx as int]
            }) by {
                assert(before.objects[p.idx as int] == (ObjectModel {
                    retain_count: m0.objects[p.idx as int].retain_count + occurrences(s.take(i as int), p.idx as int),
                    ..m0.objects[p.idx as int]
                }));
            }
        }
        i = i + 1;
    }
    proof {
        let m = rt@;
        assert(s.take(i as int) =~= s);
        let target = m0.retained_each(s);
        assert(m.objects =~= target.objects) by {
            assert forall|k: int| 0 <= k < m.objects.len() implies m.objects[k] == target.objects[k] by {
                rt.lemma_object_at(k);
            }
        }
    }
}

/// Releases every object of `objects` once for every time it occurs there.
pub fn release_each<I>(rt: &mut Runtime<I>, objects: &Vec<Object>)
    requires
        old(rt)@.wf(),
        forall|k: int| 0 <= k < objects@.len() ==> old(rt)@.valid_object(#[trigger] objects@[k]),
        forall|o: Object| old(rt)@.valid_object(o) ==> occurrences(objects@, o.idx as int)
            <= #[trigger] old(rt)@.objects[o.idx as int].retain_count,
    ensures
        final(rt)@.wf(),
        final(rt)@ == old(rt)@.released_each(objects@),
{
    let ghost s = objects@;
    let ghost m0 = rt@;
    let mut i: usize = 0;
    while i < objects.len()
        invariant
            i <= s.len(),
            s == objects@,
            rt@.wf(),
            rt@.classes == m0.classes,
            rt@.objects.len() == m0.objects.len(),
            forall|k: int| 0 <= k < s.len() ==> m0.valid_object(#[trigger] s[k]),
            forall|o: Object| m0.valid_object(o) ==> occurrences(s, o.idx as int) <= #[trigger] m0.objects[o.idx as int].retain_count,
            forall|o: Object| m0.valid_object(o) ==> #[trigger] rt@.objects[o.idx as int] == (ObjectModel {
                retain_count: (m0.objects[o.idx as int].retain_count - occurrences(s.take(i as int), o.idx as int)) as nat,
                ..m0.objects[o.idx as int]
            }),
        decreases s.len() - i,
    {
        let o = objects[i];
        let ghost before = rt@;
        proof {
            assert(s.take(i + 1).drop_last() =~= s.take(i as int));
            assert(s.take(i + 1).last() == o);
            lemma_occurrences_prefix(s, i + 1, o.idx as int);
            assert(m0.valid_object(o));
            assert(before.objects[o.idx as int].retain_count == m0.objects[o.idx as int].retain_count - occurrences(s.take(i as int), o.idx as int));
        }
        rt.release(o);
        proof {
            assert forall|p: Object| m0.valid_object(p) implies #[trigger] rt@.objects[p.idx as int] == (ObjectModel {
                retain_count: (m0.objects[p.idx as int].retain_count - occurrences(s.take(i + 1), p.idx as int)) as nat,
                ..m0.objects[p.idx as int]
            }) by {
                assert(before.objects[p.idx as int] == (ObjectModel {
                    retain_count: (m0.objects[p.idx as int].retain_count - occurrences(s.take(i as int), p.idx as int)) as nat,
                    ..m0.objects[p.idx as int]
                }));
                lemma_occurrences_prefix(s, i + 1, p.idx as int);
            }
        }
        i = i + 1;
    }
    proof {
        let m = rt@;
        assert(s.take(i as int) =~= s);
        let target = m0.released_each(s);
        assert(m.objects =~= target.objects) by {
            assert forall|k: int| 0 <= k < m.objects.len() implies m.objects[k] == target.objects[k] by {
                rt.lemma_object_at(k);
            }
        }
    }
}

/// Releasing an object whose retain count is one deallocates it, so that a
/// weak reference to it loads nothing from then on; releasing an object
/// with a higher count keeps it live.
pub proof fn lemma_last_release_deallocates<I>(m: RuntimeModel<I>, o: Object)
    requires
        m.is_live(o),
    ensures
        ({
            let n = m.objects[o.idx as int].retain_count;
            let released = m.with_retain_count(o, (n - 1) as nat);
            &&& released.valid_object(o)
            &&& (n == 1 ==> !released.is_live(o))
            &&& (n > 1 ==> released.is_live(o))
        }),
{
}

/// Releasing every object of a sequence once for each time it occurs there
/// undoes retaining them the same way.
pub proof fn lemma_release_each_undoes_retain_each<I>(m: RuntimeModel<I>, objs: Seq<Object>)
    ensures
        m.retained_each(objs).released_each(objs) == m,
{
    let back = m.retained_each(objs).released_each(objs);
    assert(back.objects =~= m.objects);
}

/// A pool of objects to be released later: every time an object is
/// autoreleased into it, it is released once when the pool is drained.
pub struct AutoreleasePool {
    objects: Vec<Object>,
}

impl AutoreleasePool {
    /// The objects autoreleased into this pool, in order (an object occurs
    /// once for every time it was autoreleased).
    pub closed spec fn pending(&self) -> Seq<Object> {
        self.objects@
    }

    /// An empty pool.
    pub fn new() -> (p: AutoreleasePool)
        ensures
            p.pending() == Seq::<Object>::empty(),
    {
        AutoreleasePool { objects: Vec::new() }
    }

    /// Autoreleases `obj` into this pool.
    pub fn add(&mut self, obj: Object)
        ensures
            final(self).pending() == old(self).pending().push(obj),
    {
        self.objects.push(obj);
    }

    /// Drains the pool: every object is released once for every time it was
    /// autoreleased into it.
    pub fn drain<I>(self, rt: &mut Runtime<I>)
        requires
            old(rt)@.wf(),
            forall|k: int| 0 <= k < self.pending().len() ==> old(rt)@.valid_object(#[trigger] self.pending()[k]),
            forall|o: Object| old(rt)@.valid_object(o) ==> occurrences(self.pending(), o.idx as int)
                <= #[trigger] old(rt)@.objects[o.idx as int].retain_count,
        ensures
            final(rt)@.wf(),
            final(rt)@ == old(rt)@.released_each(self.pending()),
    {
        assert forall|k: int| 0 <= k < self.objects@.len() implies rt@.valid_object(#[trigger] self.objects@[k]) by {
            assert(self.pending()[k] == self.objects@[k]);
        }
        release_each(rt, &self.objects);
    }
}

/// Marks the types that are safe to carry across a closure run in an
/// autorelease pool: values that do not refer to a pool. The pool itself
/// does not have it.
pub trait AutoreleaseSafe {
}

impl AutoreleaseSafe for usize {
}

impl AutoreleaseSafe for isize {
}

impl AutoreleaseSafe for u32 {
}

impl AutoreleaseSafe for i32 {
}

impl AutoreleaseSafe for u64 {
}

impl AutoreleaseSafe for i64 {
}

impl AutoreleaseSafe for bool {
}

impl AutoreleaseSafe for Object {
}

impl AutoreleaseSafe for Option<Object> {
}

impl<'a> AutoreleaseSafe for &'a Object {
}

impl<'a> AutoreleaseSafe for &'a mut Object {
}

} // verus!
