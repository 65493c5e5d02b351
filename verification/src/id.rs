//! `Id`: a pointer that holds one retain of an object, either owned (the
//! only reference to the object) or shared (one of several).

use vstd::prelude::*;
use std::marker::PhantomData;
use crate::rc::retain_each;
use crate::runtime::{occurrences, Object, Runtime, RuntimeModel};

verus! {

/// Marks that a pointer owns its object: there is no other reference to it.
pub struct Owned;

/// Marks that a pointer's object is shared: there may be other references
/// to it.
pub struct Shared;

/// The ownership a pointer has over its object: `Owned` or `Shared`.
pub trait Ownership {
}

impl Ownership for Owned {
}

impl Ownership for Shared {
}

/// A pointer to an object of type `T` that holds one retain of it, with
/// ownership `O`.
pub struct Id<T, O> {
    obj: Object,
    phantom: PhantomData<(T, O)>,
}

/// A shared `Id`.
pub type ShareId<T> = Id<T, Shared>;

impl<T, O: Ownership> Id<T, O> {
    /// The object this pointer points to.
    pub closed spec fn object(self) -> Object {
        self.obj
    }

    /// Retains `obj` and points to it.
    pub fn from_ptr<I>(rt: &mut Runtime<I>, obj: Object) -> (id: Id<T, O>)
        requires
            old(rt)@.wf(),
            old(rt)@.is_live(obj),
            old(rt)@.objects[obj.idx as int].retain_count < usize::MAX,
        ensures
            final(rt)@.wf(),
            id.object() == obj,
            final(rt)@ == old(rt)@.with_retain_count(obj, old(rt)@.objects[obj.idx as int].retain_count + 1),
    {
        rt.retain(obj);
        Id { obj, phantom: PhantomData }
    }

    /// Points to `obj`, taking over a retain that the caller already holds.
    pub fn from_retained_ptr(obj: Object) -> (id: Id<T, O>)
        ensures
            id.object() == obj,
    {
        Id { obj, phantom: PhantomData }
    }

    /// Retains `obj` and points to it, or gives `None` for nil.
    pub fn maybe_from_ptr<I>(rt: &mut Runtime<I>, obj: Option<Object>) -> (id: Option<Id<T, O>>)
        requires
            old(rt)@.wf(),
            obj matches Some(o) ==> old(rt)@.is_live(o) && old(rt)@.objects[o.idx as int].retain_count
                < usize::MAX,
        ensures
            final(rt)@.wf(),
            match obj {
                Some(o) => id matches Some(i) && i.object() == o && final(rt)@ == old(rt)@.with_retain_count(
                    o,
                    old(rt)@.objects[o.idx as int].retain_count + 1,
                ),
                None => id is None && final(rt)@ == old(rt)@,
            },
    {
        match obj {
            Some(o) => Some(Id::from_ptr(rt, o)),
            None => None,
        }
    }

    /// Points to `obj`, taking over a retain the caller holds, or gives
    /// `None` for nil.
    pub fn maybe_from_retained_ptr(obj: Option<Object>) -> (id: Option<Id<T, O>>)
        ensures
            match obj {
                Some(o) => id matches Some(i) && i.object() == o,
                None => id is None,
            },
    {
        match obj {
            Some(o) => Some(Id::from_retained_ptr(o)),
            None => None,
        }
    }

    /// The object this pointer points to.
    pub fn as_ptr(&self) -> (o: Object)
        ensures
            o == self.object(),
    {
        self.obj
    }

    /// Gives up this pointer, releasing its retain of the object.
    pub fn release<I>(self, rt: &mut Runtime<I>)
        requires
            old(rt)@.wf(),
            old(rt)@.is_live(self.object()),
        ensures
            final(rt)@.wf(),
            final(rt)@ == old(rt)@.with_retain_count(
                self.object(),
                (old(rt)@.objects[self.object().idx as int].retain_count - 1) as nat,
            ),
    {
        rt.release(self.obj);
    }
}

impl<T> Id<T, Owned> {
    /// Turns an owned pointer into a shared one, which can be cloned.
    pub fn share(self) -> (id: Id<T, Shared>)
        ensures
            id.object() == self.object(),
    {
        Id { obj: self.obj, phantom: PhantomData }
    }
}

impl<T> Id<T, Shared> {
    /// Another shared pointer to the same object, retaining it once more.
    pub fn clone_shared<I>(&self, rt: &mut Runtime<I>) -> (id: Id<T, Shared>)
        requires
            old(rt)@.wf(),
            old(rt)@.is_live(self.object()),
            old(rt)@.objects[self.object().idx as int].retain_count < usize::MAX,
        ensures
            final(rt)@.wf(),
            id.object() == self.object(),
            final(rt)@ == old(rt)@.with_retain_count(
                self.object(),
                old(rt)@.objects[self.object().idx as int].retain_count + 1,
            ),
    {
        rt.retain(self.obj);
        Id { obj: self.obj, phantom: PhantomData }
    }
}

/// Pointers to the objects of `objs`, in order, retaining each object once
/// for every pointer made to it.
pub fn into_id_vec<T, O: Ownership, I>(rt: &mut Runtime<I>, objs: Vec<Object>) -> (v: Vec<Id<T, O>>)
    requires
        old(rt)@.wf(),
        forall|k: int| 0 <= k < objs@.len() ==> old(rt)@.is_live(#[trigger] objs@[k]),
        forall|o: Object| old(rt)@.valid_object(o) ==> #[trigger] old(rt)@.objects[o.idx as int].retain_count
            + occurrences(objs@, o.idx as int) <= usize::MAX,
    ensures
        final(rt)@.wf(),
        final(rt)@ == old(rt)@.retained_each(objs@),
        objects_of(v@) == objs@,
{
    retain_each(rt, &objs);
    let mut v: Vec<Id<T, O>> = Vec::new();
    let mut i: usize = 0;
    while i < objs.len()
        invariant
            i <= objs@.len(),
            objects_of(v@) == objs@.take(i as int),
        decreases objs@.len() - i,
    {
        let ghost before = v@;
        let id: Id<T, O> = Id::from_retained_ptr(objs[i]);
        v.push(id);
        proof {
            assert(v@ == before.push(id));
            assert(objects_of(v@) =~= objects_of(before).push(objs@[i as int]));
            assert(objects_of(v@) =~= objs@.take(i + 1));
        }
        i = i + 1;
    }
    proof {
        assert(objs@.take(i as int) =~= objs@);
    }
    v
}

/// The objects that a sequence of pointers point to.
pub open spec fn objects_of<T, O: Ownership>(ids: Seq<Id<T, O>>) -> Seq<Object> {
    ids.map_values(|i: Id<T, O>| i.object())
}

/// Extension methods for slices of `Id`s.
pub trait IdSlice<T, O: Ownership> {
    /// The pointers held.
    spec fn ids_spec(&self) -> Seq<Id<T, O>>;

    /// The objects the pointers point to, in order.
    fn as_refs_slice(&self) -> (r: Vec<Object>)
        ensures
            r@ == objects_of(self.ids_spec()),
    ;
}

impl<T, O: Ownership> IdSlice<T, O> for [Id<T, O>] {
    open spec fn ids_spec(&self) -> Seq<Id<T, O>> {
        self@
    }

    fn as_refs_slice(&self) -> (r: Vec<Object>) {
        let mut r: Vec<Object> = Vec::new();
        let mut i: usize = 0;
        while i < self.len()
            invariant
                i <= self@.len(),
                r@ == objects_of(self@.take(i as int)),
            decreases self@.len() - i,
        {
            r.push(self[i].as_ptr());
            proof {
                assert(objects_of(self@.take(i + 1)) =~= objects_of(self@.take(i as int)).push(self@[i as int].object()));
            }
            i = i + 1;
        }
        proof {
            assert(self@.take(i as int) =~= self@);
        }
        r
    }
}

/// Extension methods for vectors of `Id`s.
pub trait IdVector<T, O: Ownership> {
    /// The pointers held.
    spec fn ids_spec(&self) -> Seq<Id<T, O>>;

    /// The objects the pointers point to, in order.
    fn as_refs_slice(&self) -> (r: Vec<Object>)
        ensures
            r@ == objects_of(self.ids_spec()),
    ;
}

impl<T, O: Ownership> IdVector<T, O> for Vec<Id<T, O>> {
    open spec fn ids_spec(&self) -> Seq<Id<T, O>> {
        self@
    }

    fn as_refs_slice(&self) -> (r: Vec<Object>) {
        IdSlice::as_refs_slice(self.as_slice())
    }
}

} // verus!
