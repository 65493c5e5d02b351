use std::mem::size_of;

use objc::rc::{AutoreleasePool, AutoreleaseSafe, Owned, Retained, StrongPtr, WeakId};
use objc::id::{Id, Shared};
use objc::runtime::{Class, Object, Runtime};

fn requires_autoreleasesafe<T: AutoreleaseSafe>() {}

#[test]
fn test_autoreleasesafe() {
    requires_autoreleasesafe::<usize>();
    requires_autoreleasesafe::<Option<Object>>();
    requires_autoreleasesafe::<&mut Object>();
}

pub struct TestType {
    _data: [u8; 0],
}

#[test]
fn test_size_of() {
    assert_eq!(size_of::<Retained<TestType>>(), size_of::<&TestType>());
    assert_eq!(size_of::<Option<Retained<TestType>>>(), size_of::<&TestType>());
}

fn new_object(rt: &mut Runtime<u8>) -> Object {
    let root = Class::get(rt, "NSObject").unwrap();
    rt.create_instance(root)
}

#[test]
fn retained_clone_and_release_count() {
    let mut rt: Runtime<u8> = Runtime::new(|_| 0);
    let o = new_object(&mut rt);
    let obj: Retained<Object> = Retained::new(o);
    assert_eq!(obj.retain_count(&rt), 1);
    let cloned = obj.clone_retained(&mut rt);
    assert_eq!(cloned.retain_count(&rt), 2);
    assert_eq!(cloned.as_ptr(), obj.as_ptr());
    cloned.release(&mut rt);
    assert_eq!(rt.retain_count(o), 1);
    obj.release(&mut rt);
    assert_eq!(rt.retain_count(o), 0);
}

#[test]
fn weak_load_before_and_after_dealloc() {
    let mut rt: Runtime<u8> = Runtime::new(|_| 0);
    let o = new_object(&mut rt);
    let strong: Id<Object, Shared> = Id::from_retained_ptr(o);
    let weak: WeakId<Object> = WeakId::new(&strong);
    let loaded = weak.load(&mut rt).unwrap();
    assert_eq!(loaded.as_ptr(), o);
    assert_eq!(rt.retain_count(o), 2);
    loaded.release(&mut rt);
    strong.release(&mut rt);
    assert_eq!(rt.retain_count(o), 0);
    assert!(weak.load(&mut rt).is_none());
    assert_eq!(rt.retain_count(o), 0);
}

#[test]
fn pool_drain_releases_each_autorelease() {
    let mut rt: Runtime<u8> = Runtime::new(|_| 0);
    let a = new_object(&mut rt);
    let b = new_object(&mut rt);
    rt.retain(a);
    rt.retain(a);
    let mut pool = AutoreleasePool::new();
    let ra: Retained<Object> = Retained::new(a);
    let owned: Owned<Object> = Owned::new(b);
    assert_eq!(ra.autorelease(&mut pool), a);
    assert_eq!(owned.autorelease(&mut pool), b);
    pool.add(a);
    assert_eq!(rt.retain_count(a), 3);
    pool.drain(&mut rt);
    assert_eq!(rt.retain_count(a), 1);
    assert_eq!(rt.retain_count(b), 0);
}

#[test]
fn strong_ptr_release() {
    let mut rt: Runtime<u8> = Runtime::new(|_| 0);
    let o = new_object(&mut rt);
    let p = StrongPtr::new(o);
    assert_eq!(p.as_object(), o);
    p.release(&mut rt);
    assert_eq!(rt.retain_count(o), 0);
}

#[test]
fn owned_from_retained_keeps_object() {
    let mut rt: Runtime<u8> = Runtime::new(|_| 0);
    let o = new_object(&mut rt);
    let r: Retained<Object> = Retained::new(o);
    let owned = Owned::from_retained(r);
    assert_eq!(owned.as_ptr(), o);
    let back = Retained::from_owned(owned);
    assert_eq!(back.as_ptr(), o);
}

#[test]
fn into_id_vec_retains_each_pointer() {
    let mut rt: Runtime<u8> = Runtime::new(|_| 0);
    let a = new_object(&mut rt);
    let b = new_object(&mut rt);
    let ids: Vec<Id<Object, Shared>> = objc::id::into_id_vec(&mut rt, vec![a, b, a]);
    assert_eq!(ids.len(), 3);
    assert_eq!(ids[2].as_ptr(), a);
    assert_eq!(rt.retain_count(a), 3);
    assert_eq!(rt.retain_count(b), 2);
    objc::rc::release_each(&mut rt, &vec![a, b, a]);
    assert_eq!(rt.retain_count(a), 1);
    assert_eq!(rt.retain_count(b), 1);
}
