use std::mem::size_of;

use objc::encode::Encode;
use objc::message::Message;
use objc::id::{Id, Owned, Shared};
use objc::rc::{Retained, WeakId};
use objc::runtime::{Class, Object, Runtime, Sel, BOOL};

/// A runtime whose root methods all have the implementation `0`.
fn new_runtime() -> Runtime<u8> {
    Runtime::new(|_| 0)
}

fn sample_object(rt: &mut Runtime<u8>) -> Object {
    let root = Class::get(rt, "NSObject").unwrap();
    rt.create_instance(root)
}

#[test]
fn runtime_test_ivar() {
    let rt = new_runtime();
    let cls = Class::get(&rt, "NSObject").unwrap();
    let ivar = cls.instance_variable(&rt, "isa").unwrap();
    assert!(ivar.name() == "isa");
    assert!(ivar.type_encoding().as_str() == "#");
    assert!(ivar.type_encoding().as_str() == Class::encode().as_str());
    assert!(ivar.offset() == 0);

    let ivars = cls.instance_variables(&rt);
    assert!(ivars.len() > 0);
}

#[test]
fn runtime_test_method() {
    let rt = new_runtime();
    let cls = Class::get(&rt, "NSObject").unwrap();
    let sel = Sel::register("description");
    let method = cls.instance_method(&rt, &sel).unwrap();
    assert!(method.name().name() == "description");
    assert!(method.type_encoding() != "");
    assert!(method.arguments_count() == 2);
    assert!(method.return_type().as_str() == "@");
    assert!(method.argument_type(1).unwrap().as_str() == ":");
    assert_eq!(method.argument_type(1).unwrap().as_str(), Sel::encode().as_str());

    let methods = cls.instance_methods(&rt);
    assert!(methods.len() > 0);
}

#[test]
fn runtime_test_class() {
    let mut rt = new_runtime();
    let cls = Class::get(&rt, "NSObject").unwrap();
    assert!(cls.name(&rt) == "NSObject");
    assert!(cls.instance_size(&rt) == size_of::<&Class>());
    assert!(cls.superclass(&rt).is_none());

    let metaclass = cls.metaclass(&rt);
    assert!(metaclass.instance_size(&rt) > 0);

    let decl = objc::declare::ClassDecl::new(&mut rt, cls, "CustomObject").unwrap();
    let subclass = decl.register(&mut rt);
    assert!(subclass.superclass(&rt).unwrap() == cls);
}

#[test]
fn runtime_test_classes() {
    let rt = new_runtime();
    let classes_count = Class::classes_count(&rt);
    assert!(classes_count > 0);

    let classes = Class::classes(&rt);
    assert!(classes.len() == classes_count);
}

#[test]
fn runtime_test_object() {
    let mut rt = new_runtime();
    let cls = Class::get(&rt, "NSObject").unwrap();
    let obj = sample_object(&mut rt);
    assert!(obj.class(&rt) == cls);
    let isa: Class = obj.get_ivar::<Class, u8>(&rt, "isa");
    assert!(isa == cls);
    rt.release(obj);
    assert_eq!(rt.retain_count(obj), 0);
}

#[test]
fn test_weak() {
    let mut rt = new_runtime();
    let o = sample_object(&mut rt);
    let obj: Id<Object, Owned> = Id::from_retained_ptr(o);
    let obj = obj.share();

    let weak = WeakId::new(&obj);
    let strong = weak.load(&mut rt).unwrap();
    assert!(strong.as_ptr() == obj.as_ptr());
    strong.release(&mut rt);

    obj.release(&mut rt);
    assert!(weak.load(&mut rt).is_none());
}

#[test]
fn id_test_clone() {
    let mut rt = new_runtime();
    let o = sample_object(&mut rt);
    let obj: Id<Object, Owned> = Id::from_retained_ptr(o);
    assert!(rt.retain_count(obj.as_ptr()) == 1);

    let obj = obj.share();
    assert!(rt.retain_count(obj.as_ptr()) == 1);

    let cloned = obj.clone_shared(&mut rt);
    assert!(rt.retain_count(cloned.as_ptr()) == 2);
    assert!(rt.retain_count(obj.as_ptr()) == 2);

    obj.release(&mut rt);
    assert!(rt.retain_count(cloned.as_ptr()) == 1);
}

#[test]
fn test_size() {
    let id_size = size_of::<Id<Object, Owned>>();
    let ptr_size = size_of::<&Object>();
    assert!(id_size == ptr_size);
}

#[test]
fn retained_test_clone() {
    let mut rt = new_runtime();
    let o = sample_object(&mut rt);
    let obj: Retained<Object> = Retained::new(o);
    assert!(obj.retain_count(&rt) == 1);

    let cloned = obj.clone_retained(&mut rt);
    assert!(cloned.retain_count(&rt) == 2);
    assert!(obj.retain_count(&rt) == 2);

    obj.release(&mut rt);
    assert!(cloned.retain_count(&rt) == 1);
}

#[test]
fn maybe_from_ptr_of_nil_is_none() {
    let mut rt = new_runtime();
    let none: Option<Id<Object, Shared>> = Id::maybe_from_ptr(&mut rt, None);
    assert!(none.is_none());
    let o = sample_object(&mut rt);
    let some: Option<Id<Object, Shared>> = Id::maybe_from_ptr(&mut rt, Some(o));
    assert_eq!(some.unwrap().as_ptr(), o);
    assert_eq!(rt.retain_count(o), 2);
}

#[test]
fn root_methods_are_installed() {
    let mut rt = new_runtime();
    let obj = sample_object(&mut rt);
    assert!(obj.verify_message::<(&Class,), BOOL, u8>(&rt, &Sel::register("isKindOfClass:")).is_ok());
    assert!(obj.verify_message::<(), usize, u8>(&rt, &Sel::register("hash")).is_ok());
    assert!(obj.verify_message::<(), Object, u8>(&rt, &Sel::register("description")).is_ok());
    assert!(obj.verify_message::<(), Object, u8>(&rt, &Sel::register("self")).is_ok());
    assert!(obj.verify_message::<(), (), u8>(&rt, &Sel::register("release")).is_ok());
    assert!(obj.verify_message::<(Sel,), BOOL, u8>(&rt, &Sel::register("respondsToSelector:")).is_ok());
    assert!(obj.verify_message::<(), Object, u8>(&rt, &Sel::register("alloc")).is_err());

    let cls = Class::get(&rt, "NSObject").unwrap();
    assert!(cls.verify_message::<(), Object, u8>(&rt, &Sel::register("alloc")).is_ok());
    assert!(cls.verify_message::<(), Class, u8>(&rt, &Sel::register("class")).is_ok());
    assert_eq!(cls.instance_methods(&rt).len(), 15);
    assert_eq!(cls.metaclass(&rt).instance_methods(&rt).len(), 5);

    let method = cls.instance_method(&rt, &Sel::register("isKindOfClass:")).unwrap();
    assert_eq!(method.type_encoding(), "c@:#");
    assert_eq!(method.arguments_count(), 3);
    assert_eq!(method.argument_type(0).unwrap().as_str(), "@");
    assert_eq!(method.argument_type(2).unwrap().as_str(), "#");
}
