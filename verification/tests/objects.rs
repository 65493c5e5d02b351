use objc::cache::{CachedClass, CachedSel};
use objc::declare::ClassDecl;
use objc::id::{Id, Owned};
use objc::runtime::{Class, Object, Runtime};

fn new_object(rt: &mut Runtime<u8>) -> Id<Object, Owned> {
    let root = Class::get(rt, "NSObject").unwrap();
    Id::from_retained_ptr(rt.create_instance(root))
}

#[test]
fn test_is_equal() {
    let mut rt: Runtime<u8> = Runtime::new(|_| 0);
    let obj1 = new_object(&mut rt);
    assert!(obj1.as_ptr().is_equal(obj1.as_ptr()));

    let obj2 = new_object(&mut rt);
    assert!(!obj1.as_ptr().is_equal(obj2.as_ptr()));
}

#[test]
fn test_hash_code() {
    let mut rt: Runtime<u8> = Runtime::new(|_| 0);
    let obj = new_object(&mut rt);
    assert!(obj.as_ptr().hash_code() == obj.as_ptr().hash_code());
}

#[test]
fn test_is_kind_of() {
    let mut rt: Runtime<u8> = Runtime::new(|_| 0);
    let root = Class::get(&rt, "NSObject").unwrap();
    let string_class = ClassDecl::new(&mut rt, root, "NSString").unwrap().register(&mut rt);
    let obj = new_object(&mut rt);
    assert!(obj.as_ptr().is_kind_of(&rt, root));
    assert!(!obj.as_ptr().is_kind_of(&rt, string_class));
}

#[test]
fn subclass_instance_is_kind_of_every_ancestor() {
    let mut rt: Runtime<u8> = Runtime::new(|_| 0);
    let root = Class::get(&rt, "NSObject").unwrap();
    let a = ClassDecl::new(&mut rt, root, "A").unwrap().register(&mut rt);
    let b = ClassDecl::new(&mut rt, a, "B").unwrap().register(&mut rt);
    let other = ClassDecl::new(&mut rt, root, "Other").unwrap().register(&mut rt);
    let o = rt.create_instance(b);
    assert!(o.is_kind_of(&rt, b));
    assert!(o.is_kind_of(&rt, a));
    assert!(o.is_kind_of(&rt, root));
    assert!(!o.is_kind_of(&rt, other));
    let p = rt.create_instance(a);
    assert!(!p.is_kind_of(&rt, b));
}

#[test]
fn cached_selector_keeps_first_name() {
    let mut cache = CachedSel::new();
    assert_eq!(cache.get("foo").name(), "foo");
    assert_eq!(cache.get("bar").name(), "foo");
}

#[test]
fn cached_class_retries_until_found() {
    let mut rt: Runtime<u8> = Runtime::new(|_| 0);
    let mut cache = CachedClass::new();
    assert!(cache.get(&rt, "Later").is_none());
    let root = Class::get(&rt, "NSObject").unwrap();
    let later = ClassDecl::new(&mut rt, root, "Later").unwrap().register(&mut rt);
    assert_eq!(cache.get(&rt, "Later"), Some(later));
    assert_eq!(cache.get(&rt, "NSObject"), Some(later));
}

#[test]
fn ivars_are_independent() {
    let mut rt: Runtime<u8> = Runtime::new(|_| 0);
    let root = Class::get(&rt, "NSObject").unwrap();
    let mut decl = ClassDecl::new(&mut rt, root, "Pair").unwrap();
    decl.add_ivar::<u32, u8>(&mut rt, "_a");
    decl.add_ivar::<i64, u8>(&mut rt, "_b");
    decl.add_ivar::<bool, u8>(&mut rt, "_c");
    let cls = decl.register(&mut rt);
    let o = rt.create_instance(cls);
    let p = rt.create_instance(cls);
    assert_eq!(o.get_ivar::<u32, u8>(&rt, "_a"), 0);
    o.set_ivar::<u32, u8>(&mut rt, "_a", 7);
    o.set_ivar::<i64, u8>(&mut rt, "_b", -9);
    o.set_ivar::<bool, u8>(&mut rt, "_c", true);
    assert_eq!(o.get_ivar::<u32, u8>(&rt, "_a"), 7);
    assert_eq!(o.get_ivar::<i64, u8>(&rt, "_b"), -9);
    assert!(o.get_ivar::<bool, u8>(&rt, "_c"));
    assert_eq!(p.get_ivar::<u32, u8>(&rt, "_a"), 0);
    assert_eq!(p.get_ivar::<i64, u8>(&rt, "_b"), 0);
    assert_eq!(o.get_ivar::<Class, u8>(&rt, "isa"), cls);
}

#[test]
fn subclass_ivars_follow_superclass_ivars() {
    let mut rt: Runtime<u8> = Runtime::new(|_| 0);
    let root = Class::get(&rt, "NSObject").unwrap();
    let mut decl = ClassDecl::new(&mut rt, root, "Base").unwrap();
    decl.add_ivar::<u32, u8>(&mut rt, "_x");
    let base = decl.register(&mut rt);
    let mut decl = ClassDecl::new(&mut rt, base, "Derived").unwrap();
    decl.add_ivar::<u64, u8>(&mut rt, "_y");
    let derived = decl.register(&mut rt);
    assert_eq!(base.instance_size(&rt), 16);
    assert_eq!(derived.instance_size(&rt), 24);
    assert_eq!(derived.instance_variable(&rt, "_y").unwrap().offset(), 16);
    let o = rt.create_instance(derived);
    o.set_ivar::<u32, u8>(&mut rt, "_x", 3);
    o.set_ivar::<u64, u8>(&mut rt, "_y", 4);
    assert_eq!(o.get_ivar::<u32, u8>(&rt, "_x"), 3);
    assert_eq!(o.get_ivar::<u64, u8>(&rt, "_y"), 4);
}

#[test]
fn class_names_are_unique_until_disposed() {
    let mut rt: Runtime<u8> = Runtime::new(|_| 0);
    let root = Class::get(&rt, "NSObject").unwrap();
    let decl = ClassDecl::new(&mut rt, root, "Once").unwrap();
    assert!(ClassDecl::new(&mut rt, root, "Once").is_none());
    assert!(ClassDecl::new(&mut rt, root, "NSObject").is_none());
    decl.dispose(&mut rt);
    let again = ClassDecl::new(&mut rt, root, "Once").unwrap();
    let cls = again.register(&mut rt);
    assert_eq!(Class::get(&rt, "Once"), Some(cls));
    assert!(cls.is_registered(&rt));
    assert!(!cls.is_metaclass(&rt));
    assert!(cls.metaclass(&rt).is_metaclass(&rt));
}

#[test]
fn set_and_exchange_implementations() {
    let mut rt: Runtime<u8> = Runtime::new(|_| 0);
    let root = Class::get(&rt, "NSObject").unwrap();
    let mut decl = ClassDecl::new(&mut rt, root, "Swapper").unwrap();
    decl.add_method(&mut rt, objc::declare::MethodDecl::new::<Object, (), u32>(objc::runtime::Sel::register("a"), 1).unwrap());
    decl.add_method(&mut rt, objc::declare::MethodDecl::new::<Object, (), u32>(objc::runtime::Sel::register("b"), 2).unwrap());
    let cls = decl.register(&mut rt);
    let mut sub = ClassDecl::new(&mut rt, cls, "SubSwapper").unwrap();
    sub.add_method(&mut rt, objc::declare::MethodDecl::new::<Object, (), u32>(objc::runtime::Sel::register("c"), 3).unwrap());
    let sub = sub.register(&mut rt);
    let a = objc::runtime::Sel::register("a");
    let b = objc::runtime::Sel::register("b");
    let c = objc::runtime::Sel::register("c");

    assert_eq!(rt.set_implementation(sub, &a, 10), Some(1));
    assert_eq!(*cls.instance_method(&rt, &a).unwrap().implementation(), 10);
    assert_eq!(rt.set_implementation(root, &a, 11), None);

    rt.exchange_implementations(cls, &a, cls, &b);
    assert_eq!(*cls.instance_method(&rt, &a).unwrap().implementation(), 2);
    assert_eq!(*cls.instance_method(&rt, &b).unwrap().implementation(), 10);
    rt.exchange_implementations(sub, &c, cls, &b);
    assert_eq!(*sub.instance_method(&rt, &c).unwrap().implementation(), 10);
    assert_eq!(*cls.instance_method(&rt, &b).unwrap().implementation(), 3);
    rt.exchange_implementations(sub, &c, cls, &b);
    rt.exchange_implementations(cls, &a, cls, &a);
    assert_eq!(*sub.instance_method(&rt, &c).unwrap().implementation(), 3);
    assert_eq!(*cls.instance_method(&rt, &a).unwrap().implementation(), 2);
}

#[test]
fn ivars_are_laid_out_by_size_and_alignment() {
    let mut rt: Runtime<u8> = Runtime::new(|_| 0);
    let root = Class::get(&rt, "NSObject").unwrap();
    let mut decl = ClassDecl::new(&mut rt, root, "Packed").unwrap();
    decl.add_ivar::<u32, u8>(&mut rt, "_a");
    decl.add_ivar::<u32, u8>(&mut rt, "_b");
    decl.add_ivar::<u8, u8>(&mut rt, "_c");
    decl.add_ivar::<u16, u8>(&mut rt, "_d");
    decl.add_ivar::<u64, u8>(&mut rt, "_e");
    let cls = decl.register(&mut rt);
    assert_eq!(cls.instance_variable(&rt, "_a").unwrap().offset(), 8);
    assert_eq!(cls.instance_variable(&rt, "_b").unwrap().offset(), 12);
    assert_eq!(cls.instance_variable(&rt, "_c").unwrap().offset(), 16);
    assert_eq!(cls.instance_variable(&rt, "_d").unwrap().offset(), 18);
    assert_eq!(cls.instance_variable(&rt, "_e").unwrap().offset(), 24);
    assert_eq!(cls.instance_size(&rt), 32);

    let mut decl = ClassDecl::new(&mut rt, root, "Small").unwrap();
    decl.add_ivar::<u8, u8>(&mut rt, "_flag");
    let small = decl.register(&mut rt);
    assert_eq!(small.instance_variable(&rt, "_flag").unwrap().offset(), 8);
    assert_eq!(small.instance_size(&rt), 16);
}
