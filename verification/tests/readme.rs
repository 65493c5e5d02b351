use objc::declare::{ClassDecl, MethodDecl};
use objc::encode::Encode;
use objc::id::{Id, Owned};
use objc::message::{send_message, Message};
use objc::rc::WeakId;
use objc::runtime::{Class, Object, Receiver, RootMethod, Runtime, Sel};

#[derive(Clone, Copy, Debug, PartialEq, Eq)]
enum Imp {
    Root(RootMethod),
    Number,
}

#[test]
fn readme_messaging_objects() {
    let mut rt: Runtime<Imp> = Runtime::new(Imp::Root);
    let cls = Class::get(&rt, "NSObject").unwrap();
    let hash = cls.instance_method(&rt, &Sel::register("hash")).unwrap();
    assert_eq!(hash.return_type().as_str(), usize::encode().as_str());
    let obj = rt.create_instance(cls);
    let (imp, recv) = send_message(&rt, &obj, &Sel::register("hash")).unwrap().unwrap();
    assert_eq!(*imp, Imp::Root(RootMethod::Hash));
    let hash = match recv {
        Receiver::Instance(o) => o.hash_code(),
        Receiver::ClassObject(_) => panic!("sent to an instance"),
    };
    assert_eq!(hash, obj.hash_code());
    assert!(obj.is_kind_of(&rt, cls));
    rt.release(obj);
    assert_eq!(rt.retain_count(obj), 0);
}

#[test]
fn readme_reference_counting() {
    let mut rt: Runtime<Imp> = Runtime::new(Imp::Root);
    let cls = Class::get(&rt, "NSObject").unwrap();
    let obj: Id<Object, Owned> = Id::from_retained_ptr(rt.create_instance(cls));
    let o = obj.as_ptr();

    // share the object so we can clone it
    let obj = obj.share();
    let another_ref = obj.clone_shared(&mut rt);
    assert_eq!(rt.retain_count(o), 2);
    // releasing our other reference decrements the retain count
    another_ref.release(&mut rt);
    assert_eq!(rt.retain_count(o), 1);

    let weak = WeakId::new(&obj);
    let loaded = weak.load(&mut rt);
    assert!(loaded.is_some());
    loaded.unwrap().release(&mut rt);
    // After the object is deallocated, our weak pointer returns none
    obj.release(&mut rt);
    assert!(weak.load(&mut rt).is_none());
}

#[test]
fn readme_declaring_classes() {
    let mut rt: Runtime<Imp> = Runtime::new(Imp::Root);
    let superclass = Class::get(&rt, "NSObject").unwrap();
    let mut decl = ClassDecl::new(&mut rt, superclass, "MyNumber").unwrap();

    // Add an instance variable
    decl.add_ivar::<u32, Imp>(&mut rt, "_number");

    // Add an ObjC method for getting the number
    decl.add_method(&mut rt, MethodDecl::new::<Object, (), u32>(Sel::register("number"), Imp::Number).unwrap());

    let cls = decl.register(&mut rt);
    assert_eq!(Class::get(&rt, "MyNumber"), Some(cls));

    let obj = rt.create_instance(cls);
    obj.set_ivar::<u32, Imp>(&mut rt, "_number", 42);
    let (imp, recv) = send_message(&rt, &obj, &Sel::register("number")).unwrap().unwrap();
    assert_eq!(*imp, Imp::Number);
    let number = match recv {
        Receiver::Instance(o) => o.get_ivar::<u32, Imp>(&rt, "_number"),
        Receiver::ClassObject(_) => panic!("sent to an instance"),
    };
    assert_eq!(number, 42);
    assert!(obj.verify_message::<(), u32, Imp>(&rt, &Sel::register("number")).is_ok());
}
