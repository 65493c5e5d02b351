use objc::declare::{ClassDecl, MethodDecl};
use objc::encode::{Encode, Encoding};
use objc::message::{send_message, send_super_message, Message};
use objc::runtime::{Class, Object, Receiver, RootMethod, Runtime, Sel};

/// The implementations of the methods the sample classes declare.
#[derive(Clone, Copy, Debug, PartialEq, Eq)]
enum Imp {
    Root(RootMethod),
    SetFoo,
    GetFoo,
    GetStruct,
    ClassFoo,
    ClassInitialize,
    AddTwoNumbers,
    SubclassGetFoo,
}

#[derive(Clone, Copy, Debug, PartialEq, Eq)]
struct CustomStruct {
    a: u64,
    b: u64,
    c: u64,
    d: u64,
}

#[derive(Clone, Copy, Debug, PartialEq, Eq)]
enum Value {
    Unit,
    U32(u32),
    I32(i32),
    Usize(usize),
    Obj(Option<Receiver>),
    Struct(CustomStruct),
}

fn custom_struct_encoding() -> Encoding {
    let fields = vec![u64::encode(), u64::encode(), u64::encode(), u64::encode()];
    Encoding::for_struct("CustomStruct", &fields)
}

fn nsobject(rt: &Runtime<Imp>) -> Class {
    Class::get(rt, "NSObject").unwrap()
}

/// A runtime whose root methods run as `Imp::Root`.
fn new_runtime() -> Runtime<Imp> {
    Runtime::new(Imp::Root)
}

fn custom_class(rt: &mut Runtime<Imp>) -> Class {
    if let Some(cls) = Class::get(rt, "CustomObject") {
        return cls;
    }
    let root = nsobject(rt);
    let mut decl = ClassDecl::new(rt, root, "CustomObject").unwrap();
    decl.add_ivar::<u32, Imp>(rt, "_foo");
    decl.add_method(rt, MethodDecl::new::<Object, (u32,), ()>(Sel::register("setFoo:"), Imp::SetFoo).unwrap());
    decl.add_method(rt, MethodDecl::new::<Object, (), u32>(Sel::register("foo"), Imp::GetFoo).unwrap());
    let get_struct = MethodDecl::with_types(
        Sel::register("customStruct"),
        custom_struct_encoding(),
        Vec::new(),
        Imp::GetStruct,
    );
    decl.add_method(rt, get_struct.unwrap());
    decl.add_class_method(rt, MethodDecl::new::<Class, (), u32>(Sel::register("classFoo"), Imp::ClassFoo).unwrap());
    decl.add_class_method(
        rt,
        MethodDecl::new::<Class, (), ()>(Sel::register("initialize"), Imp::ClassInitialize).unwrap(),
    );
    decl.add_class_method(
        rt,
        MethodDecl::new::<Class, (i32, i32), i32>(Sel::register("add2Numbers:_:"), Imp::AddTwoNumbers).unwrap(),
    );
    decl.register(rt)
}

fn custom_object(rt: &mut Runtime<Imp>) -> Object {
    let cls = custom_class(rt);
    rt.create_instance(cls)
}

fn custom_subclass(rt: &mut Runtime<Imp>) -> Class {
    if let Some(cls) = Class::get(rt, "CustomSubclassObject") {
        return cls;
    }
    let superclass = custom_class(rt);
    let mut decl = ClassDecl::new(rt, superclass, "CustomSubclassObject").unwrap();
    decl.add_method(rt, MethodDecl::new::<Object, (), u32>(Sel::register("foo"), Imp::SubclassGetFoo).unwrap());
    decl.register(rt)
}

fn custom_subclass_object(rt: &mut Runtime<Imp>) -> Object {
    let cls = custom_subclass(rt);
    rt.create_instance(cls)
}

fn sample_object(rt: &mut Runtime<Imp>) -> Object {
    let root = nsobject(rt);
    rt.create_instance(root)
}

fn instance(r: Receiver) -> Object {
    match r {
        Receiver::Instance(o) => o,
        Receiver::ClassObject(_) => panic!("not an instance"),
    }
}

/// Runs the implementation `imp` on receiver `r` with arguments `args`.
fn run(rt: &mut Runtime<Imp>, imp: Imp, r: Receiver, args: &[Value]) -> Value {
    match imp {
        Imp::Root(m) => run_root(rt, m, r),
        Imp::SetFoo => {
            let foo = match args[0] {
                Value::U32(v) => v,
                _ => panic!("setFoo: takes a u32"),
            };
            instance(r).set_ivar::<u32, Imp>(rt, "_foo", foo);
            Value::Unit
        },
        Imp::GetFoo => Value::U32(instance(r).get_ivar::<u32, Imp>(rt, "_foo")),
        Imp::GetStruct => Value::Struct(CustomStruct { a: 1, b: 2, c: 3, d: 4 }),
        Imp::ClassFoo => Value::U32(7),
        Imp::ClassInitialize => Value::Unit,
        Imp::AddTwoNumbers => match (args[0], args[1]) {
            (Value::I32(a), Value::I32(b)) => Value::I32(a + b),
            _ => panic!("add2Numbers:_: takes two i32s"),
        },
        Imp::SubclassGetFoo => {
            let superclass = custom_class(rt);
            let foo = send_super(rt, r, superclass, "foo", &[]);
            match foo {
                Value::U32(f) => Value::U32(f + 2),
                _ => panic!("foo returns a u32"),
            }
        },
    }
}

/// Runs the root method `m` on receiver `r`.
fn run_root(rt: &mut Runtime<Imp>, m: RootMethod, r: Receiver) -> Value {
    match m {
        RootMethod::Init | RootMethod::ReturnSelf | RootMethod::Autorelease | RootMethod::ClassSelf => {
            Value::Obj(Some(r))
        },
        RootMethod::Retain => {
            rt.retain(instance(r));
            Value::Obj(Some(r))
        },
        RootMethod::Release => {
            rt.release(instance(r));
            Value::Unit
        },
        RootMethod::Hash => Value::Usize(instance(r).hash_code()),
        RootMethod::RetainCount => Value::Usize(rt.retain_count(instance(r))),
        _ => Value::Unit,
    }
}

/// Sends the message `sel` to `r` (nil where `None`) and runs what it
/// reaches; a message to nil gives `zero`.
fn send(rt: &mut Runtime<Imp>, r: Option<Receiver>, sel: &str, args: &[Value], zero: Value) -> Value {
    let found = {
        let res = send_message(rt, &r, &Sel::register(sel)).unwrap();
        res.map(|(imp, recv)| (*imp, recv))
    };
    match found {
        Some((imp, recv)) => run(rt, imp, recv, args),
        None => zero,
    }
}

fn send_super(rt: &mut Runtime<Imp>, r: Receiver, superclass: Class, sel: &str, args: &[Value]) -> Value {
    let found = {
        let res = send_super_message(rt, &r, superclass, &Sel::register(sel)).unwrap();
        res.map(|(imp, recv)| (*imp, recv))
    };
    match found {
        Some((imp, recv)) => run(rt, imp, recv, args),
        None => Value::Unit,
    }
}

fn obj(o: Object) -> Option<Receiver> {
    Some(Receiver::Instance(o))
}

fn cls(c: Class) -> Option<Receiver> {
    Some(Receiver::ClassObject(c))
}

#[test]
fn declare_test_custom_class() {
    let mut rt = new_runtime();
    let o = custom_object(&mut rt);
    send(&mut rt, obj(o), "setFoo:", &[Value::U32(13)], Value::Unit);
    let result = send(&mut rt, obj(o), "foo", &[], Value::U32(0));
    assert!(result == Value::U32(13));
}

#[test]
fn test_class_method() {
    let mut rt = new_runtime();
    let c = custom_class(&mut rt);
    let result = send(&mut rt, cls(c), "classFoo", &[], Value::U32(0));
    assert!(result == Value::U32(7));
}

#[test]
fn test_mismatched_args() {
    let imp = MethodDecl::new::<Object, (i32,), ()>(Sel::register("doSomethingWithFoo:bar:"), Imp::SetFoo);
    assert!(imp.is_err());
    let err = imp.err().unwrap();
    assert_eq!(err.sel_args(), 4);
    assert_eq!(err.fn_args(), 3);
}

#[test]
fn message_test_send_message() {
    let mut rt = new_runtime();
    let o = sample_object(&mut rt);
    let result = send(&mut rt, obj(o), "self", &[], Value::Obj(None));
    assert!(result == Value::Obj(obj(o)));
}

#[test]
fn message_test_send_message_stret() {
    let mut rt = new_runtime();
    let o = custom_object(&mut rt);
    let result = send(&mut rt, obj(o), "customStruct", &[], Value::Unit);
    let expected = CustomStruct { a: 1, b: 2, c: 3, d: 4 };
    assert!(result == Value::Struct(expected));
}

#[test]
fn message_test_send_message_nil() {
    let mut rt = new_runtime();
    // A message to nil reaches no implementation, whatever the selector.
    let nil_receiver: Option<Receiver> = None;
    assert!(send_message(&rt, &nil_receiver, &Sel::register("hash")).unwrap().is_none());
    assert!(send_message(&rt, &nil_receiver, &Sel::register("description")).unwrap().is_none());
    let result = send(&mut rt, None, "hash", &[], Value::Usize(0));
    assert!(result == Value::Usize(0));

    let result = send(&mut rt, None, "description", &[], Value::Obj(None));
    assert!(result == Value::Obj(None));

    // A message to nil runs nothing, so its `f64` reply is zero.
    let nil: Option<Object> = None;
    let found = send_message(&rt, &nil, &Sel::register("doubleValue")).unwrap();
    assert!(found.is_none());
    let result: f64 = match found {
        Some(_) => f64::NAN,
        None => 0.0,
    };
    assert!(result == 0.0);
}

#[test]
fn message_test_send_message_super() {
    let mut rt = new_runtime();
    let o = custom_subclass_object(&mut rt);
    let superclass = custom_class(&mut rt);
    send(&mut rt, obj(o), "setFoo:", &[Value::U32(4)], Value::Unit);
    let foo = send_super(&mut rt, Receiver::Instance(o), superclass, "foo", &[]);
    assert!(foo == Value::U32(4));

    // The subclass is overriden to return foo + 2
    let foo = send(&mut rt, obj(o), "foo", &[], Value::U32(0));
    assert!(foo == Value::U32(6));
}

#[test]
fn mod_test_send_message() {
    let mut rt = new_runtime();
    let o = custom_object(&mut rt);
    send(&mut rt, obj(o), "setFoo:", &[Value::U32(4)], Value::Unit);
    let result = send(&mut rt, obj(o), "foo", &[], Value::U32(0));
    assert!(result == Value::U32(4));
}

#[test]
fn mod_test_send_message_stret() {
    let mut rt = new_runtime();
    let o = custom_object(&mut rt);
    let result = send(&mut rt, obj(o), "customStruct", &[], Value::Unit);
    let expected = CustomStruct { a: 1, b: 2, c: 3, d: 4 };
    assert!(result == Value::Struct(expected));
}

#[test]
fn test_send_message_with_unlabeled_parameter() {
    let mut rt = new_runtime();
    let c = custom_class(&mut rt);
    let result = send(&mut rt, cls(c), "add2Numbers:_:", &[Value::I32(42), Value::I32(-64)], Value::I32(0));
    assert!(result == Value::I32(-22));
}

#[test]
fn mod_test_send_message_nil() {
    let mut rt = new_runtime();
    // A message to nil reaches no implementation, whatever the selector.
    let nil_receiver: Option<Receiver> = None;
    assert!(send_message(&rt, &nil_receiver, &Sel::register("hash")).unwrap().is_none());
    assert!(send_message(&rt, &nil_receiver, &Sel::register("description")).unwrap().is_none());
    let result = send(&mut rt, None, "hash", &[], Value::Usize(0));
    assert!(result == Value::Usize(0));

    let result = send(&mut rt, None, "description", &[], Value::Obj(None));
    assert!(result == Value::Obj(None));

    // A message to nil runs nothing, so its `f64` reply is zero.
    let nil: Option<Object> = None;
    let found = send_message(&rt, &nil, &Sel::register("doubleValue")).unwrap();
    assert!(found.is_none());
    let result: f64 = match found {
        Some(_) => f64::NAN,
        None => 0.0,
    };
    assert!(result == 0.0);
}

#[test]
fn mod_test_send_message_super() {
    let mut rt = new_runtime();
    let o = custom_subclass_object(&mut rt);
    let superclass = custom_class(&mut rt);
    send(&mut rt, obj(o), "setFoo:", &[Value::U32(4)], Value::Unit);
    let foo = send_super(&mut rt, Receiver::Instance(o), superclass, "foo", &[]);
    assert!(foo == Value::U32(4));

    // The subclass is overriden to return foo + 2
    let foo = send(&mut rt, obj(o), "foo", &[], Value::U32(0));
    assert!(foo == Value::U32(6));
}

#[test]
fn test_verify_message() {
    let mut rt = new_runtime();
    let o = custom_object(&mut rt);
    assert!(o.verify_message::<(), u32, Imp>(&rt, &Sel::register("foo")).is_ok());
    assert!(o.verify_message::<(u32,), (), Imp>(&rt, &Sel::register("setFoo:")).is_ok());

    // Incorrect types
    assert!(o.verify_message::<(), u64, Imp>(&rt, &Sel::register("setFoo:")).is_err());
    // Unimplemented selector
    assert!(o.verify_message::<(u32,), (), Imp>(&rt, &Sel::register("setFoo")).is_err());
}

#[test]
fn verification_error_messages() {
    let mut rt = new_runtime();
    let o = custom_object(&mut rt);
    let err = o.verify_message::<(), u64, Imp>(&rt, &Sel::register("foo")).unwrap_err();
    assert_eq!(err.message(&rt), "Return type code Q does not match expected I for method foo");
    let err = o.verify_message::<(u64,), (), Imp>(&rt, &Sel::register("setFoo:")).unwrap_err();
    assert_eq!(err.message(&rt), "Method setFoo: expected argument at index 2 with type code I but was given Q");
    let err = o.verify_message::<(), (), Imp>(&rt, &Sel::register("bar")).unwrap_err();
    assert_eq!(err.message(&rt), "Method bar not found on class CustomObject");
    let nil: Option<Object> = None;
    let err = objc::message::send_message_verified::<(), (), Imp, Option<Object>>(&rt, &nil, &Sel::register("foo"))
        .unwrap_err();
    assert_eq!(err.message(&rt), "Messaging foo to nil");
}

#[test]
fn arguments_count_mismatch_message() {
    let mut rt = new_runtime();
    let o = custom_object(&mut rt);
    let err = o.verify_message::<(u32, u32), (), Imp>(&rt, &Sel::register("setFoo:")).unwrap_err();
    assert_eq!(err.message(&rt), "Method setFoo: accepts 3 arguments, but 4 were given");
}

#[test]
fn unequal_args_message() {
    let err = MethodDecl::new::<Object, (i32,), ()>(Sel::register("a:b:"), Imp::SetFoo).err().unwrap();
    assert_eq!(err.message(), "Selector accepts 4 arguments, but function accepts 3");
}

#[test]
fn class_method_receiver_is_encoded_as_object() {
    let mut rt = new_runtime();
    let c = custom_class(&mut rt);
    let meta = c.metaclass(&rt);
    let method = meta.instance_method(&rt, &Sel::register("classFoo")).unwrap();
    assert_eq!(method.argument_type(0).unwrap().as_str(), "@");
    assert_eq!(method.type_encoding(), "I@:");
    let root_meta = nsobject(&rt).metaclass(&rt);
    let alloc = root_meta.instance_method(&rt, &Sel::register("alloc")).unwrap();
    assert_eq!(alloc.type_encoding(), "@@:");
    assert_eq!(alloc.argument_type(0).unwrap().as_str(), "@");
}
