use objc::dictionary::NSDictionary;
use objc::foundation::NSString;
use objc::id::{Id, Owned};
use objc::runtime::{Class, Object, Runtime};

fn new_object(rt: &mut Runtime<u8>) -> Id<Object, Owned> {
    let root = Class::get(rt, "NSObject").unwrap();
    Id::from_retained_ptr(rt.create_instance(root))
}

fn sample_dict(rt: &mut Runtime<u8>, key: &str) -> NSDictionary<Object, Owned> {
    let string = NSString::from_str(key);
    let obj = new_object(rt);
    let (dict, rest) = NSDictionary::from_keys_and_objects(&[&string], vec![obj]);
    assert!(rest.is_empty());
    dict
}

#[test]
fn dictionary_test_count() {
    let mut rt: Runtime<u8> = Runtime::new(|_| 0);
    let dict = sample_dict(&mut rt, "abcd");
    assert!(dict.count() == 1);
}

#[test]
fn test_object_for() {
    let mut rt: Runtime<u8> = Runtime::new(|_| 0);
    let dict = sample_dict(&mut rt, "abcd");

    let string = NSString::from_str("abcd");
    assert!(dict.object_for(&string).is_some());

    let string = NSString::from_str("abcde");
    assert!(dict.object_for(&string).is_none());
}

#[test]
fn test_all_keys() {
    let mut rt: Runtime<u8> = Runtime::new(|_| 0);
    let dict = sample_dict(&mut rt, "abcd");
    let keys = dict.all_keys();

    assert!(keys.len() == 1);
    assert!(keys[0].as_str() == "abcd");
}

#[test]
fn test_all_values() {
    let mut rt: Runtime<u8> = Runtime::new(|_| 0);
    let dict = sample_dict(&mut rt, "abcd");
    let vals = dict.all_values();

    assert!(vals.len() == 1);
}

#[test]
fn test_keys_and_objects() {
    let mut rt: Runtime<u8> = Runtime::new(|_| 0);
    let dict = sample_dict(&mut rt, "abcd");
    let (keys, objs) = dict.keys_and_objects();

    assert!(keys.len() == 1);
    assert!(objs.len() == 1);
    assert!(keys[0].as_str() == "abcd");
    assert!(objs[0] == dict.object_for(keys[0]).unwrap());
}

#[test]
fn test_key_enumerator() {
    let mut rt: Runtime<u8> = Runtime::new(|_| 0);
    let dict = sample_dict(&mut rt, "abcd");
    let mut e = dict.key_enumerator();
    let mut count = 0;
    while e.next().is_some() {
        count += 1;
    }
    assert!(count == 1);
    assert!(dict.key_enumerator().next().unwrap().as_str() == "abcd");
}

#[test]
fn dictionary_test_object_enumerator() {
    let mut rt: Runtime<u8> = Runtime::new(|_| 0);
    let dict = sample_dict(&mut rt, "abcd");
    let mut e = dict.object_enumerator();
    let mut count = 0;
    while e.next().is_some() {
        count += 1;
    }
    assert!(count == 1);
}

#[test]
fn later_pair_wins_and_extra_objects_come_back() {
    let mut rt: Runtime<u8> = Runtime::new(|_| 0);
    let a = NSString::from_str("a");
    let b = NSString::from_str("b");
    let o1 = new_object(&mut rt);
    let o2 = new_object(&mut rt);
    let o3 = new_object(&mut rt);
    let o4 = new_object(&mut rt);
    let (p1, p2, p3, p4) = (o1.as_ptr(), o2.as_ptr(), o3.as_ptr(), o4.as_ptr());
    let (dict, rest) = NSDictionary::from_keys_and_objects(&[&a, &b, &a], vec![o1, o2, o3, o4]);
    assert_eq!(dict.count(), 2);
    assert_eq!(dict.object_for(&a), Some(p3));
    assert_eq!(dict.object_for(&b), Some(p2));
    let keys: Vec<&str> = dict.all_keys().iter().map(|k| k.as_str()).collect();
    assert_eq!(keys, vec!["a", "b"]);
    let rest: Vec<Object> = rest.iter().map(|id| id.as_ptr()).collect();
    assert_eq!(rest, vec![p1, p4]);
    let (keys, ids) = NSDictionary::into_keys_and_objects(dict);
    assert_eq!(keys.len(), 2);
    assert_eq!(ids[0].as_ptr(), p3);
}
