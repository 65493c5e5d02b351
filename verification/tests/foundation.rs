use std::cmp::Ordering;

use objc::array::{INSOwnedArray, NSArray, NSMutableArray};
use objc::comparison::NSComparisonResult;
use objc::encode::encode;
use objc::foundation::{ClassName, NSData, NSRange, NSString, NSValue};
use objc::id::{Id, IdVector, Owned};
use objc::runtime::{Class, Object, Runtime};

fn new_object(rt: &mut Runtime<u8>) -> Id<Object, Owned> {
    let root = Class::get(rt, "NSObject").unwrap();
    Id::from_retained_ptr(rt.create_instance(root))
}

fn sample_array(rt: &mut Runtime<u8>, len: usize) -> NSArray<Object, Owned> {
    let mut vec: Vec<Id<Object, Owned>> = Vec::with_capacity(len);
    for _ in 0..len {
        vec.push(new_object(rt));
    }
    NSArray::from_vec(vec)
}

#[test]
fn array_test_count() {
    let mut rt: Runtime<u8> = Runtime::new(|_| 0);
    let empty_array: NSArray<Object, Owned> = NSArray::new();
    assert!(empty_array.count() == 0);

    let array = sample_array(&mut rt, 4);
    assert!(array.count() == 4);
}

#[test]
fn test_object_at() {
    let mut rt: Runtime<u8> = Runtime::new(|_| 0);
    let array = sample_array(&mut rt, 4);
    assert!(array.object_at(0) != array.object_at(3));
    assert!(array.first_object().unwrap() == array.object_at(0));
    assert!(array.last_object().unwrap() == array.object_at(3));

    let empty_array: NSArray<Object, Owned> = NSArray::new();
    assert!(empty_array.first_object().is_none());
    assert!(empty_array.last_object().is_none());
}

#[test]
fn test_objects_in_range() {
    let mut rt: Runtime<u8> = Runtime::new(|_| 0);
    let array = sample_array(&mut rt, 4);

    let middle_objs = array.objects_in_range(1..3);
    assert!(middle_objs.len() == 2);
    assert!(middle_objs[0] == array.object_at(1));
    assert!(middle_objs[1] == array.object_at(2));

    let empty_objs = array.objects_in_range(1..1);
    assert!(empty_objs.len() == 0);

    let all_objs = array.objects_in_range(0..4);
    assert!(all_objs.len() == 4);
}

#[test]
fn test_into_vec() {
    let mut rt: Runtime<u8> = Runtime::new(|_| 0);
    let array = sample_array(&mut rt, 4);

    let vec = NSArray::into_vec(array);
    assert!(vec.len() == 4);
}

#[test]
fn test_add_object() {
    let mut rt: Runtime<u8> = Runtime::new(|_| 0);
    let mut array: NSMutableArray<Object, Owned> = NSMutableArray::new();
    let obj = new_object(&mut rt);
    array.add_object(obj);

    assert!(array.count() == 1);
    assert!(array.object_at(0) == array.object_at(0));

    let obj = new_object(&mut rt);
    array.insert_object_at(0, obj);
    assert!(array.count() == 2);
}

#[test]
fn test_replace_object() {
    let mut rt: Runtime<u8> = Runtime::new(|_| 0);
    let mut array: NSMutableArray<Object, Owned> = NSMutableArray::new();
    let obj = new_object(&mut rt);
    array.add_object(obj);

    let obj = new_object(&mut rt);
    let old_obj = array.replace_object_at(0, obj);
    assert!(old_obj.as_ptr() != array.object_at(0));
}

#[test]
fn test_remove_object() {
    let mut rt: Runtime<u8> = Runtime::new(|_| 0);
    let mut array: NSMutableArray<Object, Owned> = NSMutableArray::new();
    for _ in 0..4 {
        let obj = new_object(&mut rt);
        array.add_object(obj);
    }

    array.remove_object_at(1);
    assert!(array.count() == 3);

    array.remove_last_object();
    assert!(array.count() == 2);

    array.remove_all_objects(&mut rt);
    assert!(array.count() == 0);
}

#[test]
fn remove_all_objects_releases_them() {
    let mut rt: Runtime<u8> = Runtime::new(|_| 0);
    let mut array: NSMutableArray<Object, Owned> = NSMutableArray::new();
    let a = new_object(&mut rt);
    let pa = a.as_ptr();
    array.add_object(a);
    let b = new_object(&mut rt);
    let pb = b.as_ptr();
    array.add_object(b);
    assert_eq!(array.to_vec(), vec![pa, pb]);
    array.remove_all_objects(&mut rt);
    assert_eq!(rt.retain_count(pa), 0);
    assert_eq!(rt.retain_count(pb), 0);
}

#[test]
fn owned_array_mut_object_at() {
    let mut rt: Runtime<u8> = Runtime::new(|_| 0);
    let mut array = sample_array(&mut rt, 2);
    let second = array.object_at(1);
    assert_eq!(array.mut_object_at(1), second);
    assert_eq!(array.count(), 2);
}

#[test]
fn id_vector_refs_keep_order() {
    let mut rt: Runtime<u8> = Runtime::new(|_| 0);
    let ids = vec![new_object(&mut rt), new_object(&mut rt)];
    let refs = ids.as_refs_slice();
    assert_eq!(refs, vec![ids[0].as_ptr(), ids[1].as_ptr()]);
    let array = NSArray::from_vec(ids);
    assert_eq!(array.to_vec(), refs);
}

#[test]
fn test_value() {
    let val = NSValue::from_value(13u32);
    assert!(val.value() == 13);
    assert!(val.encoding() == encode::<u32>().as_str());
}

#[test]
fn range_conversions() {
    let r = NSRange::from_range(3..8);
    assert_eq!(r, NSRange { location: 3, length: 5 });
    assert_eq!(r.as_range(), 3..8);
    let empty = NSRange::from_range(4..4);
    assert_eq!(empty.length, 0);
}

#[test]
fn comparison_results() {
    assert_eq!(NSComparisonResult::from_ordering(Ordering::Less), NSComparisonResult::Ascending);
    assert_eq!(NSComparisonResult::from_ordering(Ordering::Equal), NSComparisonResult::Same);
    assert_eq!(NSComparisonResult::from_ordering(Ordering::Greater), NSComparisonResult::Descending);
    assert_eq!(NSComparisonResult::Ascending.as_ordering(), Ordering::Less);
    assert_eq!(NSComparisonResult::Descending.as_ordering(), Ordering::Greater);
    assert_eq!(NSComparisonResult::Ascending.value(), -1);
    assert_eq!(NSComparisonResult::Same.value(), 0);
    assert_eq!(NSComparisonResult::Descending.value(), 1);
}

#[test]
fn class_name_roundtrip() {
    let name: ClassName<Object> = ClassName::from_str("NSObject");
    assert_eq!(name.as_str(), "NSObject");
}

fn objects_with_lengths(rt: &mut Runtime<u8>, lens: &[u32]) -> Vec<Id<Object, Owned>> {
    let root = Class::get(rt, "NSObject").unwrap();
    let cls = match Class::get(rt, "LengthObject") {
        Some(c) => c,
        None => {
            let mut decl = objc::declare::ClassDecl::new(rt, root, "LengthObject").unwrap();
            decl.add_ivar::<u32, u8>(rt, "_len");
            decl.register(rt)
        },
    };
    let mut v = Vec::new();
    for &len in lens {
        let o = rt.create_instance(cls);
        o.set_ivar::<u32, u8>(rt, "_len", len);
        v.push(Id::from_retained_ptr(o));
    }
    v
}

#[test]
fn test_sort() {
    let mut rt: Runtime<u8> = Runtime::new(|_| 0);
    // "hello" and "hi", by their lengths
    let strings = objects_with_lengths(&mut rt, &[5, 2]);
    let mut strings: NSMutableArray<Object, Owned> = NSMutableArray::from_vec(strings);

    let rt_ref = &rt;
    strings.sort_by(|s1: Object, s2: Object| {
        let l1 = s1.get_ivar::<u32, u8>(rt_ref, "_len");
        let l2 = s2.get_ivar::<u32, u8>(rt_ref, "_len");
        l1.cmp(&l2)
    });
    assert!(strings.object_at(0).get_ivar::<u32, u8>(&rt, "_len") == 2);
    assert!(strings.object_at(1).get_ivar::<u32, u8>(&rt, "_len") == 5);
}

#[test]
fn sort_keeps_objects_and_orders_them() {
    let mut rt: Runtime<u8> = Runtime::new(|_| 0);
    let objs = objects_with_lengths(&mut rt, &[3, 1, 4, 1, 5, 9, 2, 6]);
    let mut array: NSMutableArray<Object, Owned> = NSMutableArray::from_vec(objs);
    let before = array.to_vec();
    let rt_ref = &rt;
    array.sort_by(|a: Object, b: Object| {
        a.get_ivar::<u32, u8>(rt_ref, "_len").cmp(&b.get_ivar::<u32, u8>(rt_ref, "_len"))
    });
    let lens: Vec<u32> = array.to_vec().iter().map(|o| o.get_ivar::<u32, u8>(&rt, "_len")).collect();
    assert_eq!(lens, vec![1, 1, 2, 3, 4, 5, 6, 9]);
    let mut after = array.to_vec();
    let mut before_sorted = before.clone();
    after.sort_by_key(|o| o.idx);
    before_sorted.sort_by_key(|o| o.idx);
    assert_eq!(after, before_sorted);
}

#[test]
fn array_test_object_enumerator() {
    let mut rt: Runtime<u8> = Runtime::new(|_| 0);
    let array = sample_array(&mut rt, 4);

    let mut count = 0;
    let mut e = array.object_enumerator();
    while let Some(obj) = e.next() {
        assert!(obj == array.object_at(count));
        count += 1;
    }
    assert!(count == 4);
}

#[test]
fn test_enumerator() {
    let mut rt: Runtime<u8> = Runtime::new(|_| 0);
    let array = sample_array(&mut rt, 4);

    let mut e = array.enumerator();
    let mut all = Vec::new();
    while let Some(obj) = e.next() {
        all.push(obj);
    }
    assert!(all.len() == 4);
    assert!(all.iter().enumerate().all(|(i, obj)| *obj == array.object_at(i)));
    assert!(e.next().is_none());
}

#[test]
fn fast_enumeration_spans_several_batches() {
    let mut rt: Runtime<u8> = Runtime::new(|_| 0);
    let array = sample_array(&mut rt, 40);
    let mut e = array.enumerator();
    let mut all = Vec::new();
    while let Some(obj) = e.next() {
        all.push(obj);
    }
    assert_eq!(all, array.to_vec());
}

#[test]
fn test_utf8() {
    let expected = "ประเทศไทย中华Việt Nam";
    let s = NSString::from_str(expected);
    assert!(s.len() == expected.len());
    assert!(s.as_str() == expected);
}

#[test]
fn test_interior_nul() {
    let expected = "Hello\0World";
    let s = NSString::from_str(expected);
    assert!(s.len() == expected.len());
    assert!(s.as_str() == expected);
}

#[test]
fn test_copy() {
    let s = NSString::from_str("Hello!");
    let copied = s.copy();
    assert!(copied.as_str() == s.as_str());
}

#[test]
fn data_with_bytes() {
    let bytes = [1u8, 2, 3, 255];
    let data = NSData::with_bytes(&bytes);
    assert_eq!(data.len(), 4);
    assert_eq!(data.bytes(), &bytes[..]);
    assert_eq!(NSData::with_bytes(&[]).len(), 0);
}

#[test]
fn insert_then_remove_gives_back_the_array() {
    let mut rt: Runtime<u8> = Runtime::new(|_| 0);
    let objs = vec![new_object(&mut rt), new_object(&mut rt), new_object(&mut rt)];
    let mut array: NSMutableArray<Object, Owned> = NSMutableArray::from_vec(objs);
    let before = array.to_vec();
    let x = new_object(&mut rt);
    let px = x.as_ptr();
    array.insert_object_at(1, x);
    assert_eq!(array.object_at(1), px);
    let removed = array.remove_object_at(1);
    assert_eq!(removed.as_ptr(), px);
    assert_eq!(array.to_vec(), before);

    let y = new_object(&mut rt);
    let py = y.as_ptr();
    array.add_object(y);
    assert_eq!(array.remove_last_object().as_ptr(), py);
    assert_eq!(array.to_vec(), before);

    let z = new_object(&mut rt);
    let old = array.replace_object_at(2, z);
    assert_eq!(old.as_ptr(), before[2]);
    let back = array.replace_object_at(2, old);
    assert_eq!(array.to_vec(), before);
    assert_ne!(back.as_ptr(), before[2]);
}
