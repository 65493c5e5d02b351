use objc::malloc::{MallocBuffer, MallocString};

#[test]
fn malloc_buffer_of_null_is_none() {
    assert!(MallocBuffer::<u32>::new(None).is_none());
    let buf = MallocBuffer::new(Some(vec![1u32, 2, 3])).unwrap();
    assert_eq!(buf.len(), 3);
    assert_eq!(buf.as_slice(), &[1, 2, 3]);
}

#[test]
fn malloc_string_decodes_utf8() {
    let s = MallocString::new(Some("héllo".as_bytes().to_vec())).unwrap();
    assert_eq!(s.as_str(), "héllo");
    let empty = MallocString::new(Some(Vec::new())).unwrap();
    assert_eq!(empty.as_str(), "");
}

#[test]
fn malloc_string_rejects_null_and_invalid_utf8() {
    assert!(MallocString::new(None).is_none());
    assert!(MallocString::new(Some(vec![0x66, 0xff, 0x6f])).is_none());
    assert!(MallocString::new(Some(vec![0xc3])).is_none());
}
