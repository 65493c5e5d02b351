use objc::block_utils::{
    get_add_block, get_add_block_with, get_int_block, get_int_block_with, invoke_add_block, invoke_int_block,
};

#[test]
fn test_int_block() {
    assert!(invoke_int_block(&get_int_block()) == 7);
    assert!(invoke_int_block(&get_int_block_with(13)) == 13);
}

#[test]
fn test_add_block() {
    assert!(invoke_add_block(&get_add_block(), 5) == 12);
    assert!(invoke_add_block(&get_add_block_with(3), 5) == 8);
}

#[test]
fn add_block_with_negative_addend() {
    assert_eq!(invoke_add_block(&get_add_block_with(-10), 4), -6);
    assert_eq!(invoke_int_block(&get_int_block_with(-1)), -1);
}
