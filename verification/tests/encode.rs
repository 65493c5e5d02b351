use objc::abi::{
    kind_of_encoding, send_entry, send_entry_for, super_send_entry, super_send_entry_for, Arch, ReturnKind, SendEntry,
    SuperSendEntry,
};
use objc::encode::{encode, maybe_encode, Encode, Encoding};
use objc::text::decimal_string;
use objc::runtime::{Class, Object, Sel};

#[test]
fn encode_test_encode() {
    assert!(<&Object>::encode().as_str() == "@");
    assert!(<Option<Object>>::encode().as_str() == "@");
    assert!(<&Class>::encode().as_str() == "#");
    assert!(Sel::encode().as_str() == ":");
    assert!(u32::encode().as_str() == "I");
    assert!(<()>::encode().as_str() == "v");
    assert!(encode::<u8>().as_str() == "C");
    assert!(Encoding::unknown().as_str() == "?");
}

#[test]
fn primitive_codes() {
    assert_eq!(i8::encode().as_str(), "c");
    assert_eq!(i16::encode().as_str(), "s");
    assert_eq!(i32::encode().as_str(), "i");
    assert_eq!(i64::encode().as_str(), "q");
    assert_eq!(u16::encode().as_str(), "S");
    assert_eq!(u64::encode().as_str(), "Q");
    assert_eq!(bool::encode().as_str(), "B");
    assert_eq!(maybe_encode::<u32>().unwrap().as_str(), "I");
}

#[test]
fn struct_encoding() {
    let fields = vec![u64::encode(), u64::encode(), u64::encode(), u64::encode()];
    let e = Encoding::for_struct("CustomStruct", &fields);
    assert_eq!(e.as_str(), "{CustomStruct=QQQQ}");
    let empty = Encoding::for_struct("Empty", &[]);
    assert_eq!(empty.as_str(), "{Empty=}");
}

#[test]
fn message_entry_points_by_architecture() {
    assert_eq!(send_entry(Arch::X86_64, ReturnKind::Other, 32), SendEntry::MsgSendStret);
    assert_eq!(send_entry(Arch::X86_64, ReturnKind::Other, 16), SendEntry::MsgSend);
    assert_eq!(send_entry(Arch::Arm64, ReturnKind::Other, 32), SendEntry::MsgSend);
    assert_eq!(send_entry(Arch::X86, ReturnKind::F64, 8), SendEntry::MsgSendFpret);
    assert_eq!(send_entry(Arch::X86, ReturnKind::Other, 3), SendEntry::MsgSendStret);
    assert_eq!(send_entry(Arch::X86, ReturnKind::Other, 8), SendEntry::MsgSend);
    assert_eq!(send_entry(Arch::Arm, ReturnKind::U64, 8), SendEntry::MsgSend);
    assert_eq!(send_entry(Arch::Arm, ReturnKind::Other, 8), SendEntry::MsgSendStret);
    assert_eq!(super_send_entry(Arch::X86, ReturnKind::F64, 8), SuperSendEntry::MsgSendSuper);
    assert_eq!(super_send_entry(Arch::X86_64, ReturnKind::Other, 24), SuperSendEntry::MsgSendSuperStret);
    assert_eq!(super_send_entry(Arch::Arm64, ReturnKind::Other, 64), SuperSendEntry::MsgSendSuper);
}

#[test]
fn decimal_text() {
    assert_eq!(decimal_string(0), "0");
    assert_eq!(decimal_string(7), "7");
    assert_eq!(decimal_string(10), "10");
    assert_eq!(decimal_string(40213), "40213");
    assert_eq!(decimal_string(usize::MAX), usize::MAX.to_string());
}

#[test]
fn encodings_and_selectors_compare_by_code() {
    assert_eq!(u32::encode(), Encoding::from_str("I"));
    assert_ne!(u32::encode(), u64::encode());
    assert_eq!(Sel::register("foo"), Sel::register("foo"));
    assert_ne!(Sel::register("foo"), Sel::register("foo:"));
    let s = Sel::register("bar");
    assert_eq!(s.clone(), s);
}

#[test]
fn entry_points_follow_the_return_type() {
    assert_eq!(kind_of_encoding(&u64::encode()), ReturnKind::U64);
    assert_eq!(kind_of_encoding(&i64::encode()), ReturnKind::I64);
    assert_eq!(kind_of_encoding(&Encoding::from_str("f")), ReturnKind::F32);
    assert_eq!(kind_of_encoding(&Encoding::from_str("d")), ReturnKind::F64);
    assert_eq!(kind_of_encoding(&u32::encode()), ReturnKind::Other);

    // 64-bit integers come back in registers on 32-bit ARM and x86.
    assert_eq!(send_entry_for::<u64>(Arch::Arm), SendEntry::MsgSend);
    assert_eq!(send_entry_for::<i64>(Arch::X86), SendEntry::MsgSend);
    assert_eq!(send_entry_for::<()>(Arch::X86), SendEntry::MsgSend);
    assert_eq!(send_entry_for::<u16>(Arch::Arm64), SendEntry::MsgSend);
    assert_eq!(super_send_entry_for::<u8>(Arch::X86), SuperSendEntry::MsgSendSuper);
    assert_eq!(super_send_entry_for::<u64>(Arch::Arm), SuperSendEntry::MsgSendSuper);
    assert_eq!(super_send_entry_for::<u32>(Arch::X86_64), SuperSendEntry::MsgSendSuper);
}
