//! Instruction-word and item-header encoding tests.

use arena_vm::insn::{Insn, Inherent};
use arena_vm::item::{item_header_from_u32, item_header_to_u32, ItemId, Type};

#[test]
fn round_trip_every_opcode() {
    let samples = vec![
        Insn::Def(0),
        Insn::Def(0x1FFF_FFFF),
        Insn::SetItem(17),
        Insn::Push(1),
        Insn::Inh(Inherent::Call),
        Insn::Inh(Inherent::Pop),
        Insn::Inh(Inherent::Alloc),
        Insn::Inh(Inherent::Unknown(3)),
        Insn::Inh(Inherent::Unknown(77)),
        Insn::Inh(Inherent::Unknown(0x1FFF_FFFF)),
        Insn::Jump(1234),
        Insn::Val(7),
        Insn::Xlo(0x1FFF_FFFF),
        Insn::Xhi(7),
    ];
    for i in samples {
        assert_eq!(Insn::from_u32(i.as_u32()), i);
    }
}

#[test]
fn encoded_words_are_exact() {
    assert_eq!(Insn::Def(5).as_u32(), 5);
    assert_eq!(Insn::SetItem(1).as_u32(), 0x2000_0001);
    assert_eq!(Insn::Push(2).as_u32(), 0x4000_0002);
    assert_eq!(Insn::Inh(Inherent::Pop).as_u32(), 0x6000_0001);
    assert_eq!(Insn::Jump(3).as_u32(), 0x8000_0003);
    assert_eq!(Insn::Val(4).as_u32(), 0xA000_0004);
    assert_eq!(Insn::Xlo(0x1FFF_FFFF).as_u32(), 0xDFFF_FFFF);
    assert_eq!(Insn::Xhi(7).as_u32(), 0xE000_0007);
}

#[test]
fn validate_checks_widths() {
    assert!(Insn::Xhi(7).validate().is_ok());
    assert!(Insn::Xhi(8).validate().is_err());
    assert!(Insn::Def(0x1FFF_FFFF).validate().is_ok());
    assert!(Insn::Def(0x2000_0000).validate().is_err());
    assert!(Insn::Val(0x2000_0000).validate().is_err());
    assert!(Insn::Inh(Inherent::Unknown(3)).validate().is_ok());
}

#[test]
fn unknown_inherent_keeps_its_code() {
    let w = (3u32 << 29) | 77;
    assert_eq!(Insn::from_u32(w), Insn::Inh(Inherent::Unknown(77)));
    assert_eq!(Insn::Inh(Inherent::Unknown(77)).as_u32(), w);
}

#[test]
fn item_header_round_trip() {
    let w = item_header_to_u32(Type::I32, ItemId(42));
    let (ty, id) = item_header_from_u32(w);
    assert_eq!(ty, Type::I32);
    assert_eq!(id, ItemId(42));
    let w2 = item_header_to_u32(Type::Object, ItemId(0x1FFF_FFFF));
    let (ty2, id2) = item_header_from_u32(w2);
    assert_eq!(ty2, Type::Object);
    assert_eq!(id2, ItemId(0x1FFF_FFFF));
    assert_eq!(item_header_to_u32(Type::BuiltinCode, ItemId(9)), 9);
    assert_eq!(item_header_to_u32(Type::Code, ItemId(9)), 0x2000_0009);
}
