//! Machine behaviour tests: construction, stepping, frame push/pop, name
//! lookup, growth discipline, and every fault kind.

use arena_vm::insn::{Insn, Inherent};
use arena_vm::item::ItemId;
use arena_vm::machine::Machine;
use arena_vm::mem::Mem;
use arena_vm::model::InsnException;
use arena_vm::obj::XData;

fn words(prog: &[Insn]) -> Vec<u32> {
    let mut v = Vec::new();
    for i in prog {
        v.push(i.as_u32());
    }
    v
}

fn run(m: &mut Machine, max_steps: usize) -> Result<Option<XData>, InsnException> {
    for _ in 0..max_steps {
        assert!(m.step_ready());
        let r = m.step();
        match r {
            Ok(None) => (),
            _ => return r,
        }
    }
    panic!("program did not settle");
}

#[test]
fn machine_layout_after_new() {
    let prog = words(&[Insn::Xlo(1), Insn::Def(0)]);
    let m = Machine::new(&prog);
    assert_eq!(m.pc, 0);
    assert_eq!(m.fp.0, 8);
    assert_eq!(m.gp.0, 8);
    assert_eq!(m.mem.len(), 28);
    assert_eq!(m.mem.load_u32(0), Insn::Xlo(1).as_u32());
    assert_eq!(m.mem.load_u32(4), Insn::Def(0).as_u32());
    for off in 0u32..5 {
        assert_eq!(m.mem.load_u32(8 + 4 * off), 0);
    }
    assert_eq!(m.x, XData::I32(0));
}

#[test]
fn mem_is_little_endian() {
    let mut mem = Mem(vec![0u8; 12]);
    mem.store_u32(4, 0x1122_3344);
    assert_eq!(mem.0[4], 0x44);
    assert_eq!(mem.0[5], 0x33);
    assert_eq!(mem.0[6], 0x22);
    assert_eq!(mem.0[7], 0x11);
    assert_eq!(mem.load_u32(4), 0x1122_3344);
    assert_eq!(mem.load_u32(0), 0);
    assert_eq!(mem.load_u32(8), 0);
}

#[test]
fn end_to_end_example() {
    // push an empty frame, push a named nested object, read the root,
    // assemble the full-width literal, define it, and halt with it
    let prog = words(&[
        Insn::Push(0),
        Insn::Push(1),
        Insn::Val(0),
        Insn::Xlo(0x1FFF_FFFF),
        Insn::Xhi(0x7),
        Insn::Def(1),
        Insn::Def(0),
    ]);
    let mut m = Machine::new(&prog);
    let r = run(&mut m, 100);
    assert_eq!(r, Ok(Some(XData::I32(0xFFFF_FFFF))));
}

#[test]
fn xlo_xhi_assemble_literal() {
    let prog = words(&[Insn::Xlo(0x1234_5678 & 0x1FFF_FFFF), Insn::Xhi(0x1234_5678 >> 29), Insn::Def(0)]);
    let mut m = Machine::new(&prog);
    assert_eq!(run(&mut m, 10), Ok(Some(XData::I32(0x1234_5678))));
}

#[test]
fn push_pop_restores_frame_and_arena() {
    let prog = words(&[Insn::Xlo(8), Insn::Push(0), Insn::Inh(Inherent::Pop), Insn::Def(0)]);
    let mut m = Machine::new(&prog);
    assert!(m.step_ready());
    m.step().unwrap();
    let fp0 = m.fp.0;
    let len0 = m.mem.len();
    assert!(m.step_ready());
    m.step().unwrap();
    assert_ne!(m.fp.0, fp0);
    assert_eq!(m.mem.len(), len0 + 28);
    assert!(m.step_ready());
    m.step().unwrap();
    assert_eq!(m.fp.0, fp0);
    assert_eq!(m.mem.len(), len0);
    assert_eq!(m.pc, 12);
}

#[test]
fn lookup_scope_order() {
    let prog = words(&[
        Insn::Xlo(42),
        Insn::Def(7),
        Insn::Xlo(0),
        Insn::Push(0),
        Insn::Xlo(99),
        Insn::Def(7),
        Insn::Val(7),
        Insn::Inh(Inherent::Pop),
        Insn::Val(7),
        Insn::Def(0),
    ]);
    let mut m = Machine::new(&prog);
    for _ in 0..7 {
        assert!(m.step_ready());
        m.step().unwrap();
    }
    // the inner definition shadows the outer one
    assert_eq!(m.x, XData::I32(99));
    m.step().unwrap();
    m.step().unwrap();
    // popping the inner frame uncovers the outer definition
    assert_eq!(m.x, XData::I32(42));
    assert_eq!(run(&mut m, 10), Ok(Some(XData::I32(42))));
}

#[test]
fn duplicate_definition_faults() {
    let prog = words(&[Insn::Xlo(1), Insn::Def(3), Insn::Xlo(2), Insn::Def(3)]);
    let mut m = Machine::new(&prog);
    for _ in 0..3 {
        m.step().unwrap();
    }
    let r = m.step();
    assert!(matches!(r, Err(InsnException::ItemExistsInFrame(_))));
    // the first definition is untouched
    let item = m.find(ItemId(3)).expect("defined item");
    assert_eq!(m.mem.load_u32(item.0 + 4), 1);
}

#[test]
fn unaligned_capacity_faults() {
    let prog = words(&[Insn::Xlo(5), Insn::Push(0)]);
    let mut m = Machine::new(&prog);
    m.step().unwrap();
    assert_eq!(m.step(), Err(InsnException::UnalignedCap));

    let prog2 = words(&[Insn::Xlo(5), Insn::Push(1)]);
    let mut m2 = Machine::new(&prog2);
    m2.step().unwrap();
    assert_eq!(m2.step(), Err(InsnException::UnalignedCap));

    // an accumulator whose bit pattern reads as a negative number faults
    // all the same
    let prog3 = words(&[Insn::Xlo(0x1FFF_FFFD), Insn::Xhi(7), Insn::Push(0)]);
    let mut m3 = Machine::new(&prog3);
    m3.step().unwrap();
    m3.step().unwrap();
    assert_eq!(m3.x, XData::I32(0xFFFF_FFFD));
    assert_eq!(m3.step(), Err(InsnException::UnalignedCap));
}

#[test]
fn growth_only_at_top() {
    // a nested object under a parent with spare capacity is not the
    // arena's top: defining into it when full reports FrameFull
    let prog = words(&[
        Insn::Xlo(32),
        Insn::Push(0),
        Insn::Xlo(0),
        Insn::Push(1),
        Insn::Xlo(7),
        Insn::Def(2),
    ]);
    let mut m = Machine::new(&prog);
    for _ in 0..5 {
        m.step().unwrap();
    }
    let len_before = m.mem.len();
    assert_eq!(m.step(), Err(InsnException::FrameFull));
    assert_eq!(m.mem.len(), len_before);

    // and pushing from the non-top frame reports NotTopFrame
    let prog2 = words(&[
        Insn::Xlo(32),
        Insn::Push(0),
        Insn::Xlo(0),
        Insn::Push(1),
        Insn::Push(0),
    ]);
    let mut m2 = Machine::new(&prog2);
    for _ in 0..4 {
        m2.step().unwrap();
    }
    assert_eq!(m2.step(), Err(InsnException::NotTopFrame));
}

#[test]
fn stack_underflow_on_root_pop() {
    let prog = words(&[Insn::Inh(Inherent::Pop)]);
    let mut m = Machine::new(&prog);
    assert!(m.step_ready());
    assert_eq!(m.step(), Err(InsnException::StackUnderflow));
}

#[test]
fn item_not_found() {
    let prog = words(&[Insn::Val(5)]);
    let mut m = Machine::new(&prog);
    assert_eq!(m.step(), Err(InsnException::ItemNotFound));
}

#[test]
fn wrong_type_faults() {
    // Xhi needs an I32 accumulator
    let prog = words(&[Insn::Val(0), Insn::Xhi(1)]);
    let mut m = Machine::new(&prog);
    m.step().unwrap();
    assert!(matches!(m.x, XData::Object(_)));
    assert_eq!(m.step(), Err(InsnException::WrongType));

    // Push of a named object needs an I32 capacity
    let prog2 = words(&[Insn::Val(0), Insn::Push(1)]);
    let mut m2 = Machine::new(&prog2);
    m2.step().unwrap();
    assert_eq!(m2.step(), Err(InsnException::WrongType));
}

#[test]
fn unsupported_instructions_fault() {
    for insn in [Insn::Jump(0), Insn::SetItem(1), Insn::Inh(Inherent::Call), Insn::Inh(
        Inherent::Alloc,
    )] {
        let prog = words(&[insn]);
        let mut m = Machine::new(&prog);
        assert!(m.step_ready());
        assert_eq!(m.step(), Err(InsnException::Unsupported));
    }
    // defining a non-I32 accumulator is left as design freedom: rejected
    let prog = words(&[Insn::Val(0), Insn::Def(1)]);
    let mut m = Machine::new(&prog);
    m.step().unwrap();
    assert_eq!(m.step(), Err(InsnException::Unsupported));
}

#[test]
fn find_scans_the_chain_but_find_in_frame_does_not() {
    let prog = words(&[Insn::Xlo(5), Insn::Def(9), Insn::Xlo(0), Insn::Push(0)]);
    let mut m = Machine::new(&prog);
    for _ in 0..4 {
        m.step().unwrap();
    }
    assert!(m.find(ItemId(9)).is_some());
    assert!(m.find_in_frame(m.fp, ItemId(9)).is_none());
    assert!(m.find_in_frame(m.gp, ItemId(9)).is_some());
    assert!(m.find(ItemId(10)).is_none());
}

#[test]
fn nested_growth_and_pop_widening() {
    let prog = words(&[
        Insn::Xlo(0),
        Insn::Push(0),
        Insn::Push(1),
        Insn::Xlo(7),
        Insn::Def(2),
        Insn::Inh(Inherent::Pop),
        Insn::Val(1),
        Insn::Def(0),
    ]);
    let mut m = Machine::new(&prog);
    for _ in 0..5 {
        assert!(m.step_ready());
        m.step().unwrap();
    }
    // the nested object grew past its parent's recorded capacity
    let len_grown = m.mem.len();
    assert_eq!(len_grown, 104);
    m.step().unwrap();
    // popping writes the growth back; nothing above the parent to reclaim
    assert_eq!(m.fp.0, 52);
    assert_eq!(m.mem.len(), len_grown);
    // the nested object is an item of the parent; its inner item is not
    assert!(m.find(ItemId(2)).is_none());
    m.step().unwrap();
    assert!(matches!(m.x, XData::Object(_)));
    assert!(matches!(run(&mut m, 10), Ok(Some(XData::Object(_)))));
}

#[test]
fn step_ready_rejects_arena_overflow() {
    // a push whose capacity would carry the arena past the 32-bit address
    // space cannot execute; the driver sees it before stepping
    let prog = words(&[Insn::Xlo(0x1FFF_FFFC), Insn::Xhi(7), Insn::Push(0)]);
    let mut m = Machine::new(&prog);
    m.step().unwrap();
    m.step().unwrap();
    assert_eq!(m.x, XData::I32(0xFFFF_FFFC));
    assert!(!m.step_ready());
}

#[test]
fn running_off_the_code_reads_the_root_header() {
    // after the last instruction the counter points at the root header,
    // which holds the word 0 and so reads as Def(0): halt
    let prog = words(&[Insn::Xlo(3)]);
    let mut m = Machine::new(&prog);
    assert!(m.step_ready());
    m.step().unwrap();
    assert!(m.step_ready());
    assert_eq!(m.step(), Ok(Some(XData::I32(3))));
}
