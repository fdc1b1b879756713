//! The mathematical model of the machine.
//!
//! Everything here is specification: the machine state as a byte sequence
//! plus registers, well-formedness of the frame chain laid out in the arena,
//! the name-lookup functions, and the one-instruction transition function
//! `step_spec` that the executable `step` is proved to implement exactly.

use vstd::prelude::*;
use crate::mem::{word_at, store_word, agree_range, lemma_word_agree, lemma_store_outside, lemma_store_frame};
use crate::obj::{ObjPtr, XData, obj_cap, obj_size, obj_prev, obj_ret};
use crate::insn::{Insn, Inherent, insn_of};
use crate::item::{ItemPtr, ItemId, Type, header_ty, header_id, item_header_word};

verus! {

/// A fault: synchronous, terminal for the current step, and returned to the
/// caller of `step`; the machine never retries internally.
#[derive(Clone, Copy, Debug, PartialEq, Eq, Structural)]
pub enum InsnException {
    WrongType,
    UnalignedCap,
    NotTopFrame,
    ItemNotFound,
    ItemExistsInFrame(ItemPtr),
    FrameFull,
    StackUnderflow,
    Unsupported,
}

/// The machine state as mathematics: accumulator, program counter, current
/// frame, root object, and the arena as a byte sequence.
pub struct MState {
    pub x: XData,
    pub pc: u32,
    pub fp: u32,
    pub gp: u32,
    pub mem: Seq<u8>,
}

/// What one step returns: still running, halted with a value, or a fault.
pub type StepResult = Result<Option<XData>, InsnException>;

/// Bytes the item at `p` occupies: a 4-byte header plus the payload, which
/// for an object item is its 20-byte header plus `cap` body bytes.
pub open spec fn item_span(s: Seq<u8>, p: int) -> int {
    if header_ty(word_at(s, p)) == 3 {
        4 + 20 + obj_cap(s, p + 4) as int
    } else {
        8
    }
}

/// The item list in `[lo, hi)` parses exactly: item follows item, each with a
/// real type tag, and the last ends exactly at `hi`.
pub open spec fn items_exact(s: Seq<u8>, lo: int, hi: int) -> bool
    decreases hi - lo,
{
    if lo == hi {
        true
    } else if lo < hi {
        &&& header_ty(word_at(s, lo)) < 4
        &&& lo + item_span(s, lo) <= hi
        &&& items_exact(s, lo + item_span(s, lo), hi)
    } else {
        false
    }
}

/// The first parse position in `[lo, hi)` whose item header carries `id`,
/// scanning exactly as the machine does: check the id, then skip the span.
pub open spec fn scan_items(s: Seq<u8>, lo: int, hi: int, id: u32) -> Option<int>
    decreases hi - lo,
{
    if lo < hi {
        if header_id(word_at(s, lo)) == id {
            Some(lo)
        } else if lo + item_span(s, lo) < hi {
            scan_items(s, lo + item_span(s, lo), hi, id)
        } else {
            None
        }
    } else {
        None
    }
}

/// The items of an exactly-parsing list, in list order, each as the pair of
/// its header position and its header word.
#[verifier::opaque]
pub open spec fn items_of(s: Seq<u8>, lo: int, hi: int) -> Seq<(int, u32)>
    decreases hi - lo,
{
    if lo < hi {
        seq![(lo, word_at(s, lo))] + (if lo + item_span(s, lo) < hi {
            items_of(s, lo + item_span(s, lo), hi)
        } else {
            Seq::empty()
        })
    } else {
        Seq::empty()
    }
}

/// End of the body bytes currently occupied by items of the object at `q`.
pub open spec fn size_end(s: Seq<u8>, q: int) -> int {
    q + 20 + obj_size(s, q) as int
}

/// End of the body bytes reserved for the object at `q`.
pub open spec fn cap_end(s: Seq<u8>, q: int) -> int {
    q + 20 + obj_cap(s, q) as int
}

/// The object header at `q` is in bounds and internally consistent.
pub open spec fn frame_wf(s: Seq<u8>, q: int) -> bool {
    &&& 0 < q
    &&& cap_end(s, q) <= s.len()
    &&& obj_size(s, q) <= obj_cap(s, q)
}

/// The live frame `c` sits nested inside the body of `q` (rather than being
/// an independent frame allocated above `q`'s reserved body).
pub open spec fn nested_in(s: Seq<u8>, q: int, c: int) -> bool {
    c != 0 && c < cap_end(s, q)
}

/// The item list of the frame at `q` is scannable, where `c` is the live
/// frame the chain walk arrived from (0 for the head of the chain).
///
/// Without a nested live child the list parses exactly to `size`. With one,
/// the child's object item is the last of the list, and the child may have
/// grown past `q`'s recorded `size` (growth is written back to the parent
/// only when the child is popped), so the list parses exactly up to the
/// child's item, whose span covers at least the rest of the recorded body.
pub open spec fn frame_items_wf(s: Seq<u8>, q: int, c: int) -> bool {
    if nested_in(s, q, c) {
        &&& q + 24 <= c
        &&& items_exact(s, q + 20, c - 4)
        &&& header_ty(word_at(s, c - 4)) == 3
        &&& c + 20 <= size_end(s, q)
        &&& size_end(s, q) <= cap_end(s, c)
        &&& cap_end(s, c) <= s.len()
    } else {
        items_exact(s, q + 20, size_end(s, q))
    }
}

/// Well-formedness of the frame chain from `q` down to the root, walking
/// `prev` links. `c` is the frame the walk came from (0 at the head) and
/// `c_is_head` whether `c` is the head of the whole chain.
///
/// Beside each frame's own header and item-list shape, adjacent frames obey
/// the capacity discipline that makes popping sound: an independent child
/// starts exactly at its parent's reserved end; a nested child that is not
/// the head lies within its parent's reserved body; and for the head pair,
/// one of the two reserved ends is the arena's top.
pub open spec fn chain_wf_from(s: Seq<u8>, q: int, c: int, c_is_head: bool) -> bool
    decreases q,
{
    q == 0 || {
        &&& frame_wf(s, q)
        &&& frame_items_wf(s, q, c)
        &&& (if c == 0 {
            true
        } else if nested_in(s, q, c) {
            if c_is_head {
                cap_end(s, q) == s.len() || cap_end(s, c) == s.len()
            } else {
                cap_end(s, q) <= cap_end(s, c)
            }
        } else {
            c == cap_end(s, q)
        })
        &&& obj_prev(s, q) < q
        &&& chain_wf_from(s, obj_prev(s, q) as int, q, c == 0)
    }
}

/// Well-formedness of the whole chain hanging from the head frame `q`.
pub open spec fn chain_wf(s: Seq<u8>, q: int) -> bool {
    chain_wf_from(s, q, 0, false)
}

/// The current frame's header lies inside an arena addressable by 32-bit
/// offsets.
pub open spec fn fp_in_bounds(m: MState) -> bool {
    m.fp + 20 <= m.mem.len() && m.mem.len() <= u32::MAX
}

/// A well-formed machine: the arena is addressable by 32-bit offsets and the
/// current frame heads a well-formed chain.
pub open spec fn mstate_wf(m: MState) -> bool {
    &&& m.mem.len() <= u32::MAX
    &&& m.fp != 0
    &&& chain_wf(m.mem, m.fp as int)
}

/// Name lookup along the frame chain: scan the items of `q`, then fall
/// through to `prev`, stopping at a nil or non-decreasing link.
pub open spec fn chain_scan(s: Seq<u8>, q: int, id: u32) -> Option<int>
    decreases q,
{
    if q <= 0 {
        None
    } else {
        let r = scan_items(s, q + 20, size_end(s, q), id);
        if r is Some {
            r
        } else {
            let pv = obj_prev(s, q) as int;
            if pv < q {
                chain_scan(s, pv, id)
            } else {
                None
            }
        }
    }
}

/// The arena after resizing to `n` bytes: truncation, or growth with zeroes.
pub open spec fn resize_mem(s: Seq<u8>, n: int) -> Seq<u8> {
    if n <= s.len() {
        s.subrange(0, n)
    } else {
        s + Seq::new((n - s.len()) as nat, |i: int| 0u8)
    }
}

/// The instruction word the machine is about to execute.
pub open spec fn cur_insn(m: MState) -> Insn {
    insn_of(word_at(m.mem, m.pc as int))
}

/// Growth protocol: if `new_size` exceeds `cap`, only the arena's top object
/// may grow, by extending the arena and raising `cap` to the new size; the
/// returned flag is false exactly when a non-top frame would have to grow.
pub open spec fn ensure_space_spec(s: Seq<u8>, q: int, new_size: u32) -> (Seq<u8>, bool) {
    if new_size <= obj_cap(s, q) {
        (s, true)
    } else if cap_end(s, q) == s.len() {
        (store_word(resize_mem(s, q + 20 + new_size as int), q, new_size), true)
    } else {
        (s, false)
    }
}

/// Effect of `Def(id)`: id 0 halts with the accumulator; a duplicate id in
/// the current frame faults; otherwise an `I32` item is appended to the
/// current frame's body, growing it if the frame is the arena's top.
pub open spec fn def_spec(m: MState, id: u32) -> (MState, StepResult) {
    let s = m.mem;
    let q = m.fp as int;
    if id == 0 {
        (m, Ok(Some(m.x)))
    } else if scan_items(s, q + 20, size_end(s, q), id) is Some {
        let p = scan_items(s, q + 20, size_end(s, q), id)->Some_0;
        (m, Err(InsnException::ItemExistsInFrame(ItemPtr(p as u32))))
    } else if !(m.x is I32) {
        (m, Err(InsnException::Unsupported))
    } else {
        let n = m.x->I32_0;
        let new_size = (obj_size(s, q) + 8) as u32;
        let grown = ensure_space_spec(s, q, new_size);
        if !grown.1 {
            (m, Err(InsnException::FrameFull))
        } else {
            let s1 = grown.0;
            let s2 = store_word(s1, size_end(s, q), item_header_word(Type::I32, ItemId(id)));
            let s3 = store_word(s2, size_end(s, q) + 4, n);
            let s4 = store_word(s3, q + 4, new_size);
            (MState { pc: (m.pc + 4) as u32, mem: s4, ..m }, Ok(None))
        }
    }
}

/// Effect of `Push(id)`: with an `I32` capacity in the accumulator and the
/// current frame at the arena's top, id 0 allocates a fresh frame above it,
/// and a nonzero id allocates a named object nested in its body; either
/// becomes the new current frame.
pub open spec fn push_spec(m: MState, id: u32) -> (MState, StepResult) {
    let s = m.mem;
    let q = m.fp as int;
    match m.x {
        XData::I32(xv) => {
            if cap_end(s, q) != s.len() {
                (m, Err(InsnException::NotTopFrame))
            } else if xv & 3 != 0 {
                (m, Err(InsnException::UnalignedCap))
            } else if id == 0 {
                let nf = cap_end(s, q);
                let s1 = resize_mem(s, nf + 20 + xv as int);
                let s2 = store_word(s1, nf, xv);
                let s3 = store_word(s2, nf + 4, 0);
                let s4 = store_word(s3, nf + 8, m.fp);
                let s5 = store_word(s4, nf + 12, m.fp);
                let s6 = store_word(s5, nf + 16, 0);
                (MState { fp: nf as u32, pc: (m.pc + 4) as u32, mem: s6, ..m }, Ok(None))
            } else {
                let new_size = (obj_size(s, q) + 24 + xv) as u32;
                let grown = ensure_space_spec(s, q, new_size);
                if !grown.1 {
                    (m, Err(InsnException::FrameFull))
                } else {
                    let hdr = size_end(s, q);
                    let c = hdr + 4;
                    let s2 = store_word(grown.0, hdr, item_header_word(Type::Object, ItemId(id)));
                    let s3 = store_word(s2, c, xv);
                    let s4 = store_word(s3, c + 4, 0);
                    let s5 = store_word(s4, c + 8, m.fp);
                    let s6 = store_word(s5, c + 12, m.fp);
                    let s7 = store_word(s6, c + 16, 0);
                    let s8 = store_word(s7, q + 4, new_size);
                    (MState { fp: c as u32, pc: (m.pc + 4) as u32, mem: s8, ..m }, Ok(None))
                }
            }
        },
        XData::Object(_) => {
            if id == 0 {
                (m, Err(InsnException::Unsupported))
            } else {
                (m, Err(InsnException::WrongType))
            }
        },
        _ => (m, Err(InsnException::WrongType)),
    }
}

/// Effect of `Inherent::Pop`: resume at the popped frame's `ret` if nonzero,
/// move to `prev` (faulting below the root, with the program counter already
/// moved, as the machine commits it before following the link), widen a
/// nested child's growth back into the parent, and cut the arena back to the
/// parent's reserved end.
pub open spec fn pop_spec(m: MState) -> (MState, StepResult) {
    let s = m.mem;
    let h = m.fp as int;
    let ret = obj_ret(s, h);
    let pc1 = if ret != 0 {
        ret
    } else {
        (m.pc + 4) as u32
    };
    let pv = obj_prev(s, h) as int;
    if pv == 0 {
        (MState { pc: pc1, ..m }, Err(InsnException::StackUnderflow))
    } else if size_end(s, pv) >= h + 20 {
        let new_size = (cap_end(s, h) - (pv + 20)) as u32;
        let new_cap = if new_size > obj_cap(s, pv) {
            new_size
        } else {
            obj_cap(s, pv)
        };
        let s1 = store_word(s, pv, new_cap);
        let s2 = store_word(s1, pv + 4, new_size);
        let s3 = resize_mem(s2, pv + 20 + new_cap as int);
        (MState { pc: pc1, fp: pv as u32, mem: s3, ..m }, Ok(None))
    } else {
        let s1 = resize_mem(s, cap_end(s, pv));
        (MState { pc: pc1, fp: pv as u32, mem: s1, ..m }, Ok(None))
    }
}

/// Effect of `Val(id)`: id 0 loads the root object; otherwise the chain is
/// searched and the accumulator takes the found item's typed value.
pub open spec fn val_spec(m: MState, id: u32) -> (MState, StepResult) {
    let s = m.mem;
    if id == 0 {
        (MState { x: XData::Object(ObjPtr(m.gp)), pc: (m.pc + 4) as u32, ..m }, Ok(None))
    } else {
        match chain_scan(s, m.fp as int, id) {
            Some(p) => {
                let ty = header_ty(word_at(s, p));
                let x1 = if ty == 0 {
                    XData::BuiltinCode(word_at(s, p + 4))
                } else if ty == 1 {
                    XData::Code(word_at(s, p + 4))
                } else if ty == 2 {
                    XData::I32(word_at(s, p + 4))
                } else {
                    XData::Object(ObjPtr((p + 4) as u32))
                };
                (MState { x: x1, pc: (m.pc + 4) as u32, ..m }, Ok(None))
            },
            None => (m, Err(InsnException::ItemNotFound)),
        }
    }
}

/// Effect of `Xlo(n)`: load the 29-bit immediate into the accumulator.
pub open spec fn xlo_spec(m: MState, n: u32) -> (MState, StepResult) {
    (MState { x: XData::I32(n), pc: (m.pc + 4) as u32, ..m }, Ok(None))
}

/// Effect of `Xhi(n)`: put `n` in the top 3 bits of an `I32` accumulator.
pub open spec fn xhi_spec(m: MState, n: u32) -> (MState, StepResult) {
    match m.x {
        XData::I32(n2) => (
            MState { x: XData::I32((n2 & 0x1FFF_FFFF) | (n << 29)), pc: (m.pc + 4) as u32, ..m },
            Ok(None),
        ),
        _ => (m, Err(InsnException::WrongType)),
    }
}

/// One instruction step of the machine, as a mathematical function: decode
/// the word at `pc`, dispatch, and return the next state and the outcome.
/// Instructions the design leaves unspecified fault with `Unsupported`.
pub open spec fn step_spec(m: MState) -> (MState, StepResult) {
    match cur_insn(m) {
        Insn::Def(id) => def_spec(m, id),
        Insn::SetItem(_) => (m, Err(InsnException::Unsupported)),
        Insn::Push(id) => push_spec(m, id),
        Insn::Inh(h) => match h {
            Inherent::Pop => pop_spec(m),
            _ => (m, Err(InsnException::Unsupported)),
        },
        Insn::Jump(_) => (m, Err(InsnException::Unsupported)),
        Insn::Val(id) => val_spec(m, id),
        Insn::Xlo(n) => xlo_spec(m, n),
        Insn::Xhi(n) => xhi_spec(m, n),
    }
}

/// The machine-limit side conditions under which the current step executes:
/// every address it computes fits the 32-bit arena address space, and a pop
/// does not resume at its own address.
pub open spec fn step_fits(m: MState) -> bool {
    let s = m.mem;
    let q = m.fp as int;
    match cur_insn(m) {
        Insn::Def(id) => (id != 0 && scan_items(s, q + 20, size_end(s, q), id) is None && m.x is I32)
            ==> q + 28 + obj_size(s, q) <= u32::MAX,
        Insn::Push(id) => m.x matches XData::I32(xv) ==> ((cap_end(s, q) == s.len() && xv & 3 == 0)
            ==> (if id == 0 {
            s.len() + 20 + xv <= u32::MAX
        } else {
            q + 44 + obj_size(s, q) + xv <= u32::MAX
        })),
        Insn::Inh(h) => h is Pop ==> !(obj_ret(s, q) == m.pc && obj_ret(s, q) != 0),
        _ => true,
    }
}

/// A successful `Push(0)` (a fresh independent frame above the arena's top)
/// preserves machine well-formedness; the new frame becomes the head.
#[verifier::rlimit(100)]
pub proof fn lemma_push0_wf(m: MState)
    requires
        mstate_wf(m),
        m.x is I32,
        m.x->I32_0 & 3 == 0,
        cap_end(m.mem, m.fp as int) == m.mem.len(),
        m.mem.len() + 20 + m.x->I32_0 <= u32::MAX,
    ensures
        mstate_wf(push_spec(m, 0).0),
        push_spec(m, 0).0.fp == m.mem.len(),
        push_spec(m, 0).1 == Ok::<Option<XData>, InsnException>(None),
{
    let s = m.mem;
    let q = m.fp as int;
    let xv = m.x->I32_0;
    let nf = cap_end(s, q);
    let s1 = resize_mem(s, nf + 20 + xv as int);
    let s2 = store_word(s1, nf, xv);
    let s3 = store_word(s2, nf + 4, 0);
    let s4 = store_word(s3, nf + 8, m.fp);
    let s5 = store_word(s4, nf + 12, m.fp);
    let s6 = store_word(s5, nf + 16, 0);
    let l6 = nf + 20 + xv as int;
    lemma_resize_agree(s, l6);
    assert(s2.len() == l6 && s3.len() == l6 && s4.len() == l6 && s5.len() == l6 && s6.len() == l6);
    // the fresh frame's header fields
    crate::mem::lemma_load_store(s1, nf, xv);
    lemma_store_frame(s2, nf + 4, 0, nf);
    lemma_store_frame(s3, nf + 8, m.fp, nf);
    lemma_store_frame(s4, nf + 12, m.fp, nf);
    lemma_store_frame(s5, nf + 16, 0, nf);
    assert(obj_cap(s6, nf) == xv);
    crate::mem::lemma_load_store(s2, nf + 4, 0);
    lemma_store_frame(s3, nf + 8, m.fp, nf + 4);
    lemma_store_frame(s4, nf + 12, m.fp, nf + 4);
    lemma_store_frame(s5, nf + 16, 0, nf + 4);
    assert(obj_size(s6, nf) == 0);
    crate::mem::lemma_load_store(s4, nf + 12, m.fp);
    lemma_store_frame(s5, nf + 16, 0, nf + 12);
    assert(obj_prev(s6, nf) == m.fp);
    // bytes below the new frame are untouched
    lemma_store_agree_below(s1, nf, xv, nf);
    lemma_store_agree_below(s2, nf + 4, 0, nf);
    lemma_store_agree_below(s3, nf + 8, m.fp, nf);
    lemma_store_agree_below(s4, nf + 12, m.fp, nf);
    lemma_store_agree_below(s5, nf + 16, 0, nf);
    lemma_agree_trans(s, s1, s2, 0, nf);
    lemma_agree_trans(s, s2, s3, 0, nf);
    lemma_agree_trans(s, s3, s4, 0, nf);
    lemma_agree_trans(s, s4, s5, 0, nf);
    lemma_agree_trans(s, s5, s6, 0, nf);
    // the old head keeps its shape, with the new frame independent above it
    lemma_word_agree(s, s6, q);
    lemma_word_agree(s, s6, q + 4);
    lemma_word_agree(s, s6, q + 12);
    assert(frame_items_wf(s, q, 0));
    lemma_items_exact_agree(s, s6, q + 20, size_end(s, q));
    assert(frame_wf(s6, q));
    assert(!nested_in(s6, q, nf));
    assert(frame_items_wf(s6, q, nf));
    // the chain below the old head
    if obj_prev(s, q) != 0 {
        lemma_chain_flag(s, obj_prev(s, q) as int, q, true, false);
        lemma_chain_preserved(s, s6, obj_prev(s, q) as int, q, false);
    } else {
        assert(chain_wf_from(s6, 0, q, false));
    }
    assert(chain_wf_from(s6, q, nf, true));
    // the fresh head itself
    assert(items_exact(s6, nf + 20, nf + 20));
    assert(frame_wf(s6, nf));
    assert(frame_items_wf(s6, nf, 0));
    assert(chain_wf_from(s6, nf, 0, false));
    assert(push_spec(m, 0).0.mem == s6);
}

/// The seven stores of a named push, word by word: the item header and the
/// fresh object header read back as written, the enclosing frame's header
/// keeps its cap and prev, and every byte below the new item other than the
/// frame's size field is untouched.
#[verifier::rlimit(100)]
proof fn lemma_pushn_stores(s1: Seq<u8>, q: int, fpv: u32, xv: u32, ns: u32, id: u32)
    requires
        0 <= q,
        ns == obj_size(s1, q) + 24 + xv,
        q + 20 + ns <= s1.len(),
        id & 0xE000_0000 == 0,
    ensures
        ({
            let hdr = size_end(s1, q);
            let c = hdr + 4;
            let hw = item_header_word(Type::Object, ItemId(id));
            let s8 = store_word(
                store_word(
                    store_word(
                        store_word(
                            store_word(
                                store_word(store_word(s1, hdr, hw), c, xv),
                                c + 4,
                                0,
                            ),
                            c + 8,
                            fpv,
                        ),
                        c + 12,
                        fpv,
                    ),
                    c + 16,
                    0,
                ),
                q + 4,
                ns,
            );
            &&& s8.len() == s1.len()
            &&& word_at(s8, hdr) == hw
            &&& obj_cap(s8, c) == xv
            &&& obj_size(s8, c) == 0
            &&& obj_prev(s8, c) == fpv
            &&& obj_size(s8, q) == ns
            &&& obj_cap(s8, q) == obj_cap(s1, q)
            &&& obj_prev(s8, q) == obj_prev(s1, q)
            &&& (forall|i: int| 0 <= i < hdr && (i < q + 4 || q + 8 <= i) ==> s1[i] == s8[i])
        }),
{
    let hdr = size_end(s1, q);
    let c = hdr + 4;
    let hw = item_header_word(Type::Object, ItemId(id));
    let s2 = store_word(s1, hdr, hw);
    let s3 = store_word(s2, c, xv);
    let s4 = store_word(s3, c + 4, 0);
    let s5 = store_word(s4, c + 8, fpv);
    let s6 = store_word(s5, c + 12, fpv);
    let s7 = store_word(s6, c + 16, 0);
    let s8 = store_word(s7, q + 4, ns);
    assert(c + 20 + xv == q + 20 + ns);
    assert(s8.len() == s1.len());
    // the object item's header word
    crate::mem::lemma_load_store(s1, hdr, hw);
    lemma_store_frame(s2, c, xv, hdr);
    lemma_store_frame(s3, c + 4, 0, hdr);
    lemma_store_frame(s4, c + 8, fpv, hdr);
    lemma_store_frame(s5, c + 12, fpv, hdr);
    lemma_store_frame(s6, c + 16, 0, hdr);
    lemma_store_frame(s7, q + 4, ns, hdr);
    assert(word_at(s8, hdr) == hw);
    // the nested object's header fields
    crate::mem::lemma_load_store(s2, c, xv);
    lemma_store_frame(s3, c + 4, 0, c);
    lemma_store_frame(s4, c + 8, fpv, c);
    lemma_store_frame(s5, c + 12, fpv, c);
    lemma_store_frame(s6, c + 16, 0, c);
    lemma_store_frame(s7, q + 4, ns, c);
    assert(obj_cap(s8, c) == xv);
    crate::mem::lemma_load_store(s3, c + 4, 0);
    lemma_store_frame(s4, c + 8, fpv, c + 4);
    lemma_store_frame(s5, c + 12, fpv, c + 4);
    lemma_store_frame(s6, c + 16, 0, c + 4);
    lemma_store_frame(s7, q + 4, ns, c + 4);
    assert(obj_size(s8, c) == 0);
    crate::mem::lemma_load_store(s5, c + 12, fpv);
    lemma_store_frame(s6, c + 16, 0, c + 12);
    lemma_store_frame(s7, q + 4, ns, c + 12);
    assert(obj_prev(s8, c) == fpv);
    // the enclosing frame's header after the size write
    crate::mem::lemma_load_store(s7, q + 4, ns);
    assert(obj_size(s8, q) == ns);
    lemma_store_frame(s2, c, xv, q);
    lemma_store_frame(s3, c + 4, 0, q);
    lemma_store_frame(s4, c + 8, fpv, q);
    lemma_store_frame(s5, c + 12, fpv, q);
    lemma_store_frame(s6, c + 16, 0, q);
    lemma_store_frame(s1, hdr, hw, q);
    lemma_store_frame(s7, q + 4, ns, q);
    assert(obj_cap(s8, q) == obj_cap(s1, q));
    lemma_store_frame(s1, hdr, hw, q + 12);
    lemma_store_frame(s2, c, xv, q + 12);
    lemma_store_frame(s3, c + 4, 0, q + 12);
    lemma_store_frame(s4, c + 8, fpv, q + 12);
    lemma_store_frame(s5, c + 12, fpv, q + 12);
    lemma_store_frame(s6, c + 16, 0, q + 12);
    lemma_store_frame(s7, q + 4, ns, q + 12);
    assert(obj_prev(s8, q) == obj_prev(s1, q));
    // everything below the new item but the size field is untouched
    lemma_store_agree_below(s1, hdr, hw, hdr);
    lemma_store_agree_below(s2, c, xv, hdr);
    lemma_store_agree_below(s3, c + 4, 0, hdr);
    lemma_store_agree_below(s4, c + 8, fpv, hdr);
    lemma_store_agree_below(s5, c + 12, fpv, hdr);
    lemma_store_agree_below(s6, c + 16, 0, hdr);
    lemma_agree_trans(s1, s2, s3, 0, hdr);
    lemma_agree_trans(s1, s3, s4, 0, hdr);
    lemma_agree_trans(s1, s4, s5, 0, hdr);
    lemma_agree_trans(s1, s5, s6, 0, hdr);
    lemma_agree_trans(s1, s6, s7, 0, hdr);
    assert forall|i: int| 0 <= i < hdr && (i < q + 4 || q + 8 <= i) implies s1[i] == s8[i] by {
        lemma_store_outside(s7, q + 4, ns, i);
        assert(s1[i] == s7[i]);
    }
}

/// The enclosing frame's shape after a named push: the push succeeds, the
/// frame ends with the nested object's item, its reserved body ends at the
/// arena's top, the fresh object's header is as written, and every byte
/// below the frame is untouched.
#[verifier::rlimit(100)]
proof fn lemma_pushn_parent(m: MState, id: u32)
    requires
        mstate_wf(m),
        id != 0,
        id & 0xE000_0000 == 0,
        m.x is I32,
        m.x->I32_0 & 3 == 0,
        cap_end(m.mem, m.fp as int) == m.mem.len(),
        m.fp + 44 + obj_size(m.mem, m.fp as int) + m.x->I32_0 <= u32::MAX,
    ensures
        ({
            let s8 = push_spec(m, id).0.mem;
            let q = m.fp as int;
            let c = q + 24 + obj_size(m.mem, q) as int;
            &&& push_spec(m, id).1 == Ok::<Option<XData>, InsnException>(None)
            &&& push_spec(m, id).0.fp == c
            &&& s8.len() <= u32::MAX
            &&& frame_wf(s8, q)
            &&& nested_in(s8, q, c)
            &&& frame_items_wf(s8, q, c)
            &&& cap_end(s8, q) == s8.len()
            &&& obj_cap(s8, c) == m.x->I32_0
            &&& obj_size(s8, c) == 0
            &&& obj_prev(s8, c) == m.fp
            &&& obj_prev(s8, q) == obj_prev(m.mem, q)
            &&& agree_range(m.mem, s8, 0, q)
        }),
{
    let s = m.mem;
    let q = m.fp as int;
    let xv = m.x->I32_0;
    let sz = obj_size(s, q) as int;
    let ns = (obj_size(s, q) + 24 + xv) as u32;
    let gr = ensure_space_spec(s, q, ns);
    lemma_ensure_space_props(s, q, ns);
    assert(gr.1);
    let s1 = gr.0;
    let l1 = s1.len() as int;
    let hdr = size_end(s, q);
    let c = hdr + 4;
    let hw = item_header_word(Type::Object, ItemId(id));
    crate::insn::lemma_split_code(3, id);
    assert(header_ty(hw) == 3 && header_id(hw) == id);
    let s2 = store_word(s1, hdr, hw);
    let s3 = store_word(s2, c, xv);
    let s4 = store_word(s3, c + 4, 0);
    let s5 = store_word(s4, c + 8, m.fp);
    let s6 = store_word(s5, c + 12, m.fp);
    let s7 = store_word(s6, c + 16, 0);
    let s8 = store_word(s7, q + 4, ns);
    // room: the grown frame holds the header plus the new object
    assert(cap_end(s1, q) == l1);
    assert(q + 20 + ns <= l1);
    assert(c + 20 + xv == q + 20 + ns);
    lemma_pushn_stores(s1, q, m.fp, xv, ns, id);
    assert(s8.len() == l1);
    assert forall|i: int| q + 20 <= i < q + 20 + sz implies s[i] == s8[i] by {
        assert(s[i] == s1[i]);
    }
    assert(items_exact(s, q + 20, q + 20 + sz)) by {
        assert(frame_items_wf(s, q, 0));
    }
    lemma_items_exact_agree(s, s8, q + 20, q + 20 + sz);
    // the enclosing frame now ends with the nested object's item
    assert(frame_wf(s8, q));
    assert(nested_in(s8, q, c));
    assert(frame_items_wf(s8, q, c));
    assert(cap_end(s8, q) == l1);
    assert forall|i: int| 0 <= i < q implies s[i] == s8[i] by {
        assert(s[i] == s1[i]);
    }
    assert(agree_range(s, s8, 0, q));
    assert(s8.len() <= u32::MAX);
    assert(push_spec(m, id).0.mem == s8);
    assert(push_spec(m, id).0.fp == c);
    assert(push_spec(m, id).1 == Ok::<Option<XData>, InsnException>(None));
}

/// A successful `Push(id)` with a nonzero id (a named object nested in the
/// current top frame) preserves machine well-formedness; the nested object
/// becomes the head.
#[verifier::rlimit(100)]
pub proof fn lemma_pushn_wf(m: MState, id: u32)
    requires
        mstate_wf(m),
        id != 0,
        id & 0xE000_0000 == 0,
        m.x is I32,
        m.x->I32_0 & 3 == 0,
        cap_end(m.mem, m.fp as int) == m.mem.len(),
        m.fp + 44 + obj_size(m.mem, m.fp as int) + m.x->I32_0 <= u32::MAX,
    ensures
        mstate_wf(push_spec(m, id).0),
        push_spec(m, id).0.fp == m.fp + 24 + obj_size(m.mem, m.fp as int),
        push_spec(m, id).1 == Ok::<Option<XData>, InsnException>(None),
{
    lemma_pushn_parent(m, id);
    let s = m.mem;
    let q = m.fp as int;
    let c = q + 24 + obj_size(s, q) as int;
    let s8 = push_spec(m, id).0.mem;
    // the chain below the enclosing frame: untouched, and the frame's
    // reserved body can only have grown, staying at the arena's top
    assert(obj_cap(s8, q) >= obj_cap(s, q)) by {
        assert(cap_end(s, q) == s.len() <= s8.len() == cap_end(s8, q));
    }
    assert(obj_prev(s8, q) == obj_prev(s, q) && obj_prev(s, q) < q);
    if obj_prev(s, q) != 0 {
        lemma_chain_flag(s, obj_prev(s, q) as int, q, true, false);
        lemma_chain_preserved(s, s8, obj_prev(s, q) as int, q, false);
    }
    assert(chain_wf_from(s8, obj_prev(s8, q) as int, q, false));
    assert(chain_wf_from(s8, q, c, true));
    // the nested object is the new, empty head
    assert(items_exact(s8, c + 20, c + 20));
    assert(frame_wf(s8, c));
    assert(frame_items_wf(s8, c, 0));
    assert(chain_wf_from(s8, c, 0, false));
}

/// `Inherent::Pop` preserves machine well-formedness, whether it succeeds
/// or faults with `StackUnderflow`.
pub proof fn lemma_pop_wf(m: MState)
    requires
        mstate_wf(m),
    ensures
        mstate_wf(pop_spec(m).0),
        pop_spec(m).1 is Ok <==> obj_prev(m.mem, m.fp as int) != 0,
{
    let s = m.mem;
    let h = m.fp as int;
    let pv = obj_prev(s, h) as int;
    if pv != 0 {
        if size_end(s, pv) >= h + 20 {
            lemma_pop_nested(m);
        } else {
            lemma_pop_indep(m);
        }
    }
}

/// Arithmetic of the nested-pop widening: the child lies within the
/// parent's body, the widened size covers the old one, and the widened
/// reserved end is exactly the arena's top, so nothing is truncated.
proof fn lemma_pop_nested_bounds(m: MState)
    requires
        mstate_wf(m),
        obj_prev(m.mem, m.fp as int) != 0,
        size_end(m.mem, obj_prev(m.mem, m.fp as int) as int) >= m.fp + 20,
    ensures
        ({
            let s = m.mem;
            let h = m.fp as int;
            let pv = obj_prev(s, h) as int;
            let new_size = (cap_end(s, h) - (pv + 20)) as u32;
            let new_cap = if new_size > obj_cap(s, pv) {
                new_size
            } else {
                obj_cap(s, pv)
            };
            &&& pv + 24 <= h
            &&& frame_wf(s, pv)
            &&& nested_in(s, pv, h)
            &&& frame_items_wf(s, pv, h)
            &&& obj_prev(s, pv) < pv
            &&& chain_wf_from(s, obj_prev(s, pv) as int, pv, false)
            &&& h + 20 <= cap_end(s, h) <= s.len()
            &&& obj_size(s, pv) <= new_size
            &&& pv + 20 + new_cap == s.len()
        }),
{
    let s = m.mem;
    let h = m.fp as int;
    let pv = obj_prev(s, h) as int;
    assert(chain_wf_from(s, pv, h, true));
    assert(nested_in(s, pv, h));
    let new_size = (cap_end(s, h) - (pv + 20)) as u32;
    let new_cap = if new_size > obj_cap(s, pv) {
        new_size
    } else {
        obj_cap(s, pv)
    };
    assert(obj_size(s, pv) <= new_size);
    assert(pv + 20 + new_cap == s.len()) by {
        if cap_end(s, h) == s.len() {
            assert(cap_end(s, pv) <= s.len());
        } else {
            assert(cap_end(s, pv) == s.len());
            assert(cap_end(s, h) <= s.len());
        }
    }
}

/// Popping a frame nested in its parent: the parent is widened to cover the
/// child's reserved body and becomes a well-formed head.
#[verifier::rlimit(100)]
pub(crate) proof fn lemma_pop_nested(m: MState)
    requires
        mstate_wf(m),
        obj_prev(m.mem, m.fp as int) != 0,
        size_end(m.mem, obj_prev(m.mem, m.fp as int) as int) >= m.fp + 20,
    ensures
        mstate_wf(pop_spec(m).0),
        ({
            let s = m.mem;
            let h = m.fp as int;
            let pv = obj_prev(s, h) as int;
            let new_size = (cap_end(s, h) - (pv + 20)) as u32;
            let new_cap = if new_size > obj_cap(s, pv) {
                new_size
            } else {
                obj_cap(s, pv)
            };
            &&& pv + 24 <= h
            &&& frame_wf(s, pv)
            &&& h + 20 <= cap_end(s, h) <= s.len()
            &&& obj_size(s, pv) <= new_size
            &&& pv + 20 + new_cap == s.len()
        }),
{
    lemma_pop_nested_bounds(m);
    let s = m.mem;
    let h = m.fp as int;
    let pv = obj_prev(s, h) as int;
    {
        {
            let new_size = (cap_end(s, h) - (pv + 20)) as u32;
            let new_cap = if new_size > obj_cap(s, pv) {
                new_size
            } else {
                obj_cap(s, pv)
            };
            let s1 = store_word(s, pv, new_cap);
            let s2 = store_word(s1, pv + 4, new_size);
            let s3 = resize_mem(s2, pv + 20 + new_cap as int);
            lemma_resize_same(s2, pv + 20 + new_cap as int);
            assert(s3 == s2);
            crate::mem::lemma_load_store(s, pv, new_cap);
            lemma_store_frame(s1, pv + 4, new_size, pv);
            assert(obj_cap(s3, pv) == new_cap);
            crate::mem::lemma_load_store(s1, pv + 4, new_size);
            assert(obj_size(s3, pv) == new_size);
            lemma_store_frame(s, pv, new_cap, pv + 12);
            lemma_store_frame(s1, pv + 4, new_size, pv + 12);
            assert(obj_prev(s3, pv) == obj_prev(s, pv));
            assert(frame_wf(s3, pv));
            // the widened item list: old prefix, then the popped object item
            lemma_store_agree_below(s, pv, new_cap, pv);
            lemma_store_agree_below(s1, pv + 4, new_size, pv);
            lemma_agree_trans(s, s1, s2, 0, pv);
            assert forall|i: int| pv + 20 <= i < s.len() implies s[i] == s3[i] by {
                lemma_store_outside(s, pv, new_cap, i);
                lemma_store_outside(s1, pv + 4, new_size, i);
            }
            lemma_items_exact_agree(s, s3, pv + 20, h - 4);
            lemma_word_agree(s, s3, h - 4);
            lemma_word_agree(s, s3, h);
            assert(item_span(s3, h - 4) == 24 + obj_cap(s, h) as int);
            lemma_items_exact_snoc(s3, pv + 20, h - 4, pv + 20 + new_size as int);
            assert(frame_items_wf(s3, pv, 0));
            // the chain below the parent
            if obj_prev(s, pv) != 0 {
                lemma_chain_preserved(s, s3, obj_prev(s, pv) as int, pv, false);
                lemma_chain_flag(s3, obj_prev(s, pv) as int, pv, false, true);
            }
            assert(chain_wf_from(s3, obj_prev(s3, pv) as int, pv, true));
            assert(chain_wf_from(s3, pv, 0, false));
            assert(pop_spec(m).0.mem == s3);
        }
    }
}

/// Popping an independent frame: the arena is cut back to the parent's
/// reserved end, reclaiming the popped frame entirely.
#[verifier::rlimit(100)]
pub(crate) proof fn lemma_pop_indep(m: MState)
    requires
        mstate_wf(m),
        obj_prev(m.mem, m.fp as int) != 0,
        size_end(m.mem, obj_prev(m.mem, m.fp as int) as int) < m.fp + 20,
    ensures
        mstate_wf(pop_spec(m).0),
        frame_wf(m.mem, obj_prev(m.mem, m.fp as int) as int),
{
    let s = m.mem;
    let h = m.fp as int;
    let pv = obj_prev(s, h) as int;
    {
        assert(chain_wf_from(s, pv, h, true));
        {
            // the popped frame was independent: reclaim it entirely
            assert(!nested_in(s, pv, h));
            assert(h == cap_end(s, pv));
            let s1 = resize_mem(s, cap_end(s, pv));
            lemma_resize_agree(s, cap_end(s, pv));
            lemma_word_agree(s, s1, pv);
            lemma_word_agree(s, s1, pv + 4);
            lemma_word_agree(s, s1, pv + 12);
            assert(frame_wf(s1, pv));
            assert(frame_items_wf(s, pv, h));
            lemma_items_exact_agree(s, s1, pv + 20, size_end(s, pv));
            assert(frame_items_wf(s1, pv, 0));
            if obj_prev(s, pv) != 0 {
                lemma_chain_preserved(s, s1, obj_prev(s, pv) as int, pv, false);
                lemma_chain_flag(s1, obj_prev(s, pv) as int, pv, false, true);
            }
            assert(chain_wf_from(s1, obj_prev(s1, pv) as int, pv, true));
            assert(chain_wf_from(s1, pv, 0, false));
            assert(pop_spec(m).0.mem == s1);
        }
    }
}

/// A position the scan of frame `q` (entered from live frame `c`) can reach:
/// either a parse position of the exactly-parsing part of the list, or the
/// far end of the nested child's reserved body.
pub open spec fn scan_pos(s: Seq<u8>, q: int, c: int, p: int) -> bool {
    if nested_in(s, q, c) {
        (q + 20 <= p <= c - 4 && items_exact(s, p, c - 4)) || p == cap_end(s, c)
    } else {
        q + 20 <= p && items_exact(s, p, size_end(s, q))
    }
}

/// An exactly-parsing item list is insensitive to bytes outside `[lo, hi)`.
pub proof fn lemma_items_exact_agree(s1: Seq<u8>, s2: Seq<u8>, lo: int, hi: int)
    requires
        items_exact(s1, lo, hi),
        agree_range(s1, s2, lo, hi),
    ensures
        items_exact(s2, lo, hi),
    decreases hi - lo,
{
    if lo < hi {
        lemma_word_agree(s1, s2, lo);
        if header_ty(word_at(s1, lo)) == 3 {
            lemma_word_agree(s1, s2, lo + 4);
        }
        assert(item_span(s2, lo) == item_span(s1, lo));
        lemma_items_exact_agree(s1, s2, lo + item_span(s1, lo), hi);
    }
}

/// A scan of an exactly-parsing list is insensitive to bytes outside it.
pub proof fn lemma_scan_agree_exact(s1: Seq<u8>, s2: Seq<u8>, lo: int, hi: int, id: u32)
    requires
        items_exact(s1, lo, hi),
        agree_range(s1, s2, lo, hi),
    ensures
        scan_items(s2, lo, hi, id) == scan_items(s1, lo, hi, id),
    decreases hi - lo,
{
    if lo < hi {
        lemma_word_agree(s1, s2, lo);
        if header_ty(word_at(s1, lo)) == 3 {
            lemma_word_agree(s1, s2, lo + 4);
        }
        assert(item_span(s2, lo) == item_span(s1, lo));
        lemma_scan_agree_exact(s1, s2, lo + item_span(s1, lo), hi, id);
    }
}

/// Scanning past an exactly-parsing prefix: the scan of `[lo, hi)` first
/// scans the prefix `[lo, mid)`, then checks the single item at `mid`, whose
/// span reaches at least to `hi`.
pub proof fn lemma_scan_split(s: Seq<u8>, lo: int, mid: int, hi: int, id: u32)
    requires
        items_exact(s, lo, mid),
        mid <= hi,
        mid < hi ==> mid + item_span(s, mid) >= hi,
    ensures
        scan_items(s, lo, hi, id) == match scan_items(s, lo, mid, id) {
            Some(p) => Some(p),
            None => if mid < hi && header_id(word_at(s, mid)) == id {
                Some(mid)
            } else {
                None
            },
        },
    decreases mid - lo,
{
    if lo < mid {
        if header_id(word_at(s, lo)) != id {
            lemma_scan_split(s, lo + item_span(s, lo), mid, hi, id);
        }
    }
}

/// Appending one exactly-spanning item to an exactly-parsing list keeps it
/// exactly parsing.
pub proof fn lemma_items_exact_snoc(s: Seq<u8>, lo: int, mid: int, hi: int)
    requires
        items_exact(s, lo, mid),
        mid <= hi,
        mid < hi ==> (header_ty(word_at(s, mid)) < 4 && mid + item_span(s, mid) == hi),
    ensures
        items_exact(s, lo, hi),
    decreases mid - lo,
{
    if lo < mid {
        lemma_items_exact_snoc(s, lo + item_span(s, lo), mid, hi);
    } else if mid < hi {
        assert(items_exact(s, hi, hi));
        assert(items_exact(s, mid, hi));
    }
}

/// One step of the machine's item scan, from any reachable position below
/// the frame's recorded body end: the header is readable, its tag is real,
/// and skipping the item lands on another reachable position.
pub proof fn lemma_scan_step(s: Seq<u8>, q: int, c: int, p: int)
    requires
        frame_wf(s, q),
        frame_items_wf(s, q, c),
        scan_pos(s, q, c, p),
        p < size_end(s, q),
    ensures
        p + 8 <= s.len(),
        header_ty(word_at(s, p)) < 4,
        8 <= item_span(s, p),
        p + item_span(s, p) <= s.len(),
        scan_pos(s, q, c, p + item_span(s, p)),
{
    if nested_in(s, q, c) {
        if p == cap_end(s, c) {
            assert(false);
        } else if p == c - 4 {
            assert(item_span(s, p) == 24 + obj_cap(s, c) as int);
        } else {
            assert(items_exact(s, p, c - 4));
            assert(p < c - 4);
        }
    }
}

/// Chain lookup is insensitive to bytes the walk never reads: everything at
/// or above `b`, where `b` covers the entry frame's scannable region (its
/// recorded body for an exact list, or its nested child's header) — the
/// frames further down lie, and read, strictly below the entry frame.
pub proof fn lemma_chain_scan_agree(
    s1: Seq<u8>,
    s2: Seq<u8>,
    q: int,
    c: int,
    head: bool,
    b: int,
    id: u32,
)
    requires
        chain_wf_from(s1, q, c, head),
        agree_range(s1, s2, 0, b),
        q != 0 ==> q + 20 <= b,
        q != 0 && nested_in(s1, q, c) ==> c + 4 <= b,
        q != 0 && !nested_in(s1, q, c) ==> size_end(s1, q) <= b,
    ensures
        chain_scan(s2, q, id) == chain_scan(s1, q, id),
    decreases q,
{
    if q != 0 {
        lemma_word_agree(s1, s2, q + 4);
        lemma_word_agree(s1, s2, q + 12);
        if nested_in(s1, q, c) {
            lemma_word_agree(s1, s2, c - 4);
            lemma_word_agree(s1, s2, c);
            lemma_items_exact_agree(s1, s2, q + 20, c - 4);
            lemma_scan_agree_exact(s1, s2, q + 20, c - 4, id);
            lemma_scan_split(s1, q + 20, c - 4, size_end(s1, q), id);
            lemma_scan_split(s2, q + 20, c - 4, size_end(s2, q), id);
        } else {
            lemma_scan_agree_exact(s1, s2, q + 20, size_end(s1, q), id);
        }
        assert(scan_items(s2, q + 20, size_end(s2, q), id) == scan_items(
            s1,
            q + 20,
            size_end(s1, q),
            id,
        ));
        let pv = obj_prev(s1, q) as int;
        if pv != 0 {
            assert(chain_wf_from(s1, pv, q, c == 0));
            if nested_in(s1, pv, q) {
                assert(pv + 24 <= q);
            } else {
                assert(q == cap_end(s1, pv));
                assert(size_end(s1, pv) <= cap_end(s1, pv));
            }
            lemma_chain_scan_agree(s1, s2, pv, q, c == 0, b, id);
        }
    }
}

/// A store at or above `x` leaves all bytes below `x` unchanged.
pub proof fn lemma_store_agree_below(s: Seq<u8>, a: int, v: u32, x: int)
    requires
        0 <= a,
        a + 4 <= s.len(),
        x <= a,
    ensures
        agree_range(s, store_word(s, a, v), 0, x),
        store_word(s, a, v).len() == s.len(),
{
    assert forall|i: int| 0 <= i < x implies s[i] == store_word(s, a, v)[i] by {
        lemma_store_outside(s, a, v, i);
    }
}

/// Resizing keeps all surviving bytes, and grows with zeroes.
pub proof fn lemma_resize_agree(s: Seq<u8>, n: int)
    requires
        0 <= n,
    ensures
        resize_mem(s, n).len() == n,
        agree_range(
            s,
            resize_mem(s, n),
            0,
            if n <= s.len() {
                n
            } else {
                s.len() as int
            },
        ),
        forall|i: int| s.len() <= i < n ==> resize_mem(s, n)[i] == 0,
{
}

/// Resizing an arena to its own length leaves it unchanged.
pub proof fn lemma_resize_same(s: Seq<u8>, n: int)
    requires
        n == s.len(),
    ensures
        resize_mem(s, n) == s,
{
    assert(resize_mem(s, n) =~= s);
}

/// Chain facts for the frames below `c` survive a memory change that leaves
/// the bytes below `c` intact and can only have grown `c`'s reserved body,
/// as long as that body stays inside the arena. For the head pair, either
/// the head's reserved end moved with the arena's top, or nothing moved.
pub proof fn lemma_chain_preserved(s1: Seq<u8>, s2: Seq<u8>, q: int, c: int, head: bool)
    requires
        chain_wf_from(s1, q, c, head),
        c != 0,
        agree_range(s1, s2, 0, c),
        obj_cap(s2, c) >= obj_cap(s1, c),
        cap_end(s2, c) <= s2.len(),
        head ==> s2.len() >= s1.len(),
        head ==> (cap_end(s2, c) == s2.len() || (s2.len() == s1.len() && obj_cap(s2, c)
            == obj_cap(s1, c))),
    ensures
        chain_wf_from(s2, q, c, head),
    decreases q,
{
    if q != 0 {
        if nested_in(s1, q, c) {
            assert(q + 24 <= c);
        } else {
            assert(c == cap_end(s1, q));
        }
        lemma_word_agree(s1, s2, q);
        lemma_word_agree(s1, s2, q + 4);
        lemma_word_agree(s1, s2, q + 12);
        if nested_in(s1, q, c) {
            lemma_items_exact_agree(s1, s2, q + 20, c - 4);
            lemma_word_agree(s1, s2, c - 4);
        } else {
            lemma_items_exact_agree(s1, s2, q + 20, size_end(s1, q));
        }
        assert(frame_wf(s2, q));
        assert(frame_items_wf(s2, q, c));
        lemma_chain_preserved(s1, s2, obj_prev(s1, q) as int, q, false);
    }
}

/// When the frame above has its reserved end at the arena's top, the pair
/// clause holds with either head flag.
pub proof fn lemma_chain_flag(s: Seq<u8>, q: int, c: int, h1: bool, h2: bool)
    requires
        chain_wf_from(s, q, c, h1),
        c != 0,
        cap_end(s, c) == s.len(),
    ensures
        chain_wf_from(s, q, c, h2),
{
}

/// Byte agreement is transitive.
pub proof fn lemma_agree_trans(s1: Seq<u8>, s2: Seq<u8>, s3: Seq<u8>, lo: int, hi: int)
    requires
        agree_range(s1, s2, lo, hi),
        agree_range(s2, s3, lo, hi),
    ensures
        agree_range(s1, s3, lo, hi),
{
}

/// What a successful growth check guarantees: room for `new_size` body
/// bytes, the rest of the frame header untouched, every byte below the
/// header and in the old body kept, and the arena grown only at its end.
pub proof fn lemma_ensure_space_props(s: Seq<u8>, q: int, new_size: u32)
    requires
        frame_wf(s, q),
        q + 20 + new_size <= u32::MAX,
        s.len() <= u32::MAX,
    ensures
        ({
            let gr = ensure_space_spec(s, q, new_size);
            &&& gr.1 ==> {
                &&& obj_cap(gr.0, q) >= new_size
                &&& obj_size(gr.0, q) == obj_size(s, q)
                &&& obj_prev(gr.0, q) == obj_prev(s, q)
                &&& obj_ret(gr.0, q) == obj_ret(s, q)
                &&& cap_end(gr.0, q) <= gr.0.len()
                &&& gr.0.len() <= u32::MAX
                &&& gr.0.len() >= s.len()
                &&& agree_range(s, gr.0, 0, q)
                &&& agree_range(s, gr.0, q + 4, s.len() as int)
                &&& (new_size > obj_cap(s, q) ==> cap_end(gr.0, q) == gr.0.len() && obj_cap(
                    gr.0,
                    q,
                ) == new_size && s.len() == cap_end(s, q))
                &&& (new_size <= obj_cap(s, q) ==> gr.0 == s && obj_cap(gr.0, q) == obj_cap(s, q))
            }
            &&& !gr.1 ==> gr.0 == s
        }),
{
    let gr = ensure_space_spec(s, q, new_size);
    if new_size > obj_cap(s, q) && cap_end(s, q) == s.len() {
        let r1 = resize_mem(s, q + 20 + new_size as int);
        lemma_resize_agree(s, q + 20 + new_size as int);
        crate::mem::lemma_load_store(r1, q, new_size);
        lemma_store_frame(r1, q, new_size, q + 4);
        lemma_store_frame(r1, q, new_size, q + 12);
        lemma_store_frame(r1, q, new_size, q + 16);
        lemma_word_agree(s, r1, q + 4);
        lemma_word_agree(s, r1, q + 12);
        lemma_word_agree(s, r1, q + 16);
        lemma_store_agree_below(r1, q, new_size, q);
        lemma_agree_trans(s, r1, gr.0, 0, q);
        assert forall|i: int| q + 4 <= i < s.len() implies s[i] == gr.0[i] by {
            lemma_store_outside(r1, q, new_size, i);
        }
    }
}

/// A successful `Def` preserves machine well-formedness.
#[verifier::rlimit(100)]
pub proof fn lemma_def_wf(m: MState, id: u32)
    requires
        mstate_wf(m),
        id != 0,
        id & 0xE000_0000 == 0,
        m.x is I32,
        scan_items(m.mem, m.fp + 20, size_end(m.mem, m.fp as int), id) is None,
        m.fp + 28 + obj_size(m.mem, m.fp as int) <= u32::MAX,
    ensures
        mstate_wf(def_spec(m, id).0),
        def_spec(m, id).0.fp == m.fp,
        def_spec(m, id).0.gp == m.gp,
        def_spec(m, id).0.x == m.x,
        def_spec(m, id).1 == Ok::<Option<XData>, InsnException>(None) ==> ({
            let m1 = def_spec(m, id).0;
            let e = size_end(m.mem, m.fp as int);
            &&& size_end(m1.mem, m.fp as int) == e + 8
            &&& items_exact(m1.mem, m.fp + 20, e)
            &&& agree_range(m.mem, m1.mem, m.fp + 20, e)
            &&& header_ty(word_at(m1.mem, e)) == 2
            &&& header_id(word_at(m1.mem, e)) == id
            &&& word_at(m1.mem, e + 4) == m.x->I32_0
        }),
    {
    let s = m.mem;
    let q = m.fp as int;
    let sz = obj_size(s, q) as int;
    let ns = (obj_size(s, q) + 8) as u32;
    let gr = ensure_space_spec(s, q, ns);
    lemma_ensure_space_props(s, q, ns);
    if gr.1 {
        let s1 = gr.0;
        let hdr = item_header_word(Type::I32, ItemId(id));
        let s2 = store_word(s1, q + 20 + sz, hdr);
        let s3 = store_word(s2, q + 20 + sz + 4, m.x->I32_0);
        let s4 = store_word(s3, q + 4, ns);
        let l1 = s1.len() as int;
        crate::insn::lemma_split_code(2, id);
        assert(header_ty(hdr) == 2 && header_id(hdr) == id);
        // sizes: every store is in bounds and lengths are stable
        assert(q + 20 + sz + 8 <= l1);
        assert(s2.len() == l1 && s3.len() == l1 && s4.len() == l1);
        // the new item's header and payload words
        crate::mem::lemma_load_store(s1, q + 20 + sz, hdr);
        lemma_store_frame(s2, q + 20 + sz + 4, m.x->I32_0, q + 20 + sz);
        lemma_store_frame(s3, q + 4, ns, q + 20 + sz);
        assert(word_at(s4, q + 20 + sz) == hdr);
        // the frame header fields after the writes
        crate::mem::lemma_load_store(s3, q + 4, ns);
        assert(obj_size(s4, q) == ns);
        lemma_store_frame(s2, q + 20 + sz + 4, m.x->I32_0, q);
        lemma_store_frame(s3, q + 4, ns, q);
        lemma_store_frame(s1, q + 20 + sz, hdr, q);
        assert(obj_cap(s4, q) == obj_cap(s1, q));
        lemma_store_frame(s1, q + 20 + sz, hdr, q + 12);
        lemma_store_frame(s2, q + 20 + sz + 4, m.x->I32_0, q + 12);
        lemma_store_frame(s3, q + 4, ns, q + 12);
        assert(obj_prev(s4, q) == obj_prev(s1, q));
        assert(frame_wf(s4, q));
        // the old items are untouched: [q+20, q+20+sz) is below every store
        lemma_store_agree_below(s1, q + 20 + sz, hdr, q + 20 + sz);
        lemma_store_agree_below(s2, q + 20 + sz + 4, m.x->I32_0, q + 20 + sz);
        assert(agree_range(s1, s3, q + 20, q + 20 + sz));
        assert forall|i: int| q + 20 <= i < q + 20 + sz implies s[i] == s4[i] by {
            lemma_store_outside(s3, q + 4, ns, i);
        }
        assert(items_exact(s, q + 20, q + 20 + sz)) by {
            assert(frame_items_wf(s, q, 0));
        }
        assert(agree_range(s, s4, q + 20, q + 20 + sz));
        lemma_items_exact_agree(s, s4, q + 20, q + 20 + sz);
        crate::mem::lemma_load_store(s2, q + 20 + sz + 4, m.x->I32_0);
        lemma_store_frame(s3, q + 4, ns, q + 20 + sz + 4);
        assert(word_at(s4, q + 20 + sz + 4) == m.x->I32_0);
        lemma_items_exact_snoc(s4, q + 20, q + 20 + sz, q + 20 + sz + 8);
        assert(frame_items_wf(s4, q, 0));
        // the chain below survives: bytes below the frame are untouched and
        // the frame's reserved body can only have grown, staying in bounds
        lemma_store_agree_below(s1, q + 20 + sz, hdr, q);
        lemma_store_agree_below(s2, q + 20 + sz + 4, m.x->I32_0, q);
        lemma_store_agree_below(s3, q + 4, ns, q);
        lemma_agree_trans(s, s1, s2, 0, q);
        lemma_agree_trans(s, s2, s3, 0, q);
        lemma_agree_trans(s, s3, s4, 0, q);
        assert(obj_prev(s4, q) == obj_prev(s, q) && obj_prev(s, q) < q);
        if obj_prev(s, q) != 0 {
            lemma_chain_preserved(s, s4, obj_prev(s, q) as int, q, true);
        } else {
            assert(chain_wf_from(s4, 0, q, true));
        }
        assert(chain_wf_from(s4, obj_prev(s4, q) as int, q, true));
        assert(chain_wf_from(s4, q, 0, false));
        assert(def_spec(m, id).0.mem == s4);
    }
}

} // verus!
