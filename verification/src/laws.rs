//! Laws of the machine, stated over the model and proved once for every
//! state: the encoding round-trip, the growth-only-at-top discipline,
//! push/pop symmetry, scope order of name lookup, and duplicate rejection.
//!
//! The executable `step` is proved to implement `step_spec` exactly, so each
//! law about the specification functions carries over to every run of the
//! machine.

use vstd::prelude::*;
use crate::insn::{
    Insn, insn_valid, insn_code, insn_of, insn_opcode, insn_imm, lemma_split_code,
};
use crate::obj::{XData, obj_cap, obj_size, obj_prev, obj_ret};
use crate::item::{ItemPtr, header_ty, header_id};
use crate::mem::{word_at, store_word, lemma_word_agree, lemma_store_outside};
use crate::model::{
    MState, InsnException, items_exact, scan_items, items_of, item_span, size_end, cap_end, frame_wf,
    nested_in, frame_items_wf, chain_wf_from, chain_wf, mstate_wf, chain_scan, resize_mem,
    ensure_space_spec, def_spec, push_spec, pop_spec, val_spec, lemma_def_wf, lemma_scan_agree_exact,
    lemma_scan_split, lemma_chain_scan_agree, lemma_resize_agree, lemma_resize_same,
    lemma_store_agree_below, lemma_agree_trans, lemma_items_exact_agree,
};

verus! {

/// Encoding round-trip: decoding an encoded instruction reproduces it, for
/// every valid opcode and immediate within its width — unknown inherent
/// codes included, since decoding keeps the code it read.
pub proof fn lemma_insn_round_trip(i: Insn)
    requires
        insn_valid(i),
    ensures
        insn_of(insn_code(i)) == i,
{
    lemma_split_code(insn_opcode(i), insn_imm(i));
}

/// Growth only at the top: a `Push` onto a frame that is not the arena's
/// top object faults `NotTopFrame` and changes nothing.
pub proof fn lemma_push_not_top(m: MState, id: u32)
    requires
        m.x is I32,
        cap_end(m.mem, m.fp as int) != m.mem.len(),
    ensures
        push_spec(m, id) == (m, Err::<Option<XData>, InsnException>(InsnException::NotTopFrame)),
{
}

/// Growth only at the top: a `Def` that would have to grow a frame that is
/// not the arena's top object faults `FrameFull` and changes nothing —
/// sibling data above the frame is never moved or overwritten.
pub proof fn lemma_def_frame_full(m: MState, id: u32)
    requires
        id != 0,
        scan_items(m.mem, m.fp + 20, size_end(m.mem, m.fp as int), id) is None,
        m.x is I32,
        obj_size(m.mem, m.fp as int) + 8 <= u32::MAX,
        obj_size(m.mem, m.fp as int) + 8 > obj_cap(m.mem, m.fp as int),
        cap_end(m.mem, m.fp as int) != m.mem.len(),
    ensures
        def_spec(m, id) == (m, Err::<Option<XData>, InsnException>(InsnException::FrameFull)),
{
}

/// Growth only at the top, at the growth protocol itself: when the body
/// would have to grow and the frame is not the arena's top object, the check
/// fails and the arena is returned byte for byte untouched. A non-top frame
/// never grows in place, so no sibling data is ever moved or overwritten.
pub proof fn lemma_ensure_space_not_top(s: Seq<u8>, q: int, new_size: u32)
    requires
        new_size > obj_cap(s, q),
        cap_end(s, q) != s.len(),
    ensures
        ensure_space_spec(s, q, new_size) == (s, false),
{
}

/// Unaligned capacity: a `Push` whose `I32` capacity is not a multiple of 4
/// faults `UnalignedCap` on the arena's top frame, whatever the sign of the
/// value's bit pattern. (On a non-top frame `NotTopFrame` is reported
/// first.)
pub proof fn lemma_push_unaligned(m: MState, id: u32)
    requires
        m.x matches XData::I32(v) && v & 3 != 0,
        cap_end(m.mem, m.fp as int) == m.mem.len(),
    ensures
        push_spec(m, id) == (m, Err::<Option<XData>, InsnException>(InsnException::UnalignedCap)),
{
}

/// Duplicate rejection: a `Def` of an id already present in the current
/// frame's own item list faults `ItemExistsInFrame` at the first such item
/// and leaves the machine unchanged.
pub proof fn lemma_duplicate_def_rejected(m: MState, id: u32)
    requires
        id != 0,
        scan_items(m.mem, m.fp + 20, size_end(m.mem, m.fp as int), id) is Some,
    ensures
        def_spec(m, id) == (
            m,
            Err::<Option<XData>, InsnException>(
                InsnException::ItemExistsInFrame(
                    ItemPtr(
                        scan_items(m.mem, m.fp + 20, size_end(m.mem, m.fp as int), id)->Some_0
                            as u32,
                    ),
                ),
            ),
        ),
{
}

/// Scope order, inner definition: after a successful `Def(id)`, looking up
/// `id` resolves to the item just defined in the current frame — whatever
/// any outer frame binds `id` to — and a `Val(id)` loads back exactly the
/// accumulator value that was defined.
pub proof fn lemma_lookup_finds_definition(m: MState, id: u32)
    requires
        mstate_wf(m),
        id != 0,
        id & 0xE000_0000 == 0,
        m.x is I32,
        scan_items(m.mem, m.fp + 20, size_end(m.mem, m.fp as int), id) is None,
        m.fp + 28 + obj_size(m.mem, m.fp as int) <= u32::MAX,
        def_spec(m, id).1 == Ok::<Option<XData>, InsnException>(None),
    ensures
        ({
            let m1 = def_spec(m, id).0;
            let e = size_end(m.mem, m.fp as int);
            &&& scan_items(m1.mem, m1.fp + 20, size_end(m1.mem, m1.fp as int), id) == Some(e)
            &&& chain_scan(m1.mem, m1.fp as int, id) == Some(e)
            &&& val_spec(m1, id).1 == Ok::<Option<XData>, InsnException>(None)
            &&& val_spec(m1, id).0.x == m.x
        }),
{
    lemma_def_wf(m, id);
    let m1 = def_spec(m, id).0;
    let q = m.fp as int;
    let e = size_end(m.mem, q);
    assert(items_exact(m.mem, q + 20, e)) by {
        assert(frame_items_wf(m.mem, q, 0));
    }
    lemma_scan_agree_exact(m.mem, m1.mem, q + 20, e, id);
    lemma_scan_split(m1.mem, q + 20, e, e + 8, id);
    assert(scan_items(m1.mem, q + 20, e + 8, id) == Some(e));
    assert(chain_scan(m1.mem, q, id) == Some(e));
    assert(val_spec(m1, id).0.x == XData::I32(m.x->I32_0));
}

/// Duplicate rejection across two instructions: after a successful
/// `Def(id)`, a second `Def(id)` faults `ItemExistsInFrame` at the item the
/// first one made, and leaves the frame's size and contents exactly as the
/// first `Def` left them.
pub proof fn lemma_second_def_faults(m: MState, id: u32)
    requires
        mstate_wf(m),
        id != 0,
        id & 0xE000_0000 == 0,
        m.x is I32,
        scan_items(m.mem, m.fp + 20, size_end(m.mem, m.fp as int), id) is None,
        m.fp + 28 + obj_size(m.mem, m.fp as int) <= u32::MAX,
        def_spec(m, id).1 == Ok::<Option<XData>, InsnException>(None),
    ensures
        ({
            let m1 = def_spec(m, id).0;
            let e = size_end(m.mem, m.fp as int);
            &&& def_spec(m1, id).0 == m1
            &&& def_spec(m1, id).1 == Err::<Option<XData>, InsnException>(
                InsnException::ItemExistsInFrame(ItemPtr(e as u32)),
            )
        }),
{
    lemma_lookup_finds_definition(m, id);
    lemma_duplicate_def_rejected(def_spec(m, id).0, id);
}

/// Lookup within one object is a first-match linear scan: it returns the
/// position of the first item carrying `id`, and `None` exactly when no
/// item of the list does.
pub proof fn lemma_scan_first_match(s: Seq<u8>, lo: int, hi: int, id: u32)
    requires
        items_exact(s, lo, hi),
    ensures
        ({
            let items = items_of(s, lo, hi);
            match scan_items(s, lo, hi, id) {
                Some(p) => exists|k: int|
                    0 <= k < items.len() && (#[trigger] items[k]).0 == p && header_id(items[k].1)
                        == id && (forall|j: int| 0 <= j < k ==> header_id(items[j].1) != id),
                None => forall|k: int| 0 <= k < items.len() ==> header_id(items[k].1) != id,
            }
        }),
    decreases hi - lo,
{
    reveal_with_fuel(crate::model::items_of, 2);
    if lo < hi {
        let items = items_of(s, lo, hi);
        if header_id(word_at(s, lo)) == id {
            assert(items[0].0 == lo && header_id(items[0].1) == id);
        } else {
            let lo2 = lo + item_span(s, lo);
            assert(lo2 < hi ==> items == seq![(lo, word_at(s, lo))] + items_of(s, lo2, hi));
            if lo2 < hi {
                lemma_scan_first_match(s, lo2, hi, id);
                let tail = items_of(s, lo2, hi);
                match scan_items(s, lo2, hi, id) {
                    Some(p) => {
                        let k2 = choose|k: int|
                            0 <= k < tail.len() && (#[trigger] tail[k]).0 == p && header_id(
                                tail[k].1,
                            ) == id && (forall|j: int| 0 <= j < k ==> header_id(tail[j].1) != id);
                        assert(items[k2 + 1] == tail[k2]);
                        assert forall|j: int| 0 <= j < k2 + 1 implies header_id(items[j].1)
                            != id by {
                            if j > 0 {
                                assert(items[j] == tail[j - 1]);
                            }
                        }
                    },
                    None => {
                        assert forall|k: int| 0 <= k < items.len() implies header_id(items[k].1)
                            != id by {
                            if k > 0 {
                                assert(items[k] == tail[k - 1]);
                            }
                        }
                    },
                }
            } else {
                assert(items.len() == 1);
            }
        }
    }
}

/// Pop symmetry: pushing a fresh frame of any aligned capacity and popping
/// it right away restores the frame pointer, the arena contents and length,
/// the accumulator and the root exactly; the program counter moves over the
/// two instructions.
pub proof fn lemma_push_pop_symmetry(m: MState, c: u32)
    requires
        mstate_wf(m),
        m.x == XData::I32(c),
        c & 3 == 0,
        cap_end(m.mem, m.fp as int) == m.mem.len(),
        m.mem.len() + 20 + c <= u32::MAX,
        m.pc + 8 <= u32::MAX,
    ensures
        ({
            let m1 = push_spec(m, 0).0;
            let m2 = pop_spec(m1).0;
            &&& push_spec(m, 0).1 == Ok::<Option<XData>, InsnException>(None)
            &&& pop_spec(m1).1 == Ok::<Option<XData>, InsnException>(None)
            &&& m2 == (MState { pc: (m.pc + 8) as u32, ..m })
        }),
{
    let s = m.mem;
    let q = m.fp as int;
    let nf = cap_end(s, q);
    let xv = c;
    let s1 = resize_mem(s, nf + 20 + xv as int);
    let s2 = store_word(s1, nf, xv);
    let s3 = store_word(s2, nf + 4, 0);
    let s4 = store_word(s3, nf + 8, m.fp);
    let s5 = store_word(s4, nf + 12, m.fp);
    let s6 = store_word(s5, nf + 16, 0);
    let l6 = nf + 20 + xv as int;
    lemma_resize_agree(s, l6);
    assert(s6.len() == l6);
    // the new frame's header fields as the pop will read them
    crate::mem::lemma_load_store(s5, nf + 16, 0);
    assert(obj_ret(s6, nf) == 0);
    crate::mem::lemma_load_store(s4, nf + 12, m.fp);
    crate::mem::lemma_store_frame(s5, nf + 16, 0, nf + 12);
    assert(obj_prev(s6, nf) == m.fp);
    crate::mem::lemma_load_store(s2, nf + 4, 0);
    crate::mem::lemma_store_frame(s3, nf + 8, m.fp, nf + 4);
    crate::mem::lemma_store_frame(s4, nf + 12, m.fp, nf + 4);
    crate::mem::lemma_store_frame(s5, nf + 16, 0, nf + 4);
    assert(obj_size(s6, nf) == 0);
    // everything below the new frame is untouched
    lemma_store_agree_below(s1, nf, xv, nf);
    lemma_store_agree_below(s2, nf + 4, 0, nf);
    lemma_store_agree_below(s3, nf + 8, m.fp, nf);
    lemma_store_agree_below(s4, nf + 12, m.fp, nf);
    lemma_store_agree_below(s5, nf + 16, 0, nf);
    lemma_agree_trans(s, s1, s2, 0, nf);
    lemma_agree_trans(s, s2, s3, 0, nf);
    lemma_agree_trans(s, s3, s4, 0, nf);
    lemma_agree_trans(s, s4, s5, 0, nf);
    lemma_agree_trans(s, s5, s6, 0, nf);
    let m1 = push_spec(m, 0).0;
    assert(m1.mem == s6 && m1.fp == nf as u32 && m1.pc == m.pc + 4);
    // the pop sees an independent frame: the parent's recorded body, kept
    // intact below the new frame, ends strictly under the frame's header
    lemma_word_agree(s, s6, q);
    lemma_word_agree(s, s6, q + 4);
    assert(obj_cap(s6, q) == obj_cap(s, q) && obj_size(s6, q) == obj_size(s, q));
    assert(frame_wf(s, q)) by {
        assert(chain_wf(s, q));
    }
    assert(size_end(s6, q) < nf + 20);
    assert(pop_spec(m1).1 == Ok::<Option<XData>, InsnException>(None));
    let m2 = pop_spec(m1).0;
    // truncating back to the parent's reserved end restores the old arena
    assert(m2.mem == resize_mem(s6, cap_end(s6, q)));
    assert(cap_end(s6, q) == s.len());
    assert forall|i: int| 0 <= i < s.len() implies resize_mem(s6, s.len() as int)[i] == s[i] by {
        assert(s6[i] == s[i]);
    }
    assert(m2.mem =~= s);
    assert(m2.pc == m.pc + 8 && m2.fp == m.fp && m2.x == m.x && m2.gp == m.gp);
}

/// Scope order, unshadowing: popping the current frame makes every lookup
/// resolve exactly as a lookup started at the previous frame would have
/// before the pop — the popped frame's own definitions stop shadowing outer
/// ones, and nothing else about name resolution changes.
#[verifier::rlimit(100)]
pub proof fn lemma_lookup_after_pop(m: MState, id: u32)
    requires
        mstate_wf(m),
        obj_prev(m.mem, m.fp as int) != 0,
    ensures
        ({
            let m2 = pop_spec(m).0;
            &&& pop_spec(m).1 == Ok::<Option<XData>, InsnException>(None)
            &&& m2.fp == obj_prev(m.mem, m.fp as int)
            &&& chain_scan(m2.mem, m2.fp as int, id) == chain_scan(
                m.mem,
                obj_prev(m.mem, m.fp as int) as int,
                id,
            )
        }),
{
    let s = m.mem;
    let h = m.fp as int;
    let pv = obj_prev(s, h) as int;
    assert(chain_wf_from(s, pv, h, true));
    let m2 = pop_spec(m).0;
    if size_end(s, pv) >= h + 20 {
        // nested pop: the parent's size and cap fields are widened, but its
        // item list keeps the same items at the same places, with the
        // popped child's object item closing it
        crate::model::lemma_pop_nested(m);
        assert(nested_in(s, pv, h));
        let new_size = (cap_end(s, h) - (pv + 20)) as u32;
        let new_cap = if new_size > obj_cap(s, pv) {
            new_size
        } else {
            obj_cap(s, pv)
        };
        let s1 = store_word(s, pv, new_cap);
        let s2 = store_word(s1, pv + 4, new_size);
        let s3 = resize_mem(s2, pv + 20 + new_cap as int);
        lemma_resize_same(s2, pv + 20 + new_cap as int);
        assert(m2.mem == s2);
        assert forall|i: int| pv + 20 <= i < s.len() implies s[i] == s2[i] by {
            lemma_store_outside(s, pv, new_cap, i);
            lemma_store_outside(s1, pv + 4, new_size, i);
        }
        lemma_store_agree_below(s, pv, new_cap, pv);
        lemma_store_agree_below(s1, pv + 4, new_size, pv);
        lemma_agree_trans(s, s1, s2, 0, pv);
        // the parent's scan visits the same items before and after
        lemma_items_exact_agree(s, s2, pv + 20, h - 4);
        lemma_word_agree(s, s2, h - 4);
        lemma_word_agree(s, s2, h);
        lemma_scan_agree_exact(s, s2, pv + 20, h - 4, id);
        lemma_scan_split(s, pv + 20, h - 4, size_end(s, pv), id);
        crate::mem::lemma_load_store(s1, pv + 4, new_size);
        crate::mem::lemma_load_store(s, pv, new_cap);
        crate::mem::lemma_store_frame(s1, pv + 4, new_size, pv);
        assert(obj_size(s2, pv) == new_size && obj_cap(s2, pv) == new_cap);
        assert(h - 4 + item_span(s2, h - 4) >= size_end(s2, pv)) by {
            assert(header_ty(word_at(s2, h - 4)) == 3);
            assert(obj_cap(s2, h) == obj_cap(s, h));
        }
        lemma_scan_split(s2, pv + 20, h - 4, size_end(s2, pv), id);
        assert(scan_items(s2, pv + 20, size_end(s2, pv), id) == scan_items(
            s,
            pv + 20,
            size_end(s, pv),
            id,
        ));
        // the rest of the chain is untouched and reads only below the parent
        crate::mem::lemma_store_frame(s, pv, new_cap, pv + 12);
        crate::mem::lemma_store_frame(s1, pv + 4, new_size, pv + 12);
        assert(obj_prev(s2, pv) == obj_prev(s, pv));
        let gq = obj_prev(s, pv) as int;
        if gq != 0 {
            assert(chain_wf_from(s, gq, pv, false));
            lemma_word_agree(s, s2, gq + 4);
            lemma_word_agree(s, s2, gq + 12);
            if nested_in(s, gq, pv) {
                // the grandparent's last item is the parent's object item;
                // its span reads the parent's cap, which only grew, so the
                // scan still checks the same items and then runs out
                assert(gq + 24 <= pv);
                lemma_items_exact_agree(s, s2, gq + 20, pv - 4);
                lemma_word_agree(s, s2, pv - 4);
                lemma_scan_agree_exact(s, s2, gq + 20, pv - 4, id);
                lemma_scan_split(s, gq + 20, pv - 4, size_end(s, gq), id);
                lemma_scan_split(s2, gq + 20, pv - 4, size_end(s2, gq), id);
                assert(scan_items(s2, gq + 20, size_end(s2, gq), id) == scan_items(
                    s,
                    gq + 20,
                    size_end(s, gq),
                    id,
                ));
                let ggq = obj_prev(s, gq) as int;
                if ggq != 0 {
                    assert(chain_wf_from(s, ggq, gq, false));
                    if nested_in(s, ggq, gq) {
                        assert(ggq + 24 <= gq);
                    } else {
                        assert(gq == cap_end(s, ggq));
                        assert(size_end(s, ggq) <= cap_end(s, ggq));
                    }
                    lemma_chain_scan_agree(s, s2, ggq, gq, false, pv, id);
                }
                assert(chain_scan(s2, gq, id) == chain_scan(s, gq, id));
            } else {
                assert(pv == cap_end(s, gq));
                assert(size_end(s, gq) <= cap_end(s, gq));
                lemma_chain_scan_agree(s, s2, gq, pv, false, pv, id);
            }
        }
        assert(chain_scan(s2, pv, id) == chain_scan(s, pv, id));
    } else {
        // independent pop: the arena is cut back to the parent's reserved
        // end, and the whole remaining chain lies below the cut
        crate::model::lemma_pop_indep(m);
        let s1 = resize_mem(s, cap_end(s, pv));
        assert(m2.mem == s1);
        lemma_resize_agree(s, cap_end(s, pv));
        lemma_chain_scan_agree(s, s1, pv, h, true, cap_end(s, pv), id);
    }
}

} // verus!
