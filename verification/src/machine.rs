//! The executable machine, verified against the model in [`crate::model`]:
//! construction from a code image, name lookup, the growth protocol, and the
//! one-instruction `step`.

use vstd::prelude::*;
use crate::mem::{Mem, word_at, store_word, lemma_word_bytes, lemma_word_zero};
use crate::obj::{ObjPtr, XData, OBJ_HEADER_SIZE, obj_cap, obj_size, obj_base, obj_prev, obj_ret};
use crate::item::{ItemPtr, ItemId, Type, item_header_from_u32, header_ty, header_id};
use crate::insn::Insn;
use crate::insn::Inherent;
use crate::item::item_header_to_u32;
use crate::model::{
    MState, InsnException, StepResult, items_exact, scan_items, size_end, cap_end, frame_wf,
    frame_items_wf, chain_wf_from, fp_in_bounds, mstate_wf, chain_scan, resize_mem, cur_insn,
    ensure_space_spec, def_spec, push_spec, pop_spec, val_spec, step_spec, step_fits, scan_pos,
    lemma_scan_step, lemma_resize_same, lemma_ensure_space_props, lemma_def_wf, lemma_push0_wf,
    lemma_pushn_wf, lemma_pop_wf, lemma_pop_nested, lemma_pop_indep,
};

verus! {

/// The virtual machine: the accumulator, program counter, current frame,
/// root object, and the arena holding code, frames and items.
pub struct Machine {
    pub x: XData,
    pub pc: u32,
    pub fp: ObjPtr,
    pub gp: ObjPtr,
    pub mem: Mem,
}

impl View for Machine {
    type V = MState;

    open spec fn view(&self) -> MState {
        MState { x: self.x, pc: self.pc, fp: self.fp.0, gp: self.gp.0, mem: self.mem@ }
    }
}

impl Machine {
    /// Build a machine from a code image: the encoded words occupy the low
    /// addresses verbatim, followed by the empty root object's header; both
    /// `fp` and `gp` point at the root, `pc` starts at 0 and the accumulator
    /// holds `I32(0)`.
    #[verifier::loop_isolation(false)]
    pub fn new(code: &[u32]) -> (m: Machine)
        requires
            4 * code@.len() + 20 <= u32::MAX,
        ensures
            m@.x == XData::I32(0),
            m@.pc == 0,
            m@.fp == 4 * code@.len(),
            m@.gp == m@.fp,
            m@.mem.len() == 4 * code@.len() + 20,
            forall|k: int| 0 <= k < code@.len() ==> word_at(m@.mem, 4 * k) == code@[k],
            forall|j: int| 4 * code@.len() <= j < 4 * code@.len() + 20 ==> m@.mem[j] == 0,
            obj_cap(m@.mem, m@.fp as int) == 0,
            obj_size(m@.mem, m@.fp as int) == 0,
            obj_base(m@.mem, m@.fp as int) == 0,
            obj_prev(m@.mem, m@.fp as int) == 0,
            obj_ret(m@.mem, m@.fp as int) == 0,
            code@.len() > 0 ==> mstate_wf(m@),
    {
        let mut v: Vec<u8> = Vec::new();
        let n = code.len();
        let mut i: usize = 0;
        while i < n
            invariant
                i <= n,
                v@.len() == 4 * i,
                forall|k: int| 0 <= k < i ==> word_at(v@, 4 * k) == code@[k],
            decreases n - i,
        {
            let w = code[i];
            proof {
                assert((w & 0xFF) < 256 && ((w >> 8) & 0xFF) < 256 && ((w >> 16) & 0xFF) < 256
                    && ((w >> 24) & 0xFF) < 256) by (bit_vector);
            }
            let ghost v0 = v@;
            v.push((w & 0xFF) as u8);
            v.push(((w >> 8) & 0xFF) as u8);
            v.push(((w >> 16) & 0xFF) as u8);
            v.push(((w >> 24) & 0xFF) as u8);
            proof {
                lemma_word_bytes(w);
                assert(word_at(v@, 4 * i as int) == w);
                assert forall|k: int| 0 <= k < i + 1 implies word_at(v@, 4 * k) == code@[k] by {
                    if k < i {
                        assert(v@[4 * k] == v0[4 * k]);
                        assert(v@[4 * k + 1] == v0[4 * k + 1]);
                        assert(v@[4 * k + 2] == v0[4 * k + 2]);
                        assert(v@[4 * k + 3] == v0[4 * k + 3]);
                    }
                }
            }
            i += 1;
        }
        let fp = ObjPtr((v.len() as u32));
        let ghost code_image = v@;
        let mut j: usize = 0;
        while j < 20
            invariant
                j <= 20,
                v@.len() == 4 * n + j,
                v@ == code_image + Seq::new(j as nat, |t: int| 0u8),
            decreases 20 - j,
        {
            v.push(0);
            proof {
                assert(v@ =~= code_image + Seq::new((j + 1) as nat, |t: int| 0u8));
            }
            j += 1;
        }
        let m = Machine { x: XData::I32(0), pc: 0, fp, gp: fp, mem: Mem(v) };
        proof {
            let s = m@.mem;
            let q = fp.0 as int;
            assert forall|k: int| 0 <= k < n implies word_at(s, 4 * k) == code@[k] by {
                assert(s[4 * k] == code_image[4 * k]);
                assert(s[4 * k + 1] == code_image[4 * k + 1]);
                assert(s[4 * k + 2] == code_image[4 * k + 2]);
                assert(s[4 * k + 3] == code_image[4 * k + 3]);
            }
            lemma_word_zero();
            assert(obj_cap(s, q) == 0) by {
                assert(s[q] == 0 && s[q + 1] == 0 && s[q + 2] == 0 && s[q + 3] == 0);
            }
            assert(obj_size(s, q) == 0) by {
                assert(s[q + 4] == 0 && s[q + 5] == 0 && s[q + 6] == 0 && s[q + 7] == 0);
            }
            assert(obj_base(s, q) == 0) by {
                assert(s[q + 8] == 0 && s[q + 9] == 0 && s[q + 10] == 0 && s[q + 11] == 0);
            }
            assert(obj_prev(s, q) == 0) by {
                assert(s[q + 12] == 0 && s[q + 13] == 0 && s[q + 14] == 0 && s[q + 15] == 0);
            }
            assert(obj_ret(s, q) == 0) by {
                assert(s[q + 16] == 0 && s[q + 17] == 0 && s[q + 18] == 0 && s[q + 19] == 0);
            }
            if n > 0 {
                assert(items_exact(s, q + 20, q + 20));
                assert(frame_items_wf(s, q, 0));
                assert(chain_wf_from(s, 0, q, true));
                assert(chain_wf_from(s, q, 0, false));
            }
        }
        m
    }

    fn load_u32(&self, addr: u32) -> (r: u32)
        requires
            addr + 4 <= self@.mem.len(),
        ensures
            r == word_at(self@.mem, addr as int),
    {
        self.mem.load_u32(addr)
    }

    fn store_u32(&mut self, addr: u32, val: u32)
        requires
            addr + 4 <= old(self)@.mem.len(),
        ensures
            final(self)@ == (MState {
                mem: store_word(old(self)@.mem, addr as int, val),
                ..old(self)@
            }),
    {
        self.mem.store_u32(addr, val)
    }

    /// Current top of the arena: its length in bytes.
    fn tos(&self) -> (r: u32)
        requires
            self@.mem.len() <= u32::MAX,
        ensures
            r == self@.mem.len(),
    {
        self.mem.len() as u32
    }

    fn cap(&self) -> (r: u32)
        requires
            fp_in_bounds(self@),
        ensures
            r == obj_cap(self@.mem, self@.fp as int),
    {
        self.fp.cap(&self.mem)
    }

    fn size(&self) -> (r: u32)
        requires
            fp_in_bounds(self@),
        ensures
            r == obj_size(self@.mem, self@.fp as int),
    {
        self.fp.size(&self.mem)
    }

    fn prev(&self) -> (r: Option<ObjPtr>)
        requires
            fp_in_bounds(self@),
        ensures
            r == if obj_prev(self@.mem, self@.fp as int) == 0 {
                None::<ObjPtr>
            } else {
                Some(ObjPtr(obj_prev(self@.mem, self@.fp as int)))
            },
    {
        self.fp.prev(&self.mem)
    }

    fn ret(&self) -> (r: Option<u32>)
        requires
            fp_in_bounds(self@),
        ensures
            r == if obj_ret(self@.mem, self@.fp as int) == 0 {
                None::<u32>
            } else {
                Some(obj_ret(self@.mem, self@.fp as int))
            },
    {
        self.fp.ret(&self.mem)
    }

    /// Resize the arena: truncate, or grow with zero bytes.
    #[verifier::loop_isolation(false)]
    fn set_tos(&mut self, val: u32)
        ensures
            final(self)@ == (MState {
                mem: resize_mem(old(self)@.mem, val as int),
                ..old(self)@
            }),
    {
        let target = val as usize;
        if target <= self.mem.0.len() {
            self.mem.0.truncate(target);
        } else {
            proof {
                lemma_resize_same(old(self)@.mem, self.mem@.len() as int);
            }
            while self.mem.0.len() < target
                invariant
                    old(self)@.mem.len() <= self.mem@.len(),
                    self.mem@.len() <= target,
                    self.mem@ == resize_mem(old(self)@.mem, self.mem@.len() as int),
                    self.x == old(self).x,
                    self.pc == old(self).pc,
                    self.fp == old(self).fp,
                    self.gp == old(self).gp,
                decreases target - self.mem@.len(),
            {
                self.mem.0.push(0);
                proof {
                    let s0 = old(self)@.mem;
                    let k = self.mem@.len() - 1;
                    assert(forall|t: int|
                        0 <= t < k ==> resize_mem(s0, k as int)[t] == resize_mem(
                            s0,
                            k as int + 1,
                        )[t]);
                    assert(resize_mem(s0, k as int + 1)[k as int] == 0);
                    assert(self.mem@ =~= resize_mem(s0, k as int + 1));
                }
            }
        }
    }

    fn set_cap(&mut self, val: u32)
        requires
            fp_in_bounds(old(self)@),
            old(self)@.fp + 20 + val <= old(self)@.mem.len(),
        ensures
            final(self)@ == (MState {
                mem: store_word(old(self)@.mem, old(self)@.fp as int, val),
                ..old(self)@
            }),
    {
        self.fp.set_cap(&mut self.mem, val);
        assert(cap_end(self@.mem, self@.fp as int) <= self@.mem.len()) by {
            crate::mem::lemma_load_store(old(self)@.mem, old(self)@.fp as int, val);
        }
    }

    fn set_size(&mut self, val: u32)
        requires
            fp_in_bounds(old(self)@),
        ensures
            final(self)@ == (MState {
                mem: store_word(old(self)@.mem, old(self)@.fp as int + 4, val),
                ..old(self)@
            }),
    {
        self.fp.set_size(&mut self.mem, val)
    }

    /// The current frame is the arena's top object: its reserved body ends
    /// exactly at the arena's end. Only such a frame may grow in place.
    fn is_top_frame(&self) -> (r: bool)
        requires
            fp_in_bounds(self@),
            cap_end(self@.mem, self@.fp as int) <= self@.mem.len(),
        ensures
            r == (cap_end(self@.mem, self@.fp as int) == self@.mem.len()),
    {
        let frame_end = self.fp.body_offset(self.cap());
        let top = self.tos();
        assert(frame_end <= top);
        frame_end == top
    }

    /// Grow the current frame's body to hold `new_size` bytes: a no-op when
    /// it already fits; otherwise only the arena's top object may grow, and
    /// any other frame faults with `FrameFull`.
    fn ensure_space(&mut self, new_size: u32) -> (r: Result<(), InsnException>)
        requires
            fp_in_bounds(old(self)@),
            frame_wf(old(self)@.mem, old(self)@.fp as int),
            old(self)@.fp + 20 + new_size <= u32::MAX,
        ensures
            ({
                let gr = ensure_space_spec(old(self)@.mem, old(self)@.fp as int, new_size);
                &&& final(self)@ == (MState { mem: gr.0, ..old(self)@ })
                &&& r == (if gr.1 {
                    Ok::<(), InsnException>(())
                } else {
                    Err::<(), InsnException>(InsnException::FrameFull)
                })
            }),
    {
        if new_size > self.cap() {
            if self.is_top_frame() {
                let target = self.fp.body_offset(new_size);
                self.set_tos(target);
                self.set_cap(new_size);
                Ok(())
            } else {
                Err(InsnException::FrameFull)
            }
        } else {
            Ok(())
        }
    }

    /// Scan the item list of the frame at `q` for `id`. The ghost `c` names
    /// the live frame the chain walk arrived from, whose possibly grown
    /// object item may close the list.
    #[verifier::loop_isolation(false)]
    fn scan_frame(&self, q: ObjPtr, id: ItemId, Ghost(c): Ghost<int>) -> (r: Option<ItemPtr>)
        requires
            self@.mem.len() <= u32::MAX,
            frame_wf(self@.mem, q.0 as int),
            frame_items_wf(self@.mem, q.0 as int, c),
        ensures
            ({
                let sr = scan_items(self@.mem, q.0 + 20, size_end(self@.mem, q.0 as int), id.0);
                match r {
                    Some(ip) => {
                        &&& sr == Some(ip.0 as int)
                        &&& ip.0 + 8 <= self@.mem.len()
                        &&& header_ty(word_at(self@.mem, ip.0 as int)) < 4
                        &&& header_id(word_at(self@.mem, ip.0 as int)) == id.0
                    },
                    None => sr is None,
                }
            }),
    {
        let ghost s = self@.mem;
        let ghost qq = q.0 as int;
        let size = q.size(&self.mem);
        let end = q.body_offset(size);
        let mut p = q.body_offset(0);
        proof {
            assert(scan_pos(s, qq, c, p as int));
        }
        while p < end
            invariant
                q.0 + 20 <= p,
                scan_pos(s, qq, c, p as int),
                scan_items(s, qq + 20, size_end(s, qq), id.0) == scan_items(
                    s,
                    p as int,
                    size_end(s, qq),
                    id.0,
                ),
            decreases (if p <= end {
                end - p
            } else {
                0int
            }),
        {
            proof {
                lemma_scan_step(s, qq, c, p as int);
            }
            let h = self.load_u32(p);
            let (ty, id2) = item_header_from_u32(h);
            if id2 == id {
                return Some(ItemPtr(p));
            }
            p = p + 4 + match ty {
                Type::BuiltinCode => 4,
                Type::Code => 4,
                Type::I32 => 4,
                Type::Object => {
                    let cap = self.load_u32(p + 4);
                    OBJ_HEADER_SIZE + cap
                },
            };
        }
        None
    }

    /// Linear scan of the exactly-parsing item list of the object at `fp`
    /// for the first item named `id`.
    pub fn find_in_frame(&self, fp: ObjPtr, id: ItemId) -> (r: Option<ItemPtr>)
        requires
            self@.mem.len() <= u32::MAX,
            frame_wf(self@.mem, fp.0 as int),
            items_exact(self@.mem, fp.0 + 20, size_end(self@.mem, fp.0 as int)),
        ensures
            ({
                let sr = scan_items(self@.mem, fp.0 + 20, size_end(self@.mem, fp.0 as int), id.0);
                match r {
                    Some(ip) => {
                        &&& sr == Some(ip.0 as int)
                        &&& ip.0 + 8 <= self@.mem.len()
                        &&& header_ty(word_at(self@.mem, ip.0 as int)) < 4
                        &&& header_id(word_at(self@.mem, ip.0 as int)) == id.0
                    },
                    None => sr is None,
                }
            }),
    {
        proof {
            assert(frame_items_wf(self@.mem, fp.0 as int, 0));
        }
        self.scan_frame(fp, id, Ghost(0))
    }

    /// Scope-chain lookup: scan the current frame's items, then follow
    /// `prev` links outward until the root, reporting the first match.
    /// The chain is acyclic by construction — well-formedness makes every
    /// `prev` link strictly decreasing — so the walk provably terminates.
    #[verifier::loop_isolation(false)]
    pub fn find(&self, id: ItemId) -> (r: Option<ItemPtr>)
        requires
            mstate_wf(self@),
        ensures
            ({
                let sr = chain_scan(self@.mem, self@.fp as int, id.0);
                match r {
                    Some(ip) => {
                        &&& sr == Some(ip.0 as int)
                        &&& ip.0 + 8 <= self@.mem.len()
                        &&& header_ty(word_at(self@.mem, ip.0 as int)) < 4
                        &&& header_id(word_at(self@.mem, ip.0 as int)) == id.0
                    },
                    None => sr is None,
                }
            }),
    {
        let ghost s = self@.mem;
        let mut q = self.fp;
        let ghost mut c: int = 0;
        let ghost mut flag: bool = false;
        while q.0 != 0
            invariant
                chain_wf_from(s, q.0 as int, c, flag),
                chain_scan(s, self@.fp as int, id.0) == (if q.0 != 0 {
                    chain_scan(s, q.0 as int, id.0)
                } else {
                    None::<int>
                }),
            decreases q.0,
        {
            let r = self.scan_frame(q, id, Ghost(c));
            if let Some(item) = r {
                return Some(item);
            }
            let pv = self.load_u32(q.0 + 12);
            proof {
                flag = c == 0;
                c = q.0 as int;
            }
            q = ObjPtr(pv);
        }
        None
    }

    /// `Def(id)`: id 0 halts returning the accumulator; otherwise append the
    /// accumulator's `I32` as a fresh item of the current frame.
    #[verifier::rlimit(100)]
    fn op_def(&mut self, id_imm: u32) -> (r: StepResult)
        requires
            mstate_wf(old(self)@),
            old(self)@.pc + 4 <= old(self)@.mem.len(),
            id_imm & 0xE000_0000 == 0,
            (id_imm != 0 && scan_items(
                old(self)@.mem,
                old(self)@.fp + 20,
                size_end(old(self)@.mem, old(self)@.fp as int),
                id_imm,
            ) is None && old(self)@.x is I32) ==> old(self)@.fp + 28 + obj_size(
                old(self)@.mem,
                old(self)@.fp as int,
            ) <= u32::MAX,
        ensures
            final(self)@ == def_spec(old(self)@, id_imm).0,
            r == def_spec(old(self)@, id_imm).1,
            mstate_wf(final(self)@),
    {
        let ghost m0 = self@;
        let id = ItemId(id_imm);
        if id == ItemId(0) {
            return Ok(Some(self.x));
        }
        proof {
            assert(frame_wf(m0.mem, m0.fp as int));
            assert(frame_items_wf(m0.mem, m0.fp as int, 0));
        }
        if let Some(item) = self.find_in_frame(self.fp, id) {
            return Err(InsnException::ItemExistsInFrame(item));
        }
        if let XData::I32(n) = self.x {
            proof {
                lemma_def_wf(m0, id_imm);
                lemma_ensure_space_props(m0.mem, m0.fp as int, (obj_size(m0.mem, m0.fp as int)
                    + 8) as u32);
            }
            let size_delta = 4 + 4;
            let new_size = self.size() + size_delta;
            if let Err(e) = self.ensure_space(new_size) {
                return Err(e);
            }
            let off = self.fp.body_offset(self.size());
            self.store_u32(off, item_header_to_u32(Type::I32, id));
            let off2 = self.fp.body_offset(self.size() + 4);
            self.store_u32(off2, n);
            self.set_size(new_size);
            self.pc = self.pc + 4;
            proof {
                assert(self@.mem == def_spec(m0, id_imm).0.mem);
            }
            Ok(None)
        } else {
            Err(InsnException::Unsupported)
        }
    }

    /// `Push(id)`: with an `I32` capacity and the current frame at the
    /// arena's top, allocate a fresh frame (id 0) or a named nested object
    /// (id nonzero) and make it the current frame.
    #[verifier::rlimit(100)]
    fn op_push(&mut self, id_imm: u32) -> (r: StepResult)
        requires
            mstate_wf(old(self)@),
            old(self)@.pc + 4 <= old(self)@.mem.len(),
            id_imm & 0xE000_0000 == 0,
            old(self)@.x matches XData::I32(xv) ==> ((cap_end(old(self)@.mem, old(self)@.fp as int)
                == old(self)@.mem.len() && xv & 3 == 0) ==> (if id_imm == 0 {
                old(self)@.mem.len() + 20 + xv <= u32::MAX
            } else {
                old(self)@.fp + 44 + obj_size(old(self)@.mem, old(self)@.fp as int) + xv
                    <= u32::MAX
            })),
        ensures
            final(self)@ == push_spec(old(self)@, id_imm).0,
            r == push_spec(old(self)@, id_imm).1,
            mstate_wf(final(self)@),
    {
        let ghost m0 = self@;
        let id = ItemId(id_imm);
        match self.x {
            XData::I32(xv) => {
                let frame_end = self.fp.body_offset(self.cap());
                let top = self.tos();
                if frame_end != top {
                    return Err(InsnException::NotTopFrame);
                }
                if xv & 0x3 != 0 {
                    return Err(InsnException::UnalignedCap);
                }
                if id == ItemId(0) {
                    // push a new independent frame above the arena's top
                    proof {
                        lemma_push0_wf(m0);
                    }
                    let new_fp = ObjPtr(frame_end);
                    let target = new_fp.body_offset(xv);
                    self.set_tos(target);
                    new_fp.set_cap(&mut self.mem, xv);
                    new_fp.set_size(&mut self.mem, 0);
                    new_fp.set_base(&mut self.mem, self.fp);
                    new_fp.set_prev(&mut self.mem, self.fp);
                    new_fp.set_ret(&mut self.mem, 0);
                    self.fp = new_fp;
                    self.pc = self.pc + 4;
                    proof {
                        assert(self@.mem == push_spec(m0, id_imm).0.mem);
                    }
                    Ok(None)
                } else {
                    // push a new named object nested in the current frame
                    proof {
                        lemma_pushn_wf(m0, id_imm);
                        lemma_ensure_space_props(m0.mem, m0.fp as int, (obj_size(
                            m0.mem,
                            m0.fp as int,
                        ) + 24 + xv) as u32);
                    }
                    let size_delta = 4 + OBJ_HEADER_SIZE + xv;
                    let old_size = self.size();
                    let new_size = old_size + size_delta;
                    if let Err(e) = self.ensure_space(new_size) {
                        return Err(e);
                    }
                    let new_obj_header = self.fp.body_offset(old_size);
                    let new_obj = ObjPtr(new_obj_header + 4);
                    self.store_u32(new_obj_header, item_header_to_u32(Type::Object, id));
                    new_obj.set_cap(&mut self.mem, xv);
                    new_obj.set_size(&mut self.mem, 0);
                    new_obj.set_base(&mut self.mem, self.fp);
                    new_obj.set_prev(&mut self.mem, self.fp);
                    new_obj.set_ret(&mut self.mem, 0);
                    self.set_size(new_size);
                    self.fp = new_obj;
                    self.pc = self.pc + 4;
                    proof {
                        assert(self@.mem == push_spec(m0, id_imm).0.mem);
                    }
                    Ok(None)
                }
            },
            XData::Object(_p) => {
                if id == ItemId(0) {
                    // pushing a reference to an existing object is left as
                    // design freedom; reject it as unsupported
                    Err(InsnException::Unsupported)
                } else {
                    Err(InsnException::WrongType)
                }
            },
            _ => Err(InsnException::WrongType),
        }
    }

    /// `Inherent::Pop`: resume at the popped frame's `ret` if set, return to
    /// the previous frame, widen a nested child's growth back into it, and
    /// reclaim everything above its reserved end.
    #[verifier::rlimit(100)]
    fn op_pop(&mut self) -> (r: StepResult)
        requires
            mstate_wf(old(self)@),
            old(self)@.pc + 4 <= old(self)@.mem.len(),
        ensures
            final(self)@ == pop_spec(old(self)@).0,
            r == pop_spec(old(self)@).1,
            mstate_wf(final(self)@),
    {
        let ghost m0 = self@;
        proof {
            lemma_pop_wf(m0);
        }
        match self.ret() {
            Some(ret) => self.pc = ret,
            None => self.pc = self.pc + 4,
        }
        let old_fp = self.fp;
        if let Some(new_fp) = self.prev() {
            proof {
                let s = m0.mem;
                let h = m0.fp as int;
                if size_end(s, obj_prev(s, h) as int) >= h + 20 {
                    lemma_pop_nested(m0);
                } else {
                    lemma_pop_indep(m0);
                }
            }
            self.fp = new_fp;
            let end = self.fp.body_offset(self.size());
            if end >= old_fp.body_offset(0) {
                // the popped frame was nested inside the new current frame:
                // widen the parent to re-include the child's reserved body
                let inner_end = old_fp.body_offset(old_fp.cap(&self.mem));
                let new_size = inner_end - self.fp.body_offset(0);
                let cap_now = self.cap();
                let new_cap = if new_size > cap_now {
                    new_size
                } else {
                    cap_now
                };
                self.set_cap(new_cap);
                self.set_size(new_size);
                proof {
                    crate::mem::lemma_load_store(
                        store_word(m0.mem, new_fp.0 as int, new_cap),
                        new_fp.0 as int + 4,
                        new_size,
                    );
                    crate::mem::lemma_load_store(m0.mem, new_fp.0 as int, new_cap);
                    crate::mem::lemma_store_frame(
                        store_word(m0.mem, new_fp.0 as int, new_cap),
                        new_fp.0 as int + 4,
                        new_size,
                        new_fp.0 as int,
                    );
                }
            }
            let target = self.fp.body_offset(self.cap());
            self.set_tos(target);
            proof {
                assert(self@.mem == pop_spec(m0).0.mem);
            }
            Ok(None)
        } else {
            Err(InsnException::StackUnderflow)
        }
    }

    /// `Val(id)`: id 0 loads the root object into the accumulator; any
    /// other id is resolved along the frame chain.
    fn op_val(&mut self, id_imm: u32) -> (r: StepResult)
        requires
            mstate_wf(old(self)@),
            old(self)@.pc + 4 <= old(self)@.mem.len(),
        ensures
            final(self)@ == val_spec(old(self)@, id_imm).0,
            r == val_spec(old(self)@, id_imm).1,
            mstate_wf(final(self)@),
    {
        let id = ItemId(id_imm);
        if id == ItemId(0) {
            self.x = XData::Object(ObjPtr(self.gp.0));
        } else {
            match self.find(id) {
                Some(ItemPtr(item)) => {
                    let h = self.load_u32(item);
                    let (ty, _) = item_header_from_u32(h);
                    self.x = match ty {
                        Type::BuiltinCode => XData::BuiltinCode(self.load_u32(item + 4)),
                        Type::Code => XData::Code(self.load_u32(item + 4)),
                        Type::I32 => XData::I32(self.load_u32(item + 4)),
                        Type::Object => XData::Object(ObjPtr(item + 4)),
                    };
                },
                None => {
                    return Err(InsnException::ItemNotFound);
                },
            }
        }
        self.pc = self.pc + 4;
        Ok(None)
    }

    /// Whether the next `step` can execute: the program counter's word lies
    /// inside the arena, the step's address arithmetic stays inside the
    /// 32-bit arena address space, and a pop would not resume at its own
    /// address. Drivers check this before calling [`Machine::step`].
    pub fn step_ready(&self) -> (r: bool)
        requires
            mstate_wf(self@),
        ensures
            r == (self@.pc + 4 <= self@.mem.len() && step_fits(self@)),
    {
        let len = self.mem.len() as u64;
        if (self.pc as u64) + 4 > len {
            return false;
        }
        let w = self.load_u32(self.pc);
        let insn = Insn::from_u32(w);
        match insn {
            Insn::Def(id) => {
                if id == 0 {
                    true
                } else {
                    proof {
                        assert(frame_wf(self@.mem, self@.fp as int));
                        assert(frame_items_wf(self@.mem, self@.fp as int, 0));
                    }
                    match self.find_in_frame(self.fp, ItemId(id)) {
                        Some(_) => true,
                        None => {
                            if let XData::I32(_n) = self.x {
                                (self.fp.0 as u64) + 28 + (self.size() as u64) <= u32::MAX as u64
                            } else {
                                true
                            }
                        },
                    }
                }
            },
            Insn::Push(id) => {
                if let XData::I32(xv) = self.x {
                    let frame_end = self.fp.body_offset(self.cap());
                    let top = self.tos();
                    if frame_end != top || xv & 3 != 0 {
                        true
                    } else if id == 0 {
                        (top as u64) + 20 + (xv as u64) <= u32::MAX as u64
                    } else {
                        (self.fp.0 as u64) + 44 + (self.size() as u64) + (xv as u64) <= u32::MAX
                            as u64
                    }
                } else {
                    true
                }
            },
            Insn::Inh(intr) => match intr {
                Inherent::Pop => {
                    let ret = self.load_u32(self.fp.0 + 16);
                    !(ret == self.pc && ret != 0)
                },
                _ => true,
            },
            _ => true,
        }
    }

    /// One instruction: decode the word at `pc`, dispatch, and either
    /// advance, halt with the accumulator, or fault. Exactly implements
    /// [`step_spec`] and preserves machine well-formedness.
    #[verifier::rlimit(100)]
    pub fn step(&mut self) -> (r: StepResult)
        requires
            mstate_wf(old(self)@),
            old(self)@.pc + 4 <= old(self)@.mem.len(),
            step_fits(old(self)@),
        ensures
            final(self)@ == step_spec(old(self)@).0,
            r == step_spec(old(self)@).1,
            mstate_wf(final(self)@),
    {
        let ghost m0 = self@;
        let insn_u32 = self.load_u32(self.pc);
        let insn = Insn::from_u32(insn_u32);
        proof {
            assert(insn == cur_insn(m0));
            assert(insn_u32 & 0x1FFF_FFFF & 0xE000_0000 == 0u32) by (bit_vector);
        }
        match insn {
            Insn::Def(id) => self.op_def(id),
            Insn::Push(id) => self.op_push(id),
            Insn::Inh(intr) => match intr {
                Inherent::Pop => self.op_pop(),
                _ => Err(InsnException::Unsupported),
            },
            Insn::Val(id) => self.op_val(id),
            Insn::Xlo(n) => {
                self.x = XData::I32(n);
                self.pc = self.pc + 4;
                Ok(None)
            },
            Insn::Xhi(n) => {
                if let XData::I32(n2) = self.x {
                    self.x = XData::I32((n2 & 0x1FFF_FFFF) | (n << 29));
                    self.pc = self.pc + 4;
                    Ok(None)
                } else {
                    Err(InsnException::WrongType)
                }
            },
            Insn::SetItem(_) => Err(InsnException::Unsupported),
            Insn::Jump(_) => Err(InsnException::Unsupported),
        }
    }
}

} // verus!
