//! Objects and frames: header-field accessors over raw arena offsets.
//!
//! An object is a 20-byte header followed by a `cap`-byte body. The header
//! fields, in byte order, are `cap`, `size`, `base`, `prev` and `ret`, one
//! 32-bit little-endian word each.

use vstd::prelude::*;
use crate::mem::{Mem, word_at, store_word};

verus! {

/// Size in bytes of the fixed object header.
pub const OBJ_HEADER_SIZE: u32 = 20;

/// An object's location: a byte offset into the arena.
#[derive(Clone, Copy, Debug, PartialEq, Eq, Structural)]
pub struct ObjPtr(pub u32);

/// Total body bytes reserved for the object at `p`.
pub open spec fn obj_cap(s: Seq<u8>, p: int) -> u32 {
    word_at(s, p)
}

/// Body bytes currently occupied by the items of the object at `p`.
pub open spec fn obj_size(s: Seq<u8>, p: int) -> u32 {
    word_at(s, p + 4)
}

/// The lexically enclosing object of the object at `p`; 0 means none.
pub open spec fn obj_base(s: Seq<u8>, p: int) -> u32 {
    word_at(s, p + 8)
}

/// The previous frame in the activation chain of the object at `p`; 0 means
/// none.
pub open spec fn obj_prev(s: Seq<u8>, p: int) -> u32 {
    word_at(s, p + 12)
}

/// The return program counter of the frame at `p`; 0 means none.
pub open spec fn obj_ret(s: Seq<u8>, p: int) -> u32 {
    word_at(s, p + 16)
}

/// The accumulator: the one typed value register all instructions act on.
#[derive(Clone, Copy, Debug, PartialEq, Eq, Structural)]
pub enum XData {
    BuiltinCode(u32),
    Code(u32),
    I32(u32),
    Object(ObjPtr),
}

impl ObjPtr {
    /// Arena offset of byte `n` of this object's body.
    pub(crate) fn body_offset(&self, n: u32) -> (r: u32)
        requires
            self.0 + OBJ_HEADER_SIZE + n <= u32::MAX,
        ensures
            r == self.0 + 20 + n,
    {
        self.0 + OBJ_HEADER_SIZE + n
    }

    /// Read the `cap` header field.
    pub fn cap(&self, mem: &Mem) -> (r: u32)
        requires
            self.0 + 20 <= mem@.len(),
            self.0 + 20 <= u32::MAX,
        ensures
            r == obj_cap(mem@, self.0 as int),
    {
        mem.load_u32(self.0 + 0)
    }

    /// Read the `size` header field.
    pub fn size(&self, mem: &Mem) -> (r: u32)
        requires
            self.0 + 20 <= mem@.len(),
            self.0 + 20 <= u32::MAX,
        ensures
            r == obj_size(mem@, self.0 as int),
    {
        mem.load_u32(self.0 + 4)
    }

    /// Read the `base` link; 0 decodes to "no link".
    pub fn base(&self, mem: &Mem) -> (r: Option<ObjPtr>)
        requires
            self.0 + 20 <= mem@.len(),
            self.0 + 20 <= u32::MAX,
        ensures
            r == if obj_base(mem@, self.0 as int) == 0 {
                None::<ObjPtr>
            } else {
                Some(ObjPtr(obj_base(mem@, self.0 as int)))
            },
    {
        let p = mem.load_u32(self.0 + 8);
        match p {
            0 => None,
            _ => Some(ObjPtr(p)),
        }
    }

    /// Read the `prev` link; 0 decodes to "no link".
    pub fn prev(&self, mem: &Mem) -> (r: Option<ObjPtr>)
        requires
            self.0 + 20 <= mem@.len(),
            self.0 + 20 <= u32::MAX,
        ensures
            r == if obj_prev(mem@, self.0 as int) == 0 {
                None::<ObjPtr>
            } else {
                Some(ObjPtr(obj_prev(mem@, self.0 as int)))
            },
    {
        let p = mem.load_u32(self.0 + 12);
        match p {
            0 => None,
            _ => Some(ObjPtr(p)),
        }
    }

    /// Read the `ret` field; 0 decodes to "no return address".
    pub fn ret(&self, mem: &Mem) -> (r: Option<u32>)
        requires
            self.0 + 20 <= mem@.len(),
            self.0 + 20 <= u32::MAX,
        ensures
            r == if obj_ret(mem@, self.0 as int) == 0 {
                None::<u32>
            } else {
                Some(obj_ret(mem@, self.0 as int))
            },
    {
        let r = mem.load_u32(self.0 + 16);
        match r {
            0 => None,
            _ => Some(r),
        }
    }

    /// Write the `cap` header field.
    pub fn set_cap(&self, mem: &mut Mem, val: u32)
        requires
            self.0 + 20 <= old(mem)@.len(),
            self.0 + 20 <= u32::MAX,
        ensures
            final(mem)@ == store_word(old(mem)@, self.0 as int, val),
            final(mem)@.len() == old(mem)@.len(),
    {
        mem.store_u32(self.0 + 0, val);
    }

    /// Write the `size` header field.
    pub fn set_size(&self, mem: &mut Mem, val: u32)
        requires
            self.0 + 20 <= old(mem)@.len(),
            self.0 + 20 <= u32::MAX,
        ensures
            final(mem)@ == store_word(old(mem)@, self.0 as int + 4, val),
            final(mem)@.len() == old(mem)@.len(),
    {
        mem.store_u32(self.0 + 4, val);
    }

    /// Write the `base` link.
    pub fn set_base(&self, mem: &mut Mem, val: ObjPtr)
        requires
            self.0 + 20 <= old(mem)@.len(),
            self.0 + 20 <= u32::MAX,
        ensures
            final(mem)@ == store_word(old(mem)@, self.0 as int + 8, val.0),
            final(mem)@.len() == old(mem)@.len(),
    {
        mem.store_u32(self.0 + 8, val.0);
    }

    /// Write the `prev` link.
    pub fn set_prev(&self, mem: &mut Mem, val: ObjPtr)
        requires
            self.0 + 20 <= old(mem)@.len(),
            self.0 + 20 <= u32::MAX,
        ensures
            final(mem)@ == store_word(old(mem)@, self.0 as int + 12, val.0),
            final(mem)@.len() == old(mem)@.len(),
    {
        mem.store_u32(self.0 + 12, val.0);
    }

    /// Write the `ret` field.
    pub fn set_ret(&self, mem: &mut Mem, val: u32)
        requires
            self.0 + 20 <= old(mem)@.len(),
            self.0 + 20 <= u32::MAX,
        ensures
            final(mem)@ == store_word(old(mem)@, self.0 as int + 16, val),
            final(mem)@.len() == old(mem)@.len(),
    {
        mem.store_u32(self.0 + 16, val);
    }
}

} // verus!
