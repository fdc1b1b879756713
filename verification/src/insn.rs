//! Instruction words: 32 bits, of which the top 3 are the opcode and the low
//! 29 the immediate. The `Inh` opcode nests a second decode of its immediate.

use vstd::prelude::*;

verus! {

/// Operations encoded in the immediate of an `Inh` instruction word.
#[derive(Clone, Copy, Debug, PartialEq, Eq, Structural)]
pub enum Inherent {
    Call,
    Pop,
    Alloc,
    Unknown(u32),
}

/// The immediate that encodes an inherent operation.
pub open spec fn inherent_code(i: Inherent) -> u32 {
    match i {
        Inherent::Call => 0,
        Inherent::Pop => 1,
        Inherent::Alloc => 2,
        Inherent::Unknown(n) => n,
    }
}

/// The inherent operation an immediate decodes to. Every code above 2
/// decodes to `Unknown` carrying that code, so that decoding inverts
/// encoding.
pub open spec fn inherent_of(n: u32) -> Inherent {
    if n == 0 {
        Inherent::Call
    } else if n == 1 {
        Inherent::Pop
    } else if n == 2 {
        Inherent::Alloc
    } else {
        Inherent::Unknown(n)
    }
}

impl Inherent {
    fn from_u32(n: u32) -> (r: Inherent)
        ensures
            r == inherent_of(n),
    {
        if n == 0 {
            Inherent::Call
        } else if n == 1 {
            Inherent::Pop
        } else if n == 2 {
            Inherent::Alloc
        } else {
            Inherent::Unknown(n)
        }
    }

    fn as_u32(&self) -> (r: u32)
        requires
            *self matches Inherent::Unknown(n) ==> n > 2,
        ensures
            r == inherent_code(*self),
    {
        match *self {
            Inherent::Call => 0,
            Inherent::Pop => 1,
            Inherent::Alloc => 2,
            Inherent::Unknown(n) => n,
        }
    }
}

/// One decoded instruction. The payload is the 29-bit immediate.
#[derive(Clone, Copy, Debug, PartialEq, Eq, Structural)]
pub enum Insn {
    Def(u32),
    SetItem(u32),
    Push(u32),
    Inh(Inherent),
    Jump(u32),
    Val(u32),
    Xlo(u32),
    Xhi(u32),
}

/// The opcode (top 3 bits) of each instruction.
pub open spec fn insn_opcode(i: Insn) -> u32 {
    match i {
        Insn::Def(_) => 0,
        Insn::SetItem(_) => 1,
        Insn::Push(_) => 2,
        Insn::Inh(_) => 3,
        Insn::Jump(_) => 4,
        Insn::Val(_) => 5,
        Insn::Xlo(_) => 6,
        Insn::Xhi(_) => 7,
    }
}

/// The immediate (low 29 bits) of each instruction.
pub open spec fn insn_imm(i: Insn) -> u32 {
    match i {
        Insn::Def(n) => n,
        Insn::SetItem(n) => n,
        Insn::Push(n) => n,
        Insn::Inh(h) => inherent_code(h),
        Insn::Jump(n) => n,
        Insn::Val(n) => n,
        Insn::Xlo(n) => n,
        Insn::Xhi(n) => n,
    }
}

/// An instruction is valid when its immediate fits the width allotted to it:
/// 29 bits generally, 3 bits for `Xhi`, and an unknown inherent code must be
/// one that decoding can produce, i.e. above 2.
pub open spec fn insn_valid(i: Insn) -> bool {
    &&& insn_imm(i) & 0xE000_0000 == 0
    &&& (i matches Insn::Xhi(n) ==> n & 7 == n)
    &&& (i matches Insn::Inh(Inherent::Unknown(n)) ==> n > 2)
}

/// The 32-bit word that encodes an instruction.
pub open spec fn insn_code(i: Insn) -> u32 {
    (insn_opcode(i) << 29) | insn_imm(i)
}

/// The instruction a 32-bit word decodes to.
pub open spec fn insn_of(w: u32) -> Insn {
    let op = w >> 29;
    let n = w & 0x1FFF_FFFF;
    if op == 0 {
        Insn::Def(n)
    } else if op == 1 {
        Insn::SetItem(n)
    } else if op == 2 {
        Insn::Push(n)
    } else if op == 3 {
        Insn::Inh(inherent_of(n))
    } else if op == 4 {
        Insn::Jump(n)
    } else if op == 5 {
        Insn::Val(n)
    } else if op == 6 {
        Insn::Xlo(n)
    } else {
        Insn::Xhi(n)
    }
}

impl Insn {
    /// Decode a 32-bit instruction word. Total: every word decodes.
    pub fn from_u32(i: u32) -> (r: Self)
        ensures
            r == insn_of(i),
    {
        let op = i >> 29;
        let n = i & 0x1FFF_FFFF;
        if op == 0 {
            Insn::Def(n)
        } else if op == 1 {
            Insn::SetItem(n)
        } else if op == 2 {
            Insn::Push(n)
        } else if op == 3 {
            Insn::Inh(Inherent::from_u32(n))
        } else if op == 4 {
            Insn::Jump(n)
        } else if op == 5 {
            Insn::Val(n)
        } else if op == 6 {
            Insn::Xlo(n)
        } else {
            Insn::Xhi(n)
        }
    }

    /// Encode an instruction into its 32-bit word. A caller must pass a valid
    /// instruction: an out-of-range immediate is a contract violation here,
    /// never silently truncated.
    pub fn as_u32(&self) -> (r: u32)
        requires
            insn_valid(*self),
        ensures
            r == insn_code(*self),
            insn_of(r) == *self,
    {
        let v = self.validate();
        assert(v matches Ok(_));
        proof {
            lemma_split_code(insn_opcode(*self), insn_imm(*self));
        }
        match *self {
            Insn::Def(n) => (0u32 << 29) | n,
            Insn::SetItem(n) => (1u32 << 29) | n,
            Insn::Push(n) => (2u32 << 29) | n,
            Insn::Inh(h) => (3u32 << 29) | h.as_u32(),
            Insn::Jump(n) => (4u32 << 29) | n,
            Insn::Val(n) => (5u32 << 29) | n,
            Insn::Xlo(n) => (6u32 << 29) | n,
            Insn::Xhi(n) => (7u32 << 29) | n,
        }
    }

    /// Check that every constituent value fits its allotted bit width.
    pub fn validate(&self) -> (r: Result<(), &'static str>)
        requires
            *self matches Insn::Inh(Inherent::Unknown(n)) ==> n > 2,
        ensures
            r matches Ok(_) <==> insn_valid(*self),
            (*self matches Insn::Xhi(n) && n & 7 != n) ==> r == Err::<(), &'static str>(
                "xhi immediate doesn't fit in bits 2..0",
            ),
            !insn_valid(*self) && !(*self matches Insn::Xhi(n) && n & 7 != n) ==> r == Err::<
                (),
                &'static str,
            >("immediate doesn't fit in bits 29..0"),
    {
        let imm: u32 = match *self {
            Insn::Def(n) => n,
            Insn::SetItem(n) => n,
            Insn::Push(n) => n,
            Insn::Inh(h) => h.as_u32(),
            Insn::Jump(n) => n,
            Insn::Val(n) => n,
            Insn::Xlo(n) => n,
            Insn::Xhi(n) => {
                if n & 0x7 != n {
                    return Err("xhi immediate doesn't fit in bits 2..0");
                }
                n
            },
        };
        if imm & 0xE000_0000 == 0 {
            Ok(())
        } else {
            Err("immediate doesn't fit in bits 29..0")
        }
    }
}

/// A word assembled from a 3-bit opcode and a 29-bit immediate splits back
/// into exactly those fields.
pub proof fn lemma_split_code(op: u32, n: u32)
    by (bit_vector)
    requires
        op < 8,
        n & 0xE000_0000 == 0,
    ensures
        ((op << 29) | n) >> 29 == op,
        ((op << 29) | n) & 0x1FFF_FFFF == n,
{
}

} // verus!
