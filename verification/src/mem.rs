//! The arena: one flat, growable byte buffer with little-endian 32-bit loads
//! and stores at arbitrary byte offsets.

use vstd::prelude::*;
use vstd::pervasive::VecAdditionalExecFns;

verus! {

/// The arena backing all machine state.
pub struct Mem(pub Vec<u8>);

impl View for Mem {
    type V = Seq<u8>;

    open spec fn view(&self) -> Seq<u8> {
        self.0@
    }
}

/// The 32-bit value of four bytes read in little-endian order.
pub open spec fn word_of(b0: u8, b1: u8, b2: u8, b3: u8) -> u32 {
    (b0 as u32) | ((b1 as u32) << 8) | ((b2 as u32) << 16) | ((b3 as u32) << 24)
}

/// The little-endian 32-bit word at byte offset `a`.
pub open spec fn word_at(s: Seq<u8>, a: int) -> u32 {
    word_of(s[a], s[a + 1], s[a + 2], s[a + 3])
}

/// The arena after storing `v` at byte offset `a` in little-endian order.
pub open spec fn store_word(s: Seq<u8>, a: int, v: u32) -> Seq<u8> {
    s.update(a, (v & 0xFF) as u8).update(a + 1, ((v >> 8) & 0xFF) as u8).update(
        a + 2,
        ((v >> 16) & 0xFF) as u8,
    ).update(a + 3, ((v >> 24) & 0xFF) as u8)
}

/// Two arenas agree on every byte of `[lo, hi)`.
pub open spec fn agree_range(s1: Seq<u8>, s2: Seq<u8>, lo: int, hi: int) -> bool {
    forall|i: int| lo <= i < hi ==> s1[i] == s2[i]
}

impl Mem {
    /// Number of bytes currently in the arena.
    pub fn len(&self) -> (n: usize)
        ensures
            n == self@.len(),
    {
        self.0.len()
    }

    /// Load the little-endian u32 at byte offset `addr`.
    pub fn load_u32(&self, addr: u32) -> (r: u32)
        requires
            addr + 4 <= self@.len(),
        ensures
            r == word_at(self@, addr as int),
    {
        let _len = self.0.len();
        let a = addr as usize;
        let b0 = self.0[a];
        let b1 = self.0[a + 1];
        let b2 = self.0[a + 2];
        let b3 = self.0[a + 3];
        (b0 as u32) | ((b1 as u32) << 8) | ((b2 as u32) << 16) | ((b3 as u32) << 24)
    }

    /// Store `val` at byte offset `addr` in little-endian order.
    pub fn store_u32(&mut self, addr: u32, val: u32)
        requires
            addr + 4 <= old(self)@.len(),
        ensures
            final(self)@ == store_word(old(self)@, addr as int, val),
            final(self)@.len() == old(self)@.len(),
    {
        proof {
            assert((val & 0xFF) < 256 && ((val >> 8) & 0xFF) < 256 && ((val >> 16) & 0xFF) < 256
                && ((val >> 24) & 0xFF) < 256) by (bit_vector);
        }
        let _len = self.0.len();
        let a = addr as usize;
        self.0.set(a, (val & 0xFF) as u8);
        self.0.set(a + 1, ((val >> 8) & 0xFF) as u8);
        self.0.set(a + 2, ((val >> 16) & 0xFF) as u8);
        self.0.set(a + 3, ((val >> 24) & 0xFF) as u8);
    }
}

/// The four little-endian bytes of `v` reassemble to `v`.
pub proof fn lemma_word_bytes(v: u32)
    by (bit_vector)
    ensures
        word_of(
            (v & 0xFF) as u8,
            ((v >> 8) & 0xFF) as u8,
            ((v >> 16) & 0xFF) as u8,
            ((v >> 24) & 0xFF) as u8,
        ) == v,
{
}

/// Four zero bytes read as the word 0.
pub proof fn lemma_word_zero()
    by (bit_vector)
    ensures
        word_of(0u8, 0u8, 0u8, 0u8) == 0u32,
{
}

/// Reading back the word just stored yields the stored value.
pub proof fn lemma_load_store(s: Seq<u8>, a: int, v: u32)
    requires
        0 <= a,
        a + 4 <= s.len(),
    ensures
        word_at(store_word(s, a, v), a) == v,
        store_word(s, a, v).len() == s.len(),
{
    lemma_word_bytes(v);
}

/// A store changes no byte outside `[a, a+4)`.
pub proof fn lemma_store_outside(s: Seq<u8>, a: int, v: u32, i: int)
    requires
        0 <= a,
        a + 4 <= s.len(),
        0 <= i < s.len(),
        i < a || a + 4 <= i,
    ensures
        store_word(s, a, v)[i] == s[i],
{
}

/// A store leaves the word at any disjoint offset unchanged.
pub proof fn lemma_store_frame(s: Seq<u8>, a: int, v: u32, b: int)
    requires
        0 <= a,
        a + 4 <= s.len(),
        0 <= b,
        b + 4 <= s.len(),
        b + 4 <= a || a + 4 <= b,
    ensures
        word_at(store_word(s, a, v), b) == word_at(s, b),
{
}

/// Arenas that agree on `[b, b+4)` hold the same word at `b`.
pub proof fn lemma_word_agree(s1: Seq<u8>, s2: Seq<u8>, b: int)
    requires
        agree_range(s1, s2, b, b + 4),
    ensures
        word_at(s1, b) == word_at(s2, b),
{
    assert(s1[b] == s2[b]);
    assert(s1[b + 1] == s2[b + 1]);
    assert(s1[b + 2] == s2[b + 2]);
    assert(s1[b + 3] == s2[b + 3]);
}

} // verus!
