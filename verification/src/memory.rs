//! The linear memory: a growable, zero-initialized byte buffer addressed
//! by byte offset and read and written in 32-byte big-endian words.

use vstd::prelude::*;
use vstd::pervasive::VecAdditionalExecFns;

use crate::bytes::{be_val, word_byte, lemma_be_val_zero, lemma_word_bytes_recompose};
use crate::word::{word_modulus, word_from_be_bytes, word_to_be_bytes, Word};

verus! {

/// The logical byte at index `i` of a buffer that is zero-filled beyond
/// its physical length.
pub open spec fn byte_or_zero(mem: Seq<u8>, i: int) -> u8 {
    if 0 <= i < mem.len() {
        mem[i]
    } else {
        0
    }
}

/// The value of the word stored big-endian at byte offset `off` of the
/// logically infinite, zero-filled buffer.
pub open spec fn word_at(mem: Seq<u8>, off: int) -> nat {
    be_val(Seq::new(32, |k: int| byte_or_zero(mem, off + k)))
}

/// The buffer grown with zero bytes to cover at least `n` bytes.
pub open spec fn grown(mem: Seq<u8>, n: int) -> Seq<u8> {
    if mem.len() >= n {
        mem
    } else {
        mem + Seq::new((n - mem.len()) as nat, |i: int| 0u8)
    }
}

/// The buffer after a word of value `v` is stored big-endian at offset
/// `off`: grown to cover the write, the 32 bytes replaced, the rest kept.
pub open spec fn stored(mem: Seq<u8>, off: int, v: nat) -> Seq<u8>
    recommends
        0 <= off,
{
    Seq::new(
        if mem.len() >= off + 32 {
            mem.len()
        } else {
            (off + 32) as nat
        },
        |i: int|
            if off <= i < off + 32 {
                word_byte(v, i - off)
            } else {
                byte_or_zero(mem, i)
            },
    )
}

/// Growing the buffer changes no logical byte.
pub proof fn lemma_grown_reads_same(mem: Seq<u8>, n: int, i: int)
    ensures
        byte_or_zero(grown(mem, n), i) == byte_or_zero(mem, i),
{
}

/// Growing the buffer changes no stored word.
pub proof fn lemma_grown_word_same(mem: Seq<u8>, n: int, off: int)
    ensures
        word_at(grown(mem, n), off) == word_at(mem, off),
{
    assert(Seq::new(32, |k: int| byte_or_zero(grown(mem, n), off + k)) =~= Seq::new(
        32,
        |k: int| byte_or_zero(mem, off + k),
    ));
}

/// A store changes no logical byte outside the 32 bytes it writes.
pub proof fn lemma_stored_reads_same_elsewhere(mem: Seq<u8>, off: int, v: nat, i: int)
    requires
        0 <= off,
        i < off || off + 32 <= i,
    ensures
        byte_or_zero(stored(mem, off, v), i) == byte_or_zero(mem, i),
{
}

/// Law: a word read from 32 logical bytes that were never written, and so
/// are still zero, is the all-zero word.
pub proof fn lemma_untouched_word_is_zero(mem: Seq<u8>, off: int)
    requires
        forall|k: int| off <= k < off + 32 ==> byte_or_zero(mem, k) == 0,
    ensures
        word_at(mem, off) == 0,
{
    let s = Seq::new(32, |k: int| byte_or_zero(mem, off + k));
    assert(forall|k: int| 0 <= k < 32 ==> s[k] == 0);
    lemma_be_val_zero(s);
}

/// Law: storing a word and then loading at the same offset returns exactly
/// the stored word.
pub proof fn lemma_store_then_load(mem: Seq<u8>, off: int, v: nat)
    requires
        0 <= off,
        v < word_modulus(),
    ensures
        word_at(stored(mem, off, v), off) == v,
{
    let m2 = stored(mem, off, v);
    assert(Seq::new(32, |k: int| byte_or_zero(m2, off + k)) =~= Seq::new(
        32,
        |k: int| word_byte(v, k),
    ));
    lemma_word_bytes_recompose(v);
}

/// The linear memory. Its view is the physical byte buffer; every byte
/// beyond the physical length logically reads as zero. Created empty, it
/// grows monotonically and never shrinks during a run.
#[derive(Debug)]
pub struct Memory {
    inner: Vec<u8>,
}

impl View for Memory {
    type V = Seq<u8>;

    closed spec fn view(&self) -> Seq<u8> {
        self.inner@
    }
}

impl Memory {
    /// A fresh memory with no byte written: every offset reads as zero.
    pub fn new() -> (r: Memory)
        ensures
            r@ == Seq::<u8>::empty(),
    {
        Memory { inner: Vec::new() }
    }

    /// Grow the physical buffer with zero bytes until it covers `n` bytes.
    fn grow_to(&mut self, n: usize)
        ensures
            final(self)@ == grown(old(self)@, n as int),
            final(self)@.len() >= n,
    {
        let ghost orig = self@;
        while self.inner.len() < n
            invariant
                orig.len() <= self.inner@.len(),
                orig.len() >= n ==> self.inner@.len() == orig.len(),
                orig.len() < n ==> self.inner@.len() <= n,
                forall|i: int| 0 <= i < orig.len() ==> self.inner@[i] == orig[i],
                forall|i: int| orig.len() <= i < self.inner@.len() ==> self.inner@[i] == 0,
            decreases n - self.inner.len(),
        {
            self.inner.push(0);
        }
        proof {
            assert(self@ =~= grown(orig, n as int));
        }
    }

    /// Store the word's 32-byte big-endian form at byte offset `offset`,
    /// growing and zero-filling first as needed. The operation succeeds for
    /// every offset whose 32-byte write stays within the machine's index
    /// range.
    pub fn mstore(&mut self, offset: usize, data: Word)
        requires
            offset + 32 <= usize::MAX,
        ensures
            final(self)@ == stored(old(self)@, offset as int, data@),
    {
        let ghost orig = self@;
        self.grow_to(offset + 32);
        let ghost g = self@;
        let bytes = word_to_be_bytes(data);
        let mut i: usize = 0;
        while i < 32
            invariant
                i <= 32,
                offset + 32 <= usize::MAX,
                offset + 32 <= self.inner@.len(),
                self.inner@.len() == g.len(),
                bytes@.len() == 32,
                forall|k: int| 0 <= k < 32 ==> bytes@[k] == word_byte(data@, k),
                forall|k: int| 0 <= k < i ==> self.inner@[offset + k] == bytes@[k],
                forall|j: int|
                    0 <= j < g.len() && !(offset <= j < offset + i) ==> self.inner@[j] == g[j],
            decreases 32 - i,
        {
            self.inner.set(offset + i, bytes[i]);
            i += 1;
        }
        proof {
            assert forall|j: int| 0 <= j < self.inner@.len() implies self.inner@[j] == stored(
                orig,
                offset as int,
                data@,
            )[j] by {
                if !(offset <= j < offset + 32) {
                    lemma_grown_reads_same(orig, offset as int + 32, j);
                }
            }
            assert(self@ =~= stored(orig, offset as int, data@));
        }
    }

    /// Read the 32-byte big-endian word at byte offset `offset`, growing
    /// and zero-filling first as needed; no logical byte changes. The
    /// operation succeeds for every offset whose 32-byte read stays within
    /// the machine's index range.
    pub fn mload(&mut self, offset: usize) -> (r: Word)
        requires
            offset + 32 <= usize::MAX,
        ensures
            r@ == word_at(old(self)@, offset as int),
            final(self)@ == grown(old(self)@, offset as int + 32),
    {
        let ghost orig = self@;
        self.grow_to(offset + 32);
        let ghost g = self@;
        let mut buf: Vec<u8> = Vec::new();
        let mut i: usize = 0;
        while i < 32
            invariant
                i <= 32,
                offset + 32 <= usize::MAX,
                offset + 32 <= self.inner@.len(),
                self@ == g,
                buf@.len() == i,
                forall|k: int| 0 <= k < i ==> buf@[k] == self.inner@[offset + k],
            decreases 32 - i,
        {
            buf.push(self.inner[offset + i]);
            i += 1;
        }
        let w = word_from_be_bytes(buf.as_slice());
        proof {
            assert forall|k: int| 0 <= k < 32 implies buf@[k] == byte_or_zero(
                orig,
                offset as int + k,
            ) by {
                lemma_grown_reads_same(orig, offset as int + 32, offset as int + k);
            }
            assert(buf@ =~= Seq::new(32, |k: int| byte_or_zero(orig, offset as int + k)));
        }
        w
    }
}

} // verus!
