//! The 256-bit machine word: a fixed-width unsigned integer with
//! wraparound (modular) arithmetic.

use vstd::prelude::*;
use vstd::arithmetic::power2::*;
use vstd::arithmetic::div_mod::*;
use alloy_primitives::U256;

use crate::bytes::{be_val, word_byte};

verus! {

/// The modulus of all word arithmetic: 2^256.
pub open spec fn word_modulus() -> nat {
    pow2(256)
}

/// A 256-bit unsigned word, stored as four 64-bit limbs, least
/// significant limb first. Its view is its mathematical value,
/// always below 2^256.
#[derive(Clone, Copy, Debug, PartialEq, Eq, Structural)]
pub struct Word {
    pub limb0: u64,
    pub limb1: u64,
    pub limb2: u64,
    pub limb3: u64,
}

impl View for Word {
    type V = nat;

    open spec fn view(&self) -> nat {
        self.limb0 as nat + (self.limb1 as nat) * pow2(64) + (self.limb2 as nat) * pow2(128)
            + (self.limb3 as nat) * pow2(192)
    }
}

/// Every word value lies below the modulus.
pub proof fn lemma_word_value_bound(w: Word)
    ensures
        w@ < word_modulus(),
{
    lemma_pow2_adds(64, 64);
    lemma_pow2_adds(128, 64);
    lemma_pow2_adds(192, 64);
    lemma2_to64();
    assert(w@ < pow2(256)) by (nonlinear_arith)
        requires
            w@ == w.limb0 as nat + (w.limb1 as nat) * pow2(64) + (w.limb2 as nat) * pow2(128)
                + (w.limb3 as nat) * pow2(192),
            w.limb0 < pow2(64),
            w.limb1 < pow2(64),
            w.limb2 < pow2(64),
            w.limb3 < pow2(64),
            pow2(128) == pow2(64) * pow2(64),
            pow2(192) == pow2(128) * pow2(64),
            pow2(256) == pow2(192) * pow2(64),
    {
    }
}

impl Word {
    /// The word with a given small value.
    pub fn from_u64(x: u64) -> (r: Word)
        ensures
            r@ == x as nat,
    {
        let r = Word { limb0: x, limb1: 0, limb2: 0, limb3: 0 };
        r
    }

    /// Whether the word is zero: the branch condition of conditional jumps.
    pub fn is_zero(&self) -> (r: bool)
        ensures
            r == (self@ == 0),
    {
        proof {
            lemma_pow2_pos(64);
            lemma_pow2_pos(128);
            lemma_pow2_pos(192);
            assert(self.limb1 > 0 ==> (self.limb1 as nat) * pow2(64) > 0) by (nonlinear_arith)
                requires pow2(64) > 0,
            {
            }
            assert(self.limb2 > 0 ==> (self.limb2 as nat) * pow2(128) > 0) by (nonlinear_arith)
                requires pow2(128) > 0,
            {
            }
            assert(self.limb3 > 0 ==> (self.limb3 as nat) * pow2(192) > 0) by (nonlinear_arith)
                requires pow2(192) > 0,
            {
            }
        }
        self.limb0 == 0 && self.limb1 == 0 && self.limb2 == 0 && self.limb3 == 0
    }

    /// The word as a byte index, where it has one: `None` exactly when the
    /// value does not fit the machine's index type.
    pub fn to_index(&self) -> (r: Option<usize>)
        ensures
            match r {
                Some(i) => i as nat == self@,
                None => self@ > usize::MAX as nat,
            },
    {
        proof {
            lemma_pow2_pos(64);
            lemma_pow2_pos(128);
            lemma_pow2_pos(192);
            lemma2_to64();
            assert(self.limb1 > 0 ==> (self.limb1 as nat) * pow2(64) >= pow2(64))
                by (nonlinear_arith)
                requires pow2(64) > 0,
            {
            }
            assert(self.limb2 > 0 ==> (self.limb2 as nat) * pow2(128) >= pow2(128))
                by (nonlinear_arith)
                requires pow2(128) > 0,
            {
            }
            assert(self.limb3 > 0 ==> (self.limb3 as nat) * pow2(192) >= pow2(192))
                by (nonlinear_arith)
                requires pow2(192) > 0,
            {
            }
            lemma_pow2_strictly_increases(64, 128);
            lemma_pow2_strictly_increases(64, 192);
        }
        if self.limb1 != 0 || self.limb2 != 0 || self.limb3 != 0 {
            None
        } else if self.limb0 <= usize::MAX as u64 {
            Some(self.limb0 as usize)
        } else {
            None
        }
    }
}

/// The sum of two word values under wraparound.
pub open spec fn add_val(a: nat, b: nat) -> nat {
    (a + b) % word_modulus()
}

/// The difference of two word values under wraparound.
pub open spec fn sub_val(a: nat, b: nat) -> nat
    recommends
        a < word_modulus(),
        b < word_modulus(),
{
    ((a + word_modulus() - b) as nat) % word_modulus()
}

/// The product of two word values under wraparound.
pub open spec fn mul_val(a: nat, b: nat) -> nat {
    (a * b) % word_modulus()
}

/// Relies on `alloy_primitives::U256::wrapping_add`: addition modulo 2^256,
/// with `U256::from_limbs` / `into_limbs` carrying the 64-bit limbs, least
/// significant first.
#[verifier::external_body]
pub(crate) fn word_add(a: Word, b: Word) -> (r: Word)
    ensures
        r@ == add_val(a@, b@),
{
    let x = U256::from_limbs([a.limb0, a.limb1, a.limb2, a.limb3]);
    let y = U256::from_limbs([b.limb0, b.limb1, b.limb2, b.limb3]);
    let l = x.wrapping_add(y).into_limbs();
    Word { limb0: l[0], limb1: l[1], limb2: l[2], limb3: l[3] }
}

/// Relies on `alloy_primitives::U256::wrapping_sub`: subtraction modulo
/// 2^256, with `U256::from_limbs` / `into_limbs` carrying the 64-bit limbs,
/// least significant first.
#[verifier::external_body]
pub(crate) fn word_sub(a: Word, b: Word) -> (r: Word)
    ensures
        r@ == sub_val(a@, b@),
{
    let x = U256::from_limbs([a.limb0, a.limb1, a.limb2, a.limb3]);
    let y = U256::from_limbs([b.limb0, b.limb1, b.limb2, b.limb3]);
    let l = x.wrapping_sub(y).into_limbs();
    Word { limb0: l[0], limb1: l[1], limb2: l[2], limb3: l[3] }
}

/// Relies on `alloy_primitives::U256::wrapping_mul`: multiplication modulo
/// 2^256, with `U256::from_limbs` / `into_limbs` carrying the 64-bit limbs,
/// least significant first.
#[verifier::external_body]
pub(crate) fn word_mul(a: Word, b: Word) -> (r: Word)
    ensures
        r@ == mul_val(a@, b@),
{
    let x = U256::from_limbs([a.limb0, a.limb1, a.limb2, a.limb3]);
    let y = U256::from_limbs([b.limb0, b.limb1, b.limb2, b.limb3]);
    let l = x.wrapping_mul(y).into_limbs();
    Word { limb0: l[0], limb1: l[1], limb2: l[2], limb3: l[3] }
}

/// Relies on `alloy_primitives::U256::to_be_bytes`: the value as exactly 32
/// bytes, most significant first, with `U256::from_limbs` carrying the
/// 64-bit limbs, least significant first.
#[verifier::external_body]
pub(crate) fn word_to_be_bytes(w: Word) -> (r: Vec<u8>)
    ensures
        r@.len() == 32,
        forall|k: int| 0 <= k < 32 ==> r@[k] == word_byte(w@, k),
{
    let x = U256::from_limbs([w.limb0, w.limb1, w.limb2, w.limb3]);
    x.to_be_bytes::<32>().to_vec()
}

/// Relies on `alloy_primitives::U256::from_be_slice`: a slice of at most 32
/// bytes read as a big-endian number, with `U256::into_limbs` carrying the
/// 64-bit limbs, least significant first.
#[verifier::external_body]
pub(crate) fn word_from_be_bytes(bytes: &[u8]) -> (r: Word)
    requires
        bytes@.len() <= 32,
    ensures
        r@ == be_val(bytes@),
{
    let l = U256::from_be_slice(bytes).into_limbs();
    Word { limb0: l[0], limb1: l[1], limb2: l[2], limb3: l[3] }
}

/// Law: for all pairs of words, adding one and then subtracting it again
/// returns the other to itself: `(a + b) - b == a` modulo 2^256.
pub proof fn lemma_word_add_then_sub_restores(a: Word, b: Word)
    ensures
        sub_val(add_val(a@, b@), b@) == a@,
{
    lemma_word_value_bound(a);
    lemma_word_value_bound(b);
    lemma_add_then_sub_restores(a@, b@);
}

/// Adding a word value and then subtracting the same value returns any
/// value below the modulus to itself: `(a + b) - b == a` modulo 2^256.
pub proof fn lemma_add_then_sub_restores(a: nat, b: nat)
    requires
        a < word_modulus(),
        b < word_modulus(),
    ensures
        sub_val(add_val(a, b), b) == a,
{
    let m = word_modulus();
    lemma_pow2_pos(256);
    if a + b < m {
        lemma_small_mod(a + b, m);
        assert(add_val(a, b) == a + b);
        assert((a + b + m - b) as nat == a + m);
        lemma_mod_add_multiples_vanish(a as int, m as int);
        lemma_small_mod(a, m);
    } else {
        let c = (a + b - m) as nat;
        lemma_mod_add_multiples_vanish(c as int, m as int);
        lemma_small_mod(c, m);
        assert(add_val(a, b) == c);
        assert((c + m - b) as nat == a);
        lemma_small_mod(a, m);
    }
}

} // verus!
