//! Big-endian byte encoding of word values: the value of a byte
//! sequence, the bytes of a value, and the facts tying the two together.

use vstd::prelude::*;
use vstd::arithmetic::power2::*;
use vstd::arithmetic::div_mod::*;

verus! {

/// The value of a byte sequence read as a big-endian number.
pub open spec fn be_val(s: Seq<u8>) -> nat
    decreases s.len(),
{
    if s.len() == 0 {
        0
    } else {
        be_val(s.drop_last()) * 256 + s.last() as nat
    }
}

/// Byte `k` (counting from the most significant) of the `n`-byte
/// big-endian representation of `v`.
pub open spec fn nth_be_byte(v: nat, n: int, k: int) -> u8 {
    ((v / pow2((8 * (n - 1 - k)) as nat)) % 256) as u8
}

/// Byte `k` of the 32-byte big-endian representation of a word value.
pub open spec fn word_byte(v: nat, k: int) -> u8 {
    nth_be_byte(v, 32, k)
}

/// A sequence of zero bytes holds the value zero.
pub proof fn lemma_be_val_zero(s: Seq<u8>)
    requires
        forall|k: int| 0 <= k < s.len() ==> s[k] == 0,
    ensures
        be_val(s) == 0,
    decreases s.len(),
{
    if s.len() > 0 {
        let d = s.drop_last();
        assert(forall|k: int| 0 <= k < d.len() ==> d[k] == s[k]);
        lemma_be_val_zero(d);
    }
}

/// Reading back the `n`-byte big-endian representation of a value below
/// 2^(8n) yields that value.
pub proof fn lemma_nth_bytes_recompose(v: nat, n: int)
    requires
        0 <= n,
        v < pow2((8 * n) as nat),
    ensures
        be_val(Seq::new(n as nat, |k: int| nth_be_byte(v, n, k))) == v,
    decreases n,
{
    let s = Seq::new(n as nat, |k: int| nth_be_byte(v, n, k));
    if n == 0 {
        lemma2_to64();
    } else {
        let v1 = v / 256;
        lemma2_to64();
        lemma_pow2_adds((8 * (n - 1)) as nat, 8);
        assert(pow2((8 * n) as nat) == pow2((8 * (n - 1)) as nat) * 256);
        assert(v < 256 * pow2((8 * (n - 1)) as nat));
        lemma_multiply_divide_lt(v as int, 256, pow2((8 * (n - 1)) as nat) as int);
        assert(v1 < pow2((8 * (n - 1)) as nat));
        lemma_nth_bytes_recompose(v1, n - 1);
        let s1 = Seq::new((n - 1) as nat, |k: int| nth_be_byte(v1, n - 1, k));
        assert forall|k: int| 0 <= k < n - 1 implies s.drop_last()[k] == s1[k] by {
            let e = (8 * (n - 2 - k)) as nat;
            lemma_pow2_pos(e);
            lemma_pow2_adds(8, e);
            assert(pow2((8 * (n - 1 - k)) as nat) == 256 * pow2(e));
            lemma_div_denominator(v as int, 256, pow2(e) as int);
            assert(v as int / (256 * pow2(e) as int) == v1 as int / pow2(e) as int);
        }
        assert(s.drop_last() =~= s1);
        assert(s.last() == nth_be_byte(v, n, n - 1));
        assert(pow2(0) == 1);
        lemma_div_basics(v as int);
        assert(s.last() == (v % 256) as u8);
        lemma_fundamental_div_mod(v as int, 256);
        assert(be_val(s) == v1 * 256 + v % 256);
    }
}

/// The 32-byte big-endian form of a word value reads back as that value.
pub proof fn lemma_word_bytes_recompose(v: nat)
    requires
        v < pow2(256),
    ensures
        be_val(Seq::new(32, |k: int| word_byte(v, k))) == v,
{
    lemma_nth_bytes_recompose(v, 32);
    assert(Seq::new(32, |k: int| word_byte(v, k)) =~= Seq::new(
        32nat,
        |k: int| nth_be_byte(v, 32, k),
    ));
}

} // verus!
