//! Structured decoding of ABI-encoded event payloads: 32-byte big-endian
//! words carrying two's-complement signed integers. A value outside the
//! signed 128-bit domain resolves to zero, like any other unreadable amount.

use vstd::prelude::*;
use vstd::arithmetic::power::{pow, lemma_pow_adds, lemma_pow0, lemma_pow1};

verus! {

/// Value of a big-endian byte string.
pub open spec fn be_val(s: Seq<u8>) -> int
    decreases s.len(),
{
    if s.len() == 0 {
        0
    } else {
        be_val(s.drop_last()) * 256 + s.last()
    }
}

/// Signed two's-complement value of a 32-byte word.
pub open spec fn word_val(w: Seq<u8>) -> int
    recommends
        w.len() == 32,
{
    if w[0] >= 128 {
        be_val(w) - pow(256, 32)
    } else {
        be_val(w)
    }
}

/// The amount a signed 256-bit word contributes: its value when it fits the
/// signed 128-bit domain, zero otherwise.
pub open spec fn amount_or_zero(w: Seq<u8>) -> int
    recommends
        w.len() == 32,
{
    if i128::MIN <= word_val(w) && word_val(w) <= i128::MAX {
        word_val(w)
    } else {
        0
    }
}

pub proof fn lemma_be_val_bound(s: Seq<u8>)
    ensures
        0 <= be_val(s) < pow(256, s.len()),
    decreases s.len(),
{
    if s.len() == 0 {
        lemma_pow0(256);
    } else {
        lemma_be_val_bound(s.drop_last());
        lemma_pow_adds(256, (s.len() - 1) as nat, 1);
        lemma_pow1(256);
        assert(be_val(s.drop_last()) * 256 + s.last() < pow(256, (s.len() - 1) as nat) * 256) by (
        nonlinear_arith)
            requires
                be_val(s.drop_last()) < pow(256, (s.len() - 1) as nat),
                s.last() < 256,
        ;
    }
}

/// A big-endian value splits at any position into a high and a low part.
pub proof fn lemma_be_val_split(s: Seq<u8>, k: int)
    requires
        0 <= k <= s.len(),
    ensures
        be_val(s) == be_val(s.take(k)) * pow(256, (s.len() - k) as nat) + be_val(s.skip(k)),
    decreases s.len() - k,
{
    if k == s.len() {
        assert(s.take(k) =~= s);
        assert(s.skip(k) =~= Seq::<u8>::empty());
        lemma_pow0(256);
    } else {
        let dl = s.drop_last();
        lemma_be_val_split(dl, k);
        assert(dl.take(k) =~= s.take(k));
        assert(s.skip(k).drop_last() =~= dl.skip(k));
        assert(s.skip(k).last() == s.last());
        assert(be_val(s.skip(k)) == be_val(dl.skip(k)) * 256 + s.last());
        lemma_pow_adds(256, (s.len() - k - 1) as nat, 1);
        lemma_pow1(256);
        let h = be_val(s.take(k));
        let p = pow(256, (s.len() - k - 1) as nat);
        assert((h * p + be_val(dl.skip(k))) * 256 + s.last() == h * (p * 256) + (be_val(
            dl.skip(k),
        ) * 256 + s.last())) by (nonlinear_arith);
    }
}

pub proof fn lemma_be_val_all_zero(s: Seq<u8>)
    requires
        forall|i: int| 0 <= i < s.len() ==> s[i] == 0,
    ensures
        be_val(s) == 0,
    decreases s.len(),
{
    if s.len() > 0 {
        lemma_be_val_all_zero(s.drop_last());
    }
}

pub proof fn lemma_be_val_all_ff(s: Seq<u8>)
    requires
        forall|i: int| 0 <= i < s.len() ==> s[i] == 255,
    ensures
        be_val(s) == pow(256, s.len()) - 1,
    decreases s.len(),
{
    if s.len() == 0 {
        lemma_pow0(256);
    } else {
        lemma_be_val_all_ff(s.drop_last());
        lemma_pow_adds(256, (s.len() - 1) as nat, 1);
        lemma_pow1(256);
        assert((pow(256, (s.len() - 1) as nat) - 1) * 256 + 255 == pow(256, (s.len() - 1) as nat)
            * 256 - 1) by (nonlinear_arith);
    }
}

pub proof fn lemma_be_val_nonzero(s: Seq<u8>)
    requires
        exists|i: int| 0 <= i < s.len() && s[i] != 0,
    ensures
        be_val(s) >= 1,
    decreases s.len(),
{
    let i = choose|i: int| 0 <= i < s.len() && s[i] != 0;
    lemma_be_val_bound(s.drop_last());
    if i == s.len() - 1 {
        assert(be_val(s) == be_val(s.drop_last()) * 256 + s.last());
        assert(be_val(s.drop_last()) * 256 >= 0) by (nonlinear_arith)
            requires
                be_val(s.drop_last()) >= 0,
        ;
    } else {
        assert(s.drop_last()[i] == s[i]);
        lemma_be_val_nonzero(s.drop_last());
        assert(be_val(s.drop_last()) * 256 >= 256) by (nonlinear_arith)
            requires
                be_val(s.drop_last()) >= 1,
        ;
    }
}

pub proof fn lemma_be_val_not_max(s: Seq<u8>)
    requires
        exists|i: int| 0 <= i < s.len() && s[i] != 255,
    ensures
        be_val(s) <= pow(256, s.len()) - 2,
    decreases s.len(),
{
    let i = choose|i: int| 0 <= i < s.len() && s[i] != 255;
    lemma_be_val_bound(s.drop_last());
    lemma_pow_adds(256, (s.len() - 1) as nat, 1);
    lemma_pow1(256);
    if i == s.len() - 1 {
        assert(s.last() <= 254);
        assert(be_val(s.drop_last()) * 256 <= (pow(256, (s.len() - 1) as nat) - 1) * 256) by (
        nonlinear_arith)
            requires
                be_val(s.drop_last()) <= pow(256, (s.len() - 1) as nat) - 1,
        ;
        assert((pow(256, (s.len() - 1) as nat) - 1) * 256 == pow(256, (s.len() - 1) as nat) * 256
            - 256) by (nonlinear_arith);
    } else {
        assert(s.drop_last()[i] == s[i]);
        lemma_be_val_not_max(s.drop_last());
        assert(be_val(s.drop_last()) * 256 <= (pow(256, (s.len() - 1) as nat) - 2) * 256) by (
        nonlinear_arith)
            requires
                be_val(s.drop_last()) <= pow(256, (s.len() - 1) as nat) - 2,
        ;
        assert((pow(256, (s.len() - 1) as nat) - 2) * 256 == pow(256, (s.len() - 1) as nat) * 256
            - 512) by (nonlinear_arith);
    }
}

proof fn lemma_pow256_16()
    ensures
        pow(256, 16) == 0x100000000000000000000000000000000,
        pow(256, 32) == pow(256, 16) * pow(256, 16),
{
    lemma_pow0(256);
    lemma_pow1(256);
    lemma_pow_adds(256, 1, 1);
    assert(pow(256, 2) == 0x10000);
    lemma_pow_adds(256, 2, 2);
    assert(pow(256, 4) == 0x100000000);
    lemma_pow_adds(256, 4, 4);
    assert(pow(256, 8) == 0x10000000000000000);
    lemma_pow_adds(256, 8, 8);
    assert(pow(256, 16) == 0x100000000000000000000000000000000);
    lemma_pow_adds(256, 16, 16);
}

/// Reads the signed 256-bit word at `start` and resolves it into the signed
/// 128-bit domain, out-of-range values becoming zero.
pub fn decode_int256(data: &Vec<u8>, start: usize) -> (r: i128)
    requires
        start + 32 <= data@.len(),
    ensures
        r as int == amount_or_zero(data@.subrange(start as int, start as int + 32)),
{
    let ghost w = data@.subrange(start as int, start as int + 32);
    let n = data.len();
    // scan the high half: a value fits 128 bits only when it is sign-extended
    let mut all_zero = true;
    let mut all_ff = true;
    let mut k: usize = 0;
    while k < 16
        invariant
            0 <= k <= 16,
            n == data@.len(),
            start + 32 <= n,
            w == data@.subrange(start as int, start as int + 32),
            all_zero == (forall|j: int| 0 <= j < k ==> w[j] == 0),
            all_ff == (forall|j: int| 0 <= j < k ==> w[j] == 255),
        decreases 16 - k,
    {
        let b = data[start + k];
        assert(b == w[k as int]);
        if b != 0 {
            all_zero = false;
        }
        if b != 255 {
            all_ff = false;
        }
        k = k + 1;
    }
    // accumulate the low half
    let mut low: u128 = 0;
    let mut m: usize = 16;
    proof {
        assert(w.subrange(16, 16) =~= Seq::<u8>::empty());
        lemma_pow0(256);
    }
    while m < 32
        invariant
            16 <= m <= 32,
            n == data@.len(),
            start + 32 <= n,
            w == data@.subrange(start as int, start as int + 32),
            low as int == be_val(w.subrange(16, m as int)),
            (low as int) < pow(256, (m - 16) as nat),
        decreases 32 - m,
    {
        let b = data[start + m];
        assert(b == w[m as int]);
        proof {
            assert(w.subrange(16, m + 1).drop_last() =~= w.subrange(16, m as int));
            assert(w.subrange(16, m + 1).last() == w[m as int]);
            lemma_pow_adds(256, (m - 16) as nat, 1);
            lemma_pow1(256);
            lemma_pow256_16();
            vstd::arithmetic::power::lemma_pow_increases(256, (m - 15) as nat, 16);
            assert(low as int * 256 + b < pow(256, (m - 16) as nat) * 256) by (nonlinear_arith)
                requires
                    (low as int) < pow(256, (m - 16) as nat),
                    b < 256,
            ;
        }
        low = low * 256 + (b as u128);
        m = m + 1;
    }
    proof {
        assert(w.subrange(16, 32) =~= w.skip(16));
        lemma_be_val_split(w, 16);
        lemma_pow256_16();
    }
    if all_zero {
        proof {
            lemma_be_val_all_zero(w.take(16));
            assert(w[0] == w.take(16)[0]);
            assert(word_val(w) == low as int);
        }
        if low <= i128::MAX as u128 {
            low as i128
        } else {
            0
        }
    } else if all_ff {
        proof {
            lemma_be_val_all_ff(w.take(16));
            assert(w[0] == w.take(16)[0]);
            assert((pow(256, 16) - 1) * pow(256, 16) == pow(256, 16) * pow(256, 16) - pow(
                256,
                16,
            )) by (nonlinear_arith);
            assert(word_val(w) == low as int - pow(256, 16));
        }
        if low > i128::MAX as u128 {
            let mag = (u128::MAX - low) + 1;
            assert(mag as int == pow(256, 16) - low as int);
            if mag == (i128::MAX as u128) + 1 {
                assert(word_val(w) == i128::MIN);
                i128::MIN
            } else {
                let r = -(mag as i128);
                assert(r as int == word_val(w));
                r
            }
        } else {
            assert(word_val(w) < i128::MIN);
            0
        }
    } else {
        proof {
            let top = w.take(16);
            assert(top[0] == w[0]);
            lemma_be_val_bound(w.skip(16));
            if w[0] >= 128 {
                let j = choose|j: int| 0 <= j < 16 && !(w[j] == 255);
                assert(top[j] == w[j]);
                assert(exists|i: int| 0 <= i < top.len() && top[i] != 255);
                lemma_be_val_not_max(top);
                assert(be_val(top) * pow(256, 16) <= (pow(256, 16) - 2) * pow(256, 16)) by (
                nonlinear_arith)
                    requires
                        be_val(top) <= pow(256, 16) - 2,
                        pow(256, 16) > 0,
                ;
                assert((pow(256, 16) - 2) * pow(256, 16) == pow(256, 16) * pow(256, 16) - 2 * pow(
                    256,
                    16,
                )) by (nonlinear_arith);
                assert(word_val(w) < i128::MIN);
            } else {
                let j = choose|j: int| 0 <= j < 16 && !(w[j] == 0);
                assert(top[j] == w[j]);
                assert(exists|i: int| 0 <= i < top.len() && top[i] != 0);
                lemma_be_val_nonzero(top);
                assert(be_val(top) * pow(256, 16) >= pow(256, 16)) by (nonlinear_arith)
                    requires
                        be_val(top) >= 1,
                        pow(256, 16) > 0,
                ;
                lemma_be_val_bound(top);
                assert(word_val(w) > i128::MAX);
            }
        }
        0
    }
}

} // verus!
