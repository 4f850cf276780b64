//! Numeric reconciliation: textual balances are read into a signed 128-bit
//! domain, unreadable text resolving to zero, and deltas are computed there
//! with saturation instead of overflow.

use vstd::prelude::*;

verus! {

/// `c` is an ASCII decimal digit.
pub open spec fn is_digit(c: char) -> bool {
    48 <= c as int && c as int <= 57
}

/// Numeric value of a digit character.
pub open spec fn digit_val(c: char) -> int {
    c as int - 48
}

pub open spec fn all_digits(s: Seq<char>) -> bool {
    forall|i: int| 0 <= i < s.len() ==> is_digit(s[i])
}

/// Value of a most-significant-first digit string.
pub open spec fn digits_val(s: Seq<char>) -> int
    decreases s.len(),
{
    if s.len() == 0 {
        0
    } else {
        digits_val(s.drop_last()) * 10 + digit_val(s.last())
    }
}

/// The strings accepted as signed decimal integers: an optional `+` or `-`
/// sign followed by one or more ASCII digits.
pub open spec fn is_signed_decimal(s: Seq<char>) -> bool {
    if s.len() == 0 {
        false
    } else if s[0] == '+' || s[0] == '-' {
        s.len() > 1 && all_digits(s.subrange(1, s.len() as int))
    } else {
        all_digits(s)
    }
}

/// Signed value of a decimal string.
pub open spec fn decimal_value(s: Seq<char>) -> int
    recommends
        is_signed_decimal(s),
{
    if s.len() > 0 && s[0] == '-' {
        -digits_val(s.subrange(1, s.len() as int))
    } else if s.len() > 0 && s[0] == '+' {
        digits_val(s.subrange(1, s.len() as int))
    } else {
        digits_val(s)
    }
}

/// The lenient reading of a textual balance: its signed decimal value when
/// the text is well-formed and fits the signed 128-bit range, zero otherwise.
pub open spec fn parse_or_zero(s: Seq<char>) -> int {
    if is_signed_decimal(s) && i128::MIN <= decimal_value(s) && decimal_value(s) <= i128::MAX {
        decimal_value(s)
    } else {
        0
    }
}

/// Saturation of an unbounded integer into the signed 128-bit range.
pub open spec fn sat128(x: int) -> int {
    if x > i128::MAX {
        i128::MAX as int
    } else if x < i128::MIN {
        i128::MIN as int
    } else {
        x
    }
}

proof fn lemma_digits_val_nonneg(s: Seq<char>)
    requires
        all_digits(s),
    ensures
        digits_val(s) >= 0,
    decreases s.len(),
{
    if s.len() > 0 {
        lemma_digits_val_nonneg(s.drop_last());
    }
}

/// Extending a digit string on the right never lowers its value.
proof fn lemma_digits_val_prefix_le(s: Seq<char>, k: int)
    requires
        all_digits(s),
        0 <= k <= s.len(),
    ensures
        digits_val(s.take(k)) <= digits_val(s),
        digits_val(s.take(k)) >= 0,
    decreases s.len() - k,
{
    assert(all_digits(s.take(k)));
    lemma_digits_val_nonneg(s.take(k));
    if k < s.len() {
        assert(s.take(k + 1).drop_last() =~= s.take(k));
        assert(digits_val(s.take(k + 1)) == digits_val(s.take(k)) * 10 + digit_val(s[k]));
        lemma_digits_val_prefix_le(s, k + 1);
    } else {
        assert(s.take(k) =~= s);
    }
}

/// Reads a balance string the way the decoders do: as a signed decimal
/// integer in the 128-bit range, with anything unreadable resolving to zero.
pub fn parse_i128_or_zero(s: &str) -> (r: i128)
    ensures
        r as int == parse_or_zero(s@),
{
    let n = s.unicode_len();
    if n == 0 {
        return 0;
    }
    let first = s.get_char(0);
    let neg = first == '-';
    let start: usize = if first == '-' || first == '+' {
        1
    } else {
        0
    };
    if n == start {
        // a bare sign has no digits
        return 0;
    }
    let limit: u128 = if neg {
        (i128::MAX as u128) + 1
    } else {
        i128::MAX as u128
    };
    let ghost dseq = s@.subrange(start as int, n as int);
    let mut mag: u128 = 0;
    let mut i: usize = start;
    while i < n
        invariant
            start <= i <= n,
            n == s@.len(),
            start == 0 || start == 1,
            start == 1 ==> (s@[0] == '-' || s@[0] == '+'),
            start == 0 ==> !(s@[0] == '-' || s@[0] == '+'),
            neg == (s@[0] == '-'),
            n > start,
            dseq == s@.subrange(start as int, n as int),
            limit as int == if neg {
                i128::MAX as int + 1
            } else {
                i128::MAX as int
            },
            all_digits(dseq.take(i - start)),
            mag as int == digits_val(dseq.take(i - start)),
            mag <= limit,
        decreases n - i,
    {
        let c = s.get_char(i);
        let u = c as u32;
        if u < 48 || u > 57 {
            // not a digit: the whole string is unreadable
            assert(dseq[i - start] == c);
            assert(!is_digit(c));
            assert(!all_digits(dseq));
            assert(!is_signed_decimal(s@));
            return 0;
        }
        assert(is_digit(c));
        let d: u128 = (u - 48) as u128;
        assert(d as int == digit_val(c));
        proof {
            assert(dseq.take(i - start + 1).drop_last() =~= dseq.take(i - start));
            assert(dseq.take(i - start + 1).last() == c);
        }
        let stepped = match mag.checked_mul(10) {
            Some(m) => m.checked_add(d),
            None => None,
        };
        let over = match stepped {
            Some(m2) => m2 > limit,
            None => true,
        };
        if over {
            // the magnitude has left the 128-bit range; whatever follows,
            // the value either stays out of range or the text is invalid
            proof {
                assert(digits_val(dseq.take(i - start + 1)) == mag as int * 10 + d as int);
                assert(digits_val(dseq.take(i - start + 1)) > limit as int);
                if all_digits(dseq) {
                    lemma_digits_val_prefix_le(dseq, i - start + 1);
                    assert(digits_val(dseq) > limit as int);
                    if is_signed_decimal(s@) {
                        if start == 1 {
                            assert(s@.subrange(1, s@.len() as int) == dseq);
                            if neg {
                                assert(decimal_value(s@) == -digits_val(dseq));
                                assert(decimal_value(s@) < i128::MIN);
                            } else {
                                assert(decimal_value(s@) == digits_val(dseq));
                                assert(decimal_value(s@) > i128::MAX);
                            }
                        } else {
                            assert(s@.subrange(0, s@.len() as int) =~= s@);
                            assert(decimal_value(s@) == digits_val(dseq));
                            assert(decimal_value(s@) > i128::MAX);
                        }
                    }
                } else {
                    assert(!is_signed_decimal(s@) || start == 1);
                    if start == 1 && is_signed_decimal(s@) {
                        assert(s@.subrange(1, s@.len() as int) == dseq);
                        assert(false);
                    }
                }
            }
            return 0;
        }
        mag = match stepped {
            Some(m2) => m2,
            None => 0,
        };
        i = i + 1;
    }
    proof {
        assert(dseq.take(n - start) =~= dseq);
        if start == 1 {
            assert(s@.subrange(1, s@.len() as int) == dseq);
        } else {
            assert(s@.subrange(0, s@.len() as int) =~= s@);
        }
        assert(is_signed_decimal(s@));
    }
    if neg {
        if mag == (i128::MAX as u128) + 1 {
            assert(decimal_value(s@) == i128::MIN);
            i128::MIN
        } else {
            let v = -(mag as i128);
            assert(v as int == decimal_value(s@));
            v
        }
    } else {
        let v = mag as i128;
        assert(v as int == decimal_value(s@));
        v
    }
}

/// Saturating signed 128-bit addition.
pub fn sat_add(a: i128, b: i128) -> (r: i128)
    ensures
        r as int == sat128(a as int + b as int),
{
    match a.checked_add(b) {
        Some(v) => v,
        None => {
            if b > 0 {
                i128::MAX
            } else {
                i128::MIN
            }
        },
    }
}

/// Saturating signed 128-bit subtraction.
pub fn sat_sub(a: i128, b: i128) -> (r: i128)
    ensures
        r as int == sat128(a as int - b as int),
{
    match a.checked_sub(b) {
        Some(v) => v,
        None => {
            if b < 0 {
                i128::MAX
            } else {
                i128::MIN
            }
        },
    }
}

/// A balance delta is the post-balance minus the pre-balance, computed in the
/// signed 128-bit domain; it is exact whenever the true difference fits that
/// domain, in particular for magnitudes up to 10^30.
pub proof fn lemma_delta_exact(pre: int, post: int)
    requires
        -1000000000000000000000000000000 <= pre <= 1000000000000000000000000000000,
        -1000000000000000000000000000000 <= post <= 1000000000000000000000000000000,
    ensures
        sat128(post - pre) == post - pre,
{
}

/// An ill-formed balance string contributes exactly zero.
pub proof fn lemma_non_numeric_is_zero(s: Seq<char>)
    requires
        !is_signed_decimal(s),
    ensures
        parse_or_zero(s) == 0,
{
}

} // verus!
