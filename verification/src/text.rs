//! Text helpers shared by the decoders: lowercase hex rendering of byte
//! strings, ASCII case folding for address comparison, and decimal rendering
//! of signed 128-bit amounts.

use vstd::prelude::*;
use vstd::arithmetic::div_mod::lemma_fundamental_div_mod;

verus! {

/// The character for a decimal digit value.
pub open spec fn digit_char(d: int) -> char
    recommends
        0 <= d < 10,
{
    (48 + d) as char
}

/// The lowercase hex digit for a nibble value.
pub open spec fn hex_digit(d: int) -> char
    recommends
        0 <= d < 16,
{
    if d < 10 {
        digit_char(d)
    } else {
        (87 + d) as char
    }
}

/// Lowercase hex rendering of a byte string: two digits per byte, high
/// nibble first.
pub open spec fn hex_of(b: Seq<u8>) -> Seq<char>
    decreases b.len(),
{
    if b.len() == 0 {
        Seq::empty()
    } else {
        hex_of(b.drop_last()) + seq![
            hex_digit(b.last() as int / 16),
            hex_digit(b.last() as int % 16),
        ]
    }
}

/// Relies on hex::encode of the hex crate: every input byte becomes two
/// lowercase hex digits, high nibble first, in input order.
#[verifier::external_body]
pub(crate) fn to_hex(b: &Vec<u8>) -> (r: String)
    ensures
        r@ == hex_of(b@),
{
    hex::encode(b)
}

/// Relies on String::push of std: appends exactly the given character.
#[verifier::external_body]
pub(crate) fn push_char(s: &mut String, c: char)
    ensures
        final(s)@ == old(s)@.push(c),
{
    s.push(c)
}

/// `x` is a Unicode scalar value, that is, a valid `char` code point.
pub open spec fn is_scalar_value(x: u32) -> bool {
    x < 0xD800 || (0xE000 <= x && x <= 0x10FFFF)
}

/// Relies on char::from_u32 of std: the character at every Unicode scalar
/// value, None at surrogates and beyond the Unicode range.
#[verifier::external_body]
pub(crate) fn char_from_u32(x: u32) -> (r: Option<char>)
    ensures
        r == (if is_scalar_value(x) {
            Some(x as char)
        } else {
            None::<char>
        }),
{
    char::from_u32(x)
}

/// Character-wise string equality.
pub fn str_eq(a: &str, b: &str) -> (r: bool)
    ensures
        r == (a@ == b@),
{
    let an = a.unicode_len();
    let bn = b.unicode_len();
    if an != bn {
        return false;
    }
    let mut i: usize = 0;
    while i < an
        invariant
            0 <= i <= an,
            an == a@.len(),
            an == b@.len(),
            forall|j: int| 0 <= j < i ==> a@[j] == b@[j],
        decreases an - i,
    {
        if a.get_char(i) != b.get_char(i) {
            return false;
        }
        i = i + 1;
    }
    proof {
        assert(a@ =~= b@);
    }
    true
}

/// Byte-wise equality of byte strings.
pub fn bytes_eq(a: &Vec<u8>, b: &Vec<u8>) -> (r: bool)
    ensures
        r == (a@ == b@),
{
    if a.len() != b.len() {
        return false;
    }
    let mut i: usize = 0;
    while i < a.len()
        invariant
            0 <= i <= a@.len(),
            a@.len() == b@.len(),
            forall|j: int| 0 <= j < i ==> a@[j] == b@[j],
        decreases a@.len() - i,
    {
        if a[i] != b[i] {
            return false;
        }
        i = i + 1;
    }
    proof {
        assert(a@ =~= b@);
    }
    true
}

/// ASCII case folding of one character: uppercase ASCII letters are lowered,
/// everything else is untouched.
pub open spec fn lower_char(c: char) -> char {
    if 65 <= c as int && c as int <= 90 {
        (c as int + 32) as char
    } else {
        c
    }
}

/// ASCII case folding of a string.
pub open spec fn ascii_lower(s: Seq<char>) -> Seq<char> {
    Seq::new(s.len(), |i: int| lower_char(s[i]))
}

/// Folds a string to ASCII lowercase, for the case-insensitive address
/// comparison of the dispatcher.
pub fn to_ascii_lower(s: &str) -> (r: String)
    ensures
        r@ == ascii_lower(s@),
{
    let n = s.unicode_len();
    let mut out = String::new();
    let mut i: usize = 0;
    while i < n
        invariant
            0 <= i <= n,
            n == s@.len(),
            out@ =~= ascii_lower(s@).take(i as int),
        decreases n - i,
    {
        let c = s.get_char(i);
        let u = c as u32;
        let lc = if u >= 65 && u <= 90 {
            match char_from_u32(u + 32) {
                Some(l) => l,
                None => c,
            }
        } else {
            c
        };
        assert(lc == lower_char(c));
        push_char(&mut out, lc);
        proof {
            assert(out@ =~= ascii_lower(s@).take(i + 1));
        }
        i = i + 1;
    }
    proof {
        assert(ascii_lower(s@).take(n as int) =~= ascii_lower(s@));
    }
    out
}

/// The decimal digit string of a non-negative integer, no leading zeros.
pub open spec fn dec_digits(n: int) -> Seq<char>
    recommends
        n >= 0,
    decreases n,
    when n >= 0
{
    if n < 10 {
        seq![digit_char(n)]
    } else {
        dec_digits(n / 10).push(digit_char(n % 10))
    }
}

/// The decimal rendering of a signed integer, as integer formatting in std
/// produces it: a `-` sign for negative values, then the digits.
pub open spec fn int_to_dec(v: int) -> Seq<char> {
    if v < 0 {
        seq!['-'] + dec_digits(-v)
    } else {
        dec_digits(v)
    }
}

proof fn lemma_dec_digits_shape(n: int)
    requires
        n >= 0,
    ensures
        dec_digits(n).len() >= 1,
        crate::numeric::all_digits(dec_digits(n)),
        crate::numeric::digits_val(dec_digits(n)) == n,
    decreases n,
{
    lemma_fundamental_div_mod(n, 10);
    if n < 10 {
        assert(crate::numeric::is_digit(digit_char(n)));
        assert(dec_digits(n) =~= seq![digit_char(n)]);
        assert(dec_digits(n).drop_last() =~= Seq::<char>::empty());
        assert(dec_digits(n).last() == digit_char(n));
        assert(crate::numeric::digits_val(Seq::<char>::empty()) == 0);
        assert(crate::numeric::digits_val(dec_digits(n)) == crate::numeric::digit_val(
            digit_char(n),
        ));
    } else {
        lemma_dec_digits_shape(n / 10);
        let head = dec_digits(n / 10);
        assert(crate::numeric::is_digit(digit_char(n % 10)));
        assert(dec_digits(n) =~= head.push(digit_char(n % 10)));
        assert(dec_digits(n).drop_last() =~= head);
        assert(dec_digits(n).last() == digit_char(n % 10));
        assert(crate::numeric::digits_val(dec_digits(n)) == crate::numeric::digits_val(head) * 10
            + crate::numeric::digit_val(digit_char(n % 10)));
    }
}

/// Every rendered amount is a well-formed base-10 signed integer string, and
/// reading it back in the lenient balance domain gives the amount itself:
/// formatting loses nothing on the whole signed 128-bit range.
pub proof fn lemma_amount_string_round_trip(v: int)
    requires
        i128::MIN <= v <= i128::MAX,
    ensures
        crate::numeric::is_signed_decimal(int_to_dec(v)),
        crate::numeric::parse_or_zero(int_to_dec(v)) == v,
{
    if v >= 0 {
        lemma_dec_digits_shape(v);
        let s = int_to_dec(v);
        assert(crate::numeric::is_digit(s[0]));
        assert(!(s[0] == '+' || s[0] == '-'));
        assert(crate::numeric::is_signed_decimal(s));
        assert(crate::numeric::decimal_value(s) == crate::numeric::digits_val(s));
    } else {
        lemma_dec_digits_shape(-v);
        let s = int_to_dec(v);
        assert(s =~= seq!['-'] + dec_digits(-v));
        assert(s[0] == '-');
        assert(s.subrange(1, s.len() as int) =~= dec_digits(-v));
        assert(crate::numeric::all_digits(s.subrange(1, s.len() as int)));
        assert(crate::numeric::is_signed_decimal(s));
        assert(crate::numeric::decimal_value(s) == -crate::numeric::digits_val(dec_digits(-v)));
    }
}

/// The digit characters of a digit-value stack, read top (least significant
/// digit last pushed) first.
spec fn rev_digit_chars(ds: Seq<u8>) -> Seq<char> {
    Seq::new(ds.len(), |i: int| digit_char(ds[ds.len() - 1 - i] as int))
}

/// Renders a signed 128-bit amount as its decimal string.
pub fn i128_to_string(v: i128) -> (s: String)
    ensures
        s@ == int_to_dec(v as int),
{
    let neg = v < 0;
    let mag: u128 = if v == i128::MIN {
        (i128::MAX as u128) + 1
    } else if v < 0 {
        (-v) as u128
    } else {
        v as u128
    };
    assert(mag as int == if v < 0 {
        -(v as int)
    } else {
        v as int
    });
    let mut digits: Vec<u8> = Vec::new();
    let mut cur: u128 = mag;
    loop
        invariant_except_break
            cur > 0 ==> dec_digits(mag as int) =~= dec_digits(cur as int) + rev_digit_chars(
                digits@,
            ),
            cur == 0 ==> mag == 0 && digits@.len() == 0,
            forall|k: int| 0 <= k < digits@.len() ==> digits@[k] < 10,
        ensures
            dec_digits(mag as int) =~= rev_digit_chars(digits@),
            forall|k: int| 0 <= k < digits@.len() ==> digits@[k] < 10,
        decreases cur,
    {
        let d: u8 = (cur % 10) as u8;
        let next = cur / 10;
        proof {
            lemma_fundamental_div_mod(cur as int, 10);
            assert(rev_digit_chars(digits@.push(d)) =~= seq![digit_char(d as int)]
                + rev_digit_chars(digits@));
            if cur >= 10 {
                assert(dec_digits(cur as int) == dec_digits(cur as int / 10).push(
                    digit_char(cur as int % 10),
                ));
                assert(dec_digits(cur as int) + rev_digit_chars(digits@) =~= dec_digits(
                    next as int,
                ) + rev_digit_chars(digits@.push(d)));
            } else {
                assert(dec_digits(cur as int) =~= seq![digit_char(d as int)]);
                assert(next == 0);
            }
            if cur == 0 {
                assert(mag == 0);
                assert(dec_digits(0) =~= seq![digit_char(0)]);
                assert(rev_digit_chars(digits@.push(0u8)) =~= seq![digit_char(0)]);
            }
        }
        digits.push(d);
        cur = next;
        if cur == 0 {
            break;
        }
    }
    let mut out = String::new();
    if neg {
        push_char(&mut out, '-');
    }
    let ghost prefix = out@;
    assert(prefix == if neg {
        seq!['-']
    } else {
        Seq::<char>::empty()
    });
    let total = digits.len();
    let mut j: usize = 0;
    while j < total
        invariant
            0 <= j <= total,
            total == digits@.len(),
            forall|k: int| 0 <= k < digits@.len() ==> digits@[k] < 10,
            out@ =~= prefix + rev_digit_chars(digits@).take(j as int),
        decreases total - j,
    {
        let d = digits[total - 1 - j];
        push_char(&mut out, (48 + d) as char);
        proof {
            assert(rev_digit_chars(digits@)[j as int] == digit_char(digits@[total - 1 - j] as int));
            assert(out@ =~= prefix + rev_digit_chars(digits@).take(j + 1));
        }
        j = j + 1;
    }
    proof {
        assert(rev_digit_chars(digits@).take(total as int) =~= rev_digit_chars(digits@));
        assert(out@ =~= prefix + dec_digits(mag as int));
        if neg {
            assert(out@ =~= int_to_dec(v as int));
        } else {
            assert(Seq::<char>::empty() + dec_digits(mag as int) =~= dec_digits(mag as int));
        }
    }
    out
}

} // verus!
