//! Verified numeric token handling: decimal printing and parsing, the
//! digit-filtered node-id reading used on GraphML ids, and the token grammars
//! that drive attribute type inference.
//!
//! The float grammar follows the documented `f64` parsing syntax: an optional
//! sign, then `inf`, `infinity` or `nan` (case-insensitive) or a decimal
//! number with optional fraction and exponent. The JSON number grammar is the
//! convention used by this crate's dict/list encoding: an optional minus,
//! digits, an optional fraction with at least one digit, and an optional
//! exponent.

use vstd::prelude::*;
use vstd::arithmetic::div_mod::lemma_fundamental_div_mod;

verus! {

pub open spec fn is_digit_char(c: char) -> bool {
    48 <= c as int && c as int <= 57
}

pub open spec fn digit_val(c: char) -> int {
    c as int - 48
}

pub fn digit_char(c: char) -> (r: bool)
    ensures
        r == is_digit_char(c),
{
    let u = c as u32;
    48 <= u && u <= 57
}

pub open spec fn spec_digit_char(d: int) -> char {
    if d == 0 {
        '0'
    } else if d == 1 {
        '1'
    } else if d == 2 {
        '2'
    } else if d == 3 {
        '3'
    } else if d == 4 {
        '4'
    } else if d == 5 {
        '5'
    } else if d == 6 {
        '6'
    } else if d == 7 {
        '7'
    } else if d == 8 {
        '8'
    } else {
        '9'
    }
}

proof fn lemma_digit_char_val(d: int)
    requires
        0 <= d < 10,
    ensures
        is_digit_char(spec_digit_char(d)),
        digit_val(spec_digit_char(d)) == d,
{
}

/// The one-character string for a decimal digit.
fn digit_str(d: u8) -> (r: &'static str)
    requires
        d < 10,
    ensures
        r@.len() == 1,
        r@[0] == spec_digit_char(d as int),
{
    proof {
        reveal_strlit("0");
        reveal_strlit("1");
        reveal_strlit("2");
        reveal_strlit("3");
        reveal_strlit("4");
        reveal_strlit("5");
        reveal_strlit("6");
        reveal_strlit("7");
        reveal_strlit("8");
        reveal_strlit("9");
    }
    match d {
        0 => "0",
        1 => "1",
        2 => "2",
        3 => "3",
        4 => "4",
        5 => "5",
        6 => "6",
        7 => "7",
        8 => "8",
        _ => "9",
    }
}

/// The decimal digit sequence of a nonnegative integer, most significant
/// digit first, without leading zeros (a single `0` for zero).
pub open spec fn spec_dec_digits(n: int) -> Seq<char>
    decreases n,
    when n >= 0
{
    if n < 10 {
        seq![spec_digit_char(n)]
    } else {
        spec_dec_digits(n / 10).push(spec_digit_char(n % 10))
    }
}

/// Render a `u64` in decimal.
pub fn u64_to_string(n: u64) -> (r: String)
    ensures
        r@ == spec_dec_digits(n as int),
    decreases n,
{
    if n < 10 {
        let mut s = String::new();
        s.append(digit_str(n as u8));
        proof {
            assert(s@ =~= spec_dec_digits(n as int));
        }
        s
    } else {
        let mut s = u64_to_string(n / 10);
        s.append(digit_str((n % 10) as u8));
        proof {
            assert(s@ =~= spec_dec_digits(n as int));
        }
        s
    }
}

/// The numeric value of a digit sequence read in base ten.
pub open spec fn digits_val(s: Seq<char>) -> int
    decreases s.len(),
{
    if s.len() == 0 {
        0
    } else {
        digits_val(s.drop_last()) * 10 + digit_val(s.last())
    }
}

pub open spec fn all_digits(s: Seq<char>) -> bool {
    forall|i: int| 0 <= i < s.len() ==> is_digit_char(s[i])
}

proof fn lemma_digits_val_nonneg(s: Seq<char>)
    requires
        all_digits(s),
    ensures
        digits_val(s) >= 0,
    decreases s.len(),
{
    if s.len() > 0 {
        assert(all_digits(s.drop_last()));
        lemma_digits_val_nonneg(s.drop_last());
    }
}

/// Extending a digit sequence never lowers its value.
proof fn lemma_digits_val_extend(s: Seq<char>, i: int)
    requires
        0 <= i <= s.len(),
        all_digits(s),
    ensures
        digits_val(s) >= digits_val(s.take(i)),
    decreases s.len() - i,
{
    if i < s.len() {
        assert(s.take(i + 1).drop_last() =~= s.take(i));
        assert(all_digits(s.take(i)));
        lemma_digits_val_nonneg(s.take(i));
        assert(digits_val(s.take(i + 1)) >= digits_val(s.take(i)));
        lemma_digits_val_extend(s, i + 1);
    } else {
        assert(s.take(i) =~= s);
    }
}

/// Printing and reading back a decimal number is the identity.
pub proof fn lemma_dec_digits_val(n: int)
    requires
        n >= 0,
    ensures
        all_digits(spec_dec_digits(n)),
        digits_val(spec_dec_digits(n)) == n,
        spec_dec_digits(n).len() >= 1,
    decreases n,
{
    if n < 10 {
        lemma_digit_char_val(n);
        assert(spec_dec_digits(n).drop_last() =~= Seq::<char>::empty());
        assert(spec_dec_digits(n).last() == spec_digit_char(n));
        assert(digits_val(Seq::<char>::empty()) == 0);
        assert(digits_val(spec_dec_digits(n)) == digit_val(spec_digit_char(n)));
    } else {
        lemma_dec_digits_val(n / 10);
        lemma_digit_char_val(n % 10);
        lemma_fundamental_div_mod(n, 10);
        assert(spec_dec_digits(n).drop_last() =~= spec_dec_digits(n / 10));
        assert(spec_dec_digits(n).last() == spec_digit_char(n % 10));
        assert(digits_val(spec_dec_digits(n)) == (n / 10) * 10 + n % 10);
    }
}

/// A leading `+` sign, if any, removed.
pub open spec fn spec_num_body(s: Seq<char>) -> Seq<char> {
    if s.len() > 0 && s.first() == '+' {
        s.drop_first()
    } else {
        s
    }
}

/// The token parses as an unsigned 32-bit integer: an optional `+` sign,
/// then one or more digits whose value fits.
pub open spec fn is_u32_token(s: Seq<char>) -> bool {
    let b = spec_num_body(s);
    b.len() > 0 && all_digits(b) && digits_val(b) <= u32::MAX as int
}

/// Parse a `u32` token; `None` exactly when the token does not parse.
pub fn parse_u32_token(s: &str) -> (r: Option<u32>)
    ensures
        r is Some <==> is_u32_token(s@),
        r matches Some(v) ==> v as int == digits_val(spec_num_body(s@)),
{
    let len = s.unicode_len();
    let start: usize = if len > 0 && s.get_char(0) == '+' {
        1
    } else {
        0
    };
    let ghost b = spec_num_body(s@);
    proof {
        assert(b =~= s@.subrange(start as int, len as int));
    }
    if start == len {
        return None;
    }
    let mut acc: u64 = 0;
    let mut i: usize = start;
    while i < len
        invariant
            start <= i <= len,
            len == s@.len(),
            b =~= s@.subrange(start as int, len as int),
            start < len,
            all_digits(b.take(i - start)),
            acc as int == digits_val(b.take(i - start)),
            acc <= u32::MAX as u64,
        decreases len - i,
    {
        let c = s.get_char(i);
        if !digit_char(c) {
            proof {
                assert(b[i - start] == s@[i as int]);
            }
            return None;
        }
        let d: u64 = (c as u32 - 48) as u64;
        let next: u64 = acc * 10 + d;
        proof {
            assert(b.take(i - start + 1).drop_last() =~= b.take(i - start));
            assert(b.take(i - start + 1).last() == s@[i as int]);
            assert(next as int == digits_val(b.take(i - start + 1)));
        }
        if next > u32::MAX as u64 {
            proof {
                if all_digits(b) {
                    lemma_digits_val_extend(b, i - start + 1);
                }
            }
            return None;
        }
        acc = next;
        i = i + 1;
    }
    proof {
        assert(b.take(len - start) =~= b);
    }
    Some(acc as u32)
}

/// The subsequence of decimal digits, other characters dropped.
pub open spec fn digits_of(s: Seq<char>) -> Seq<char>
    decreases s.len(),
{
    if s.len() == 0 {
        Seq::empty()
    } else {
        let p = digits_of(s.drop_last());
        if is_digit_char(s.last()) {
            p.push(s.last())
        } else {
            p
        }
    }
}

pub proof fn lemma_digits_of_all_digits(s: Seq<char>)
    ensures
        all_digits(digits_of(s)),
    decreases s.len(),
{
    if s.len() > 0 {
        lemma_digits_of_all_digits(s.drop_last());
    }
}

pub proof fn lemma_digits_of_concat(a: Seq<char>, b: Seq<char>)
    ensures
        digits_of(a + b) == digits_of(a) + digits_of(b),
    decreases b.len(),
{
    if b.len() == 0 {
        assert(a + b =~= a);
        assert(digits_of(a) + digits_of(b) =~= digits_of(a));
    } else {
        assert((a + b).drop_last() =~= a + b.drop_last());
        lemma_digits_of_concat(a, b.drop_last());
        if is_digit_char(b.last()) {
            assert(digits_of(a) + digits_of(b) =~= (digits_of(a) + digits_of(b.drop_last())).push(
                b.last(),
            ));
        } else {
            assert(digits_of(a) + digits_of(b) =~= digits_of(a) + digits_of(b.drop_last()));
        }
    }
}

/// Filtering an all-digit sequence keeps it whole.
pub proof fn lemma_digits_of_identity(s: Seq<char>)
    requires
        all_digits(s),
    ensures
        digits_of(s) == s,
    decreases s.len(),
{
    if s.len() > 0 {
        assert(all_digits(s.drop_last()));
        lemma_digits_of_identity(s.drop_last());
        assert(digits_of(s) =~= s);
    } else {
        assert(digits_of(s) =~= s);
    }
}

/// The value carried by the digits of `s`, every other character ignored:
/// how a GraphML node id such as `n17` reads as the number `17`.
pub open spec fn spec_digits_value(s: Seq<char>) -> Option<u32> {
    let d = digits_of(s);
    if d.len() > 0 && digits_val(d) <= u32::MAX as int {
        Some(digits_val(d) as u32)
    } else {
        None
    }
}

/// Read the digits of `s` as a `u32`, ignoring every other character.
pub fn digits_value(s: &str) -> (r: Option<u32>)
    ensures
        r == spec_digits_value(s@),
{
    let len = s.unicode_len();
    let mut acc: u64 = 0;
    let mut seen = false;
    let mut i: usize = 0;
    while i < len
        invariant
            0 <= i <= len,
            len == s@.len(),
            seen == (digits_of(s@.take(i as int)).len() > 0),
            acc as int == digits_val(digits_of(s@.take(i as int))),
            acc <= u32::MAX as u64,
        decreases len - i,
    {
        let c = s.get_char(i);
        proof {
            assert(s@.take(i + 1).drop_last() =~= s@.take(i as int));
            assert(s@.take(i + 1).last() == s@[i as int]);
        }
        if digit_char(c) {
            let d: u64 = (c as u32 - 48) as u64;
            let next: u64 = acc * 10 + d;
            proof {
                lemma_digits_of_all_digits(s@.take(i as int));
                let p = digits_of(s@.take(i as int));
                assert(digits_of(s@.take(i + 1)) == p.push(s@[i as int]));
                assert(p.push(s@[i as int]).drop_last() =~= p);
                assert(p.push(s@[i as int]).last() == s@[i as int]);
                assert(next as int == digits_val(digits_of(s@.take(i + 1))));
            }
            if next > u32::MAX as u64 {
                proof {
                    assert(s@.take(i + 1) + s@.skip(i + 1) =~= s@);
                    lemma_digits_of_concat(s@.take(i + 1), s@.skip(i + 1));
                    lemma_digits_of_all_digits(s@);
                    lemma_digits_val_extend(digits_of(s@), digits_of(s@.take(i + 1)).len() as int);
                    assert(digits_of(s@).take(digits_of(s@.take(i + 1)).len() as int) =~= digits_of(
                        s@.take(i + 1),
                    ));
                }
                return None;
            }
            acc = next;
            seen = true;
        }
        i = i + 1;
    }
    proof {
        assert(s@.take(len as int) =~= s@);
    }
    if seen {
        Some(acc as u32)
    } else {
        None
    }
}

pub open spec fn is_sign_char(c: char) -> bool {
    c == '+' || c == '-'
}

/// A leading sign, if any, removed.
pub open spec fn spec_sign_body(s: Seq<char>) -> Seq<char> {
    if s.len() > 0 && is_sign_char(s.first()) {
        s.drop_first()
    } else {
        s
    }
}

/// End of the digit run that starts at `i`.
pub open spec fn digits_end(s: Seq<char>, i: int) -> int
    decreases s.len() - i,
    when 0 <= i <= s.len()
{
    if i < s.len() && is_digit_char(s[i]) {
        digits_end(s, i + 1)
    } else {
        i
    }
}

pub proof fn lemma_digits_end(s: Seq<char>, i: int)
    requires
        0 <= i <= s.len(),
    ensures
        i <= digits_end(s, i) <= s.len(),
        forall|j: int| i <= j < digits_end(s, i) ==> is_digit_char(#[trigger] s[j]),
        digits_end(s, i) < s.len() ==> !is_digit_char(s[digits_end(s, i)]),
    decreases s.len() - i,
{
    if i < s.len() && is_digit_char(s[i]) {
        lemma_digits_end(s, i + 1);
    }
}

fn digits_end_exec(s: &str, i: usize) -> (r: usize)
    requires
        i <= s@.len(),
    ensures
        r as int == digits_end(s@, i as int),
        i <= r <= s@.len(),
{
    let len = s.unicode_len();
    let mut cur = i;
    while cur < len && digit_char(s.get_char(cur))
        invariant
            i <= cur <= len,
            len == s@.len(),
            digits_end(s@, i as int) == digits_end(s@, cur as int),
        decreases len - cur,
    {
        cur = cur + 1;
    }
    cur
}

pub open spec fn eqi(c: char, lower: char, upper: char) -> bool {
    c == lower || c == upper
}

pub open spec fn is_inf_token(b: Seq<char>) -> bool {
    b.len() == 3 && eqi(b[0], 'i', 'I') && eqi(b[1], 'n', 'N') && eqi(b[2], 'f', 'F')
}

pub open spec fn is_infinity_token(b: Seq<char>) -> bool {
    b.len() == 8 && eqi(b[0], 'i', 'I') && eqi(b[1], 'n', 'N') && eqi(b[2], 'f', 'F') && eqi(
        b[3],
        'i',
        'I',
    ) && eqi(b[4], 'n', 'N') && eqi(b[5], 'i', 'I') && eqi(b[6], 't', 'T') && eqi(b[7], 'y', 'Y')
}

pub open spec fn is_nan_token(b: Seq<char>) -> bool {
    b.len() == 3 && eqi(b[0], 'n', 'N') && eqi(b[1], 'a', 'A') && eqi(b[2], 'n', 'N')
}

/// From position `p` on, the sequence is empty or a well-formed exponent
/// (`e`/`E`, optional sign, one or more digits) that runs to the end.
pub open spec fn exp_ok_from(b: Seq<char>, p: int) -> bool {
    p == b.len() || (0 <= p < b.len() && eqi(b[p], 'e', 'E') && {
        let q = if p + 1 < b.len() && is_sign_char(b[p + 1]) {
            p + 2
        } else {
            p + 1
        };
        q <= b.len() && digits_end(b, q) > q && digits_end(b, q) == b.len()
    })
}

/// A signless float body: `inf`, `infinity`, `nan` (case-insensitive) or a
/// decimal number per the documented float grammar.
pub open spec fn is_float_body(b: Seq<char>) -> bool {
    is_inf_token(b) || is_infinity_token(b) || is_nan_token(b) || {
        let d1 = digits_end(b, 0);
        if d1 > 0 {
            let p = if d1 < b.len() && b[d1] == '.' {
                digits_end(b, d1 + 1)
            } else {
                d1
            };
            exp_ok_from(b, p)
        } else if b.len() > 0 && b[0] == '.' {
            let d2 = digits_end(b, 1);
            d2 > 1 && exp_ok_from(b, d2)
        } else {
            false
        }
    }
}

/// The token parses as a 64-bit float.
pub open spec fn is_float_token(s: Seq<char>) -> bool {
    is_float_body(spec_sign_body(s))
}

fn exp_ok_exec(b: &str, p: usize) -> (r: bool)
    requires
        p <= b@.len(),
    ensures
        r == exp_ok_from(b@, p as int),
{
    let len = b.unicode_len();
    if p == len {
        return true;
    }
    let c = b.get_char(p);
    if !(c == 'e' || c == 'E') {
        return false;
    }
    let q: usize = if p + 1 < len {
        let c2 = b.get_char(p + 1);
        if c2 == '+' || c2 == '-' {
            p + 2
        } else {
            p + 1
        }
    } else {
        p + 1
    };
    let de = digits_end_exec(b, q);
    de > q && de == len
}

/// Does the token parse as a 64-bit float?
pub fn is_float(s: &str) -> (r: bool)
    ensures
        r == is_float_token(s@),
{
    let len = s.unicode_len();
    let start: usize = if len > 0 {
        let c = s.get_char(0);
        if c == '+' || c == '-' {
            1
        } else {
            0
        }
    } else {
        0
    };
    let b = s.substring_char(start, len);
    proof {
        assert(b@ =~= spec_sign_body(s@));
    }
    let blen = b.unicode_len();
    if blen == 3 {
        let c0 = b.get_char(0);
        let c1 = b.get_char(1);
        let c2 = b.get_char(2);
        if (c0 == 'i' || c0 == 'I') && (c1 == 'n' || c1 == 'N') && (c2 == 'f' || c2 == 'F') {
            return true;
        }
        if (c0 == 'n' || c0 == 'N') && (c1 == 'a' || c1 == 'A') && (c2 == 'n' || c2 == 'N') {
            return true;
        }
    }
    if blen == 8 {
        let c0 = b.get_char(0);
        let c1 = b.get_char(1);
        let c2 = b.get_char(2);
        let c3 = b.get_char(3);
        let c4 = b.get_char(4);
        let c5 = b.get_char(5);
        let c6 = b.get_char(6);
        let c7 = b.get_char(7);
        if (c0 == 'i' || c0 == 'I') && (c1 == 'n' || c1 == 'N') && (c2 == 'f' || c2 == 'F') && (c3
            == 'i' || c3 == 'I') && (c4 == 'n' || c4 == 'N') && (c5 == 'i' || c5 == 'I') && (c6
            == 't' || c6 == 'T') && (c7 == 'y' || c7 == 'Y') {
            return true;
        }
    }
    let d1 = digits_end_exec(b, 0);
    if d1 > 0 {
        let p: usize = if d1 < blen && b.get_char(d1) == '.' {
            digits_end_exec(b, d1 + 1)
        } else {
            d1
        };
        exp_ok_exec(b, p)
    } else if blen > 0 && b.get_char(0) == '.' {
        let d2 = digits_end_exec(b, 1);
        if d2 > 1 {
            exp_ok_exec(b, d2)
        } else {
            false
        }
    } else {
        false
    }
}

/// A number in this crate's dict/list encoding: an optional minus, one or
/// more digits, an optional fraction with at least one digit, an optional
/// exponent.
pub open spec fn is_json_num(s: Seq<char>) -> bool {
    let st: int = if s.len() > 0 && s[0] == '-' {
        1
    } else {
        0
    };
    st < s.len() && {
        let d1 = digits_end(s, st);
        d1 > st && {
            let p: int = if d1 < s.len() && s[d1] == '.' {
                let d2 = digits_end(s, d1 + 1);
                if d2 > d1 + 1 {
                    d2
                } else {
                    -1
                }
            } else {
                d1
            };
            p >= 0 && exp_ok_from(s, p)
        }
    }
}

/// Does the token match this crate's dict/list number grammar?
pub fn json_num(s: &str) -> (r: bool)
    ensures
        r == is_json_num(s@),
{
    let len = s.unicode_len();
    let st: usize = if len > 0 && s.get_char(0) == '-' {
        1
    } else {
        0
    };
    if st >= len {
        return false;
    }
    let d1 = digits_end_exec(s, st);
    if d1 <= st {
        return false;
    }
    if d1 < len && s.get_char(d1) == '.' {
        let d2 = digits_end_exec(s, d1 + 1);
        if d2 > d1 + 1 {
            exp_ok_exec(s, d2)
        } else {
            false
        }
    } else {
        exp_ok_exec(s, d1)
    }
}

/// A leading plus sign, if any, removed: how an explicitly positive integer
/// token is printed without it.
pub open spec fn spec_strip_plus(s: Seq<char>) -> Seq<char> {
    if s.len() > 0 && s.first() == '+' {
        s.drop_first()
    } else {
        s
    }
}

/// An integer-shaped token: an optional sign, then one or more digits.
pub open spec fn is_int_token(s: Seq<char>) -> bool {
    let b = spec_sign_body(s);
    b.len() > 0 && all_digits(b)
}

/// Is the token an optional sign followed by digits?
pub fn int_token(s: &str) -> (r: bool)
    ensures
        r == is_int_token(s@),
{
    let len = s.unicode_len();
    let start: usize = if len > 0 {
        let c = s.get_char(0);
        if c == '+' || c == '-' {
            1
        } else {
            0
        }
    } else {
        0
    };
    proof {
        assert(spec_sign_body(s@) =~= s@.subrange(start as int, len as int));
    }
    if start == len {
        return false;
    }
    let mut i = start;
    while i < len
        invariant
            start <= i <= len,
            len == s@.len(),
            forall|j: int| start <= j < i ==> is_digit_char(s@[j]),
        decreases len - i,
    {
        if !digit_char(s.get_char(i)) {
            proof {
                assert(spec_sign_body(s@)[i - start] == s@[i as int]);
            }
            return false;
        }
        i = i + 1;
    }
    proof {
        assert(forall|j: int|
            0 <= j < spec_sign_body(s@).len() ==> spec_sign_body(s@)[j] == s@[j + start]);
    }
    true
}

} // verus!
