//! The core-schema scalar typing rules: how a plain scalar's text is
//! coerced to a typed node, and how an explicit core tag overrides it.
use vstd::prelude::*;
use crate::value::{NodeV, YamlInput};
use crate::text::chars_of;

verus! {

// --- digits and signs ---

/// A decimal digit.
pub open spec fn is_dec_digit(c: char) -> bool {
    48 <= c as u32 <= 57
}

/// A digit of the given radix (8, 10 or 16; hex accepts both letter
/// cases).
pub open spec fn digit_ok(c: char, radix: u32) -> bool {
    let u = c as u32;
    if radix == 16 {
        (48 <= u <= 57) || (97 <= u <= 102) || (65 <= u <= 70)
    } else if radix == 8 {
        48 <= u <= 55
    } else {
        48 <= u <= 57
    }
}

/// The numeric value of a digit character.
pub open spec fn digit_val(c: char) -> int {
    let u = c as u32;
    if 97 <= u {
        u - 87
    } else if 65 <= u {
        u - 55
    } else {
        u - 48
    }
}

/// Whether the text starts with an explicit sign.
pub open spec fn has_sign(s: Seq<char>) -> bool {
    s.len() > 0 && (s[0] == '+' || s[0] == '-')
}

/// Whether the text starts with a minus sign.
pub open spec fn sign_neg(s: Seq<char>) -> bool {
    s.len() > 0 && s[0] == '-'
}

/// The text with one leading sign removed.
pub open spec fn num_body(s: Seq<char>) -> Seq<char> {
    if has_sign(s) {
        s.skip(1)
    } else {
        s
    }
}

// --- integer literals ---

/// The magnitude denoted by a digit string, most significant first.
pub open spec fn mag(s: Seq<char>, radix: u32) -> int
    decreases s,
{
    if s.len() == 0 {
        0
    } else {
        mag(s.drop_last(), radix) * radix + digit_val(s.last())
    }
}

/// An optionally signed, non-empty digit string in the given radix.
pub open spec fn valid_int_text(s: Seq<char>, radix: u32) -> bool {
    let b = num_body(s);
    b.len() > 0 && forall|i: int| 0 <= i < b.len() ==> digit_ok(#[trigger] b[i], radix)
}

/// The signed value denoted by an integer literal.
pub open spec fn int_text_val(s: Seq<char>, radix: u32) -> int {
    if sign_neg(s) {
        -mag(num_body(s), radix)
    } else {
        mag(num_body(s), radix)
    }
}

/// What parsing the text as a signed 64-bit integer of the given
/// radix yields: its value when the text is a well-formed literal
/// whose value fits, and nothing otherwise.
pub open spec fn parse_int_spec(s: Seq<char>, radix: u32) -> Option<i64> {
    if valid_int_text(s, radix) && i64::MIN <= int_text_val(s, radix) <= i64::MAX {
        Some(int_text_val(s, radix) as i64)
    } else {
        None
    }
}

proof fn lemma_mag_nonneg(s: Seq<char>, radix: u32)
    requires
        forall|i: int| 0 <= i < s.len() ==> digit_ok(#[trigger] s[i], radix),
    ensures
        mag(s, radix) >= 0,
    decreases s.len(),
{
    if s.len() > 0 {
        lemma_mag_nonneg(s.drop_last(), radix);
        assert(digit_ok(s.last(), radix));
        assert(mag(s.drop_last(), radix) * radix >= 0) by (nonlinear_arith)
            requires
                mag(s.drop_last(), radix) >= 0,
                radix >= 0,
        ;
    }
}

proof fn lemma_mag_mono(s: Seq<char>, radix: u32, i: int)
    requires
        radix >= 1,
        0 <= i <= s.len(),
        forall|j: int| 0 <= j < s.len() ==> digit_ok(#[trigger] s[j], radix),
    ensures
        mag(s.take(i), radix) <= mag(s, radix),
    decreases s.len(),
{
    if i < s.len() {
        assert(s.take(i) =~= s.drop_last().take(i));
        lemma_mag_mono(s.drop_last(), radix, i);
        lemma_mag_nonneg(s.drop_last(), radix);
        assert(mag(s.drop_last(), radix) * radix >= mag(s.drop_last(), radix)) by (
        nonlinear_arith)
            requires
                mag(s.drop_last(), radix) >= 0,
                radix >= 1,
        ;
        assert(digit_ok(s.last(), radix));
    } else {
        assert(s.take(i) =~= s);
    }
}

/// The numeric value of a digit in the given radix, when it is one.
fn digit_of(c: char, radix: u32) -> (r: Option<u32>)
    requires
        radix == 8 || radix == 10 || radix == 16,
    ensures
        match r {
            Some(v) => digit_ok(c, radix) && v == digit_val(c),
            None => !digit_ok(c, radix),
        },
{
    let u = c as u32;
    if 48 <= u && u <= 57 && (radix != 8 || u <= 55) {
        Some(u - 48)
    } else if radix == 16 && 97 <= u && u <= 102 {
        Some(u - 87)
    } else if radix == 16 && 65 <= u && u <= 70 {
        Some(u - 55)
    } else {
        None
    }
}

/// Parses the characters from `start` on as an optionally signed
/// integer literal of the given radix, with 64-bit range checking.
pub fn parse_int_chars(cs: &Vec<char>, start: usize, radix: u32) -> (r: Option<i64>)
    requires
        radix == 8 || radix == 10 || radix == 16,
        start <= cs@.len(),
    ensures
        r == parse_int_spec(cs@.skip(start as int), radix),
{
    let ghost s = cs@.skip(start as int);
    let n = cs.len();
    if start == n {
        return None;
    }
    let c0 = cs[start];
    let neg = c0 == '-';
    let i0: usize = if c0 == '-' || c0 == '+' {
        start + 1
    } else {
        start
    };
    proof {
        assert(num_body(s) =~= cs@.skip(i0 as int));
        assert(sign_neg(s) == neg);
    }
    let ghost b = cs@.skip(i0 as int);
    if i0 == n {
        // a bare sign has an empty body
        assert(!valid_int_text(s, radix));
        return None;
    }
    let mut acc: u128 = 0;
    let mut i: usize = i0;
    while i < n
        invariant
            radix == 8 || radix == 10 || radix == 16,
            i0 <= i <= n,
            i0 < n,
            n == cs@.len(),
            b == cs@.skip(i0 as int),
            s == cs@.skip(start as int),
            num_body(s) == b,
            sign_neg(s) == neg,
            acc == mag(b.take(i - i0), radix),
            acc <= 0x8000_0000_0000_0000u128,
            forall|j: int| 0 <= j < i - i0 ==> digit_ok(#[trigger] b[j], radix),
        decreases n - i,
    {
        let d = match digit_of(cs[i], radix) {
            Some(d) => d,
            None => {
                // not a digit: the literal is malformed
                proof {
                    assert(b[i - i0] == cs@[i as int]);
                    assert(!digit_ok(b[i - i0], radix));
                }
                return None;
            },
        };
        proof {
            assert(b[i - i0] == cs@[i as int]);
            assert(b.take(i + 1 - i0).drop_last() =~= b.take(i - i0));
            assert(b.take(i + 1 - i0).last() == b[i - i0]);
            assert(acc * (radix as u128) <= 0x8000_0000_0000_0000u128 * 16) by (nonlinear_arith)
                requires
                    acc <= 0x8000_0000_0000_0000u128,
                    radix <= 16,
            ;
        }
        acc = acc * (radix as u128) + (d as u128);
        i = i + 1;
        if acc > 0x8000_0000_0000_0000u128 {
            // the magnitude can only grow from here: out of range
            proof {
                if valid_int_text(s, radix) {
                    lemma_mag_mono(b, radix, i - i0);
                    lemma_mag_nonneg(b, radix);
                }
            }
            return None;
        }
    }
    proof {
        assert(b.take(i - i0) =~= b);
        assert(valid_int_text(s, radix));
    }
    if neg {
        if acc == 0x8000_0000_0000_0000u128 {
            Some(i64::MIN)
        } else {
            Some(-(acc as i64))
        }
    } else {
        if acc <= 0x7fff_ffff_ffff_ffffu128 {
            Some(acc as i64)
        } else {
            None
        }
    }
}

// --- float literals ---

/// An exponent marker.
pub open spec fn is_exp_char(c: char) -> bool {
    c == 'e' || c == 'E'
}

/// Every character is a decimal digit.
pub open spec fn all_digits(s: Seq<char>) -> bool {
    forall|i: int| 0 <= i < s.len() ==> is_dec_digit(#[trigger] s[i])
}

/// The lower-cased code point of an ASCII letter.
pub open spec fn lc(c: char) -> int {
    let u = c as u32;
    if 65 <= u <= 90 {
        u + 32
    } else {
        u as int
    }
}

/// `inf` in any letter case.
pub open spec fn ci_inf(s: Seq<char>) -> bool {
    s.len() == 3 && lc(s[0]) == 105 && lc(s[1]) == 110 && lc(s[2]) == 102
}

/// The code points of `infinity`.
pub open spec fn infinity_word() -> Seq<int> {
    seq![105, 110, 102, 105, 110, 105, 116, 121]
}

/// `infinity` in any letter case.
pub open spec fn ci_infinity(s: Seq<char>) -> bool {
    s.len() == 8 && forall|j: int| 0 <= j < 8 ==> lc(#[trigger] s[j]) == infinity_word()[j]
}

/// `nan` in any letter case.
pub open spec fn ci_nan(s: Seq<char>) -> bool {
    s.len() == 3 && lc(s[0]) == 110 && lc(s[1]) == 97 && lc(s[2]) == 110
}

/// The mantissa of a decimal float literal: digits with at most one
/// dot, and at least one digit somewhere.
pub open spec fn mantissa(m: Seq<char>) -> bool {
    (m.len() > 0 && all_digits(m)) || (exists|d: int|
        0 <= d < m.len() && #[trigger] m[d] == '.' && all_digits(m.take(d)) && all_digits(
            m.skip(d + 1),
        ) && m.len() > 1)
}

/// An optionally signed non-empty digit string.
pub open spec fn signed_digits(e: Seq<char>) -> bool {
    num_body(e).len() > 0 && all_digits(num_body(e))
}

/// A decimal float literal body: a mantissa, optionally followed by
/// an exponent part.
pub open spec fn dec_number(b: Seq<char>) -> bool {
    exists|k: int|
        0 <= k <= b.len() && (k == b.len() || is_exp_char(b[k])) && mantissa(#[trigger] b.take(k))
            && (k < b.len() ==> signed_digits(b.skip(k + 1)))
}

/// The float grammar of the standard library: an optional sign, then
/// a case-insensitive keyword or a decimal number.
pub open spec fn rust_float(s: Seq<char>) -> bool {
    let b = num_body(s);
    ci_inf(b) || ci_infinity(b) || ci_nan(b) || dec_number(b)
}

/// `inf` spelled with a leading dot, in the three accepted spellings.
pub open spec fn dot_inf_word(s: Seq<char>) -> bool {
    s.len() == 3 && ((s[0] == 'i' && s[1] == 'n' && s[2] == 'f') || (s[0] == 'I' && s[1] == 'n'
        && s[2] == 'f') || (s[0] == 'I' && s[1] == 'N' && s[2] == 'F'))
}

/// The dotted infinity and not-a-number spellings that the core
/// schema accepts beyond the standard float grammar.
pub open spec fn is_special_real(s: Seq<char>) -> bool {
    (s.len() == 4 && s[0] == '.' && dot_inf_word(s.skip(1))) || (s.len() == 5 && (s[0] == '+'
        || s[0] == '-') && s[1] == '.' && dot_inf_word(s.skip(2))) || (s.len() == 4 && s[0] == '.'
        && ((s[1] == 'n' && s[2] == 'a' && s[3] == 'n') || (s[1] == 'N' && s[2] == 'A' && s[3]
        == 'N'))) || (s.len() == 3 && s[0] == 'N' && s[1] == 'a' && s[2] == 'N')
}

/// A float literal of the core schema: a dotted special spelling, or
/// anything the standard library's float parser accepts.
pub open spec fn is_real_text(s: Seq<char>) -> bool {
    is_special_real(s) || rust_float(s)
}

/// Whether a character is a decimal digit.
pub fn is_digit_ex(c: char) -> (b: bool)
    ensures
        b == is_dec_digit(c),
{
    let u = c as u32;
    48 <= u && u <= 57
}

/// Lower-cases an ASCII letter's code point.
fn lc_ex(c: char) -> (r: u32)
    ensures
        r == lc(c),
{
    let u = c as u32;
    if 65 <= u && u <= 90 {
        u + 32
    } else {
        u
    }
}

/// Whether all characters in `[from, to)` are decimal digits.
fn all_digits_range(cs: &Vec<char>, from: usize, to: usize) -> (b: bool)
    requires
        from <= to <= cs@.len(),
    ensures
        b == all_digits(cs@.subrange(from as int, to as int)),
{
    let ghost seg = cs@.subrange(from as int, to as int);
    let mut i: usize = from;
    while i < to
        invariant
            from <= i <= to <= cs@.len(),
            seg == cs@.subrange(from as int, to as int),
            forall|j: int| 0 <= j < i - from ==> is_dec_digit(#[trigger] seg[j]),
        decreases to - i,
    {
        proof {
            assert(seg[i - from] == cs@[i as int]);
        }
        if !is_digit_ex(cs[i]) {
            return false;
        }
        i = i + 1;
    }
    true
}

/// Finds the first exponent marker at or after `from`, or the length.
fn find_exp(cs: &Vec<char>, from: usize) -> (k: usize)
    requires
        from <= cs@.len(),
    ensures
        from <= k <= cs@.len(),
        k < cs@.len() ==> is_exp_char(cs@[k as int]),
        forall|j: int| from <= j < k ==> !is_exp_char(#[trigger] cs@[j]),
{
    let n = cs.len();
    let mut i: usize = from;
    while i < n
        invariant
            from <= i <= n,
            n == cs@.len(),
            forall|j: int| from <= j < i ==> !is_exp_char(#[trigger] cs@[j]),
        decreases n - i,
    {
        let c = cs[i];
        if c == 'e' || c == 'E' {
            return i;
        }
        i = i + 1;
    }
    n
}

/// Finds the first dot in `[from, to)`, or `to`.
fn find_dot(cs: &Vec<char>, from: usize, to: usize) -> (d: usize)
    requires
        from <= to <= cs@.len(),
    ensures
        from <= d <= to,
        d < to ==> cs@[d as int] == '.',
        forall|j: int| from <= j < d ==> #[trigger] cs@[j] != '.',
{
    let mut i: usize = from;
    while i < to
        invariant
            from <= i <= to <= cs@.len(),
            forall|j: int| from <= j < i ==> #[trigger] cs@[j] != '.',
        decreases to - i,
    {
        if cs[i] == '.' {
            return i;
        }
        i = i + 1;
    }
    to
}

/// Decides the mantissa grammar on `[from, to)`.
fn check_mantissa(cs: &Vec<char>, from: usize, to: usize) -> (b: bool)
    requires
        from <= to <= cs@.len(),
    ensures
        b == mantissa(cs@.subrange(from as int, to as int)),
{
    let ghost m = cs@.subrange(from as int, to as int);
    let d = find_dot(cs, from, to);
    if d == to {
        // no dot: all digits, non-empty
        let r = to > from && all_digits_range(cs, from, to);
        proof {
            assert(cs@.subrange(from as int, to as int) =~= m);
            if r {
                assert(mantissa(m));
            } else {
                // no dot exists anywhere, so the dotted alternative fails
                assert forall|dd: int|
                    0 <= dd < m.len() implies !(#[trigger] m[dd] == '.') by {
                    assert(m[dd] == cs@[from + dd]);
                }
                assert(!mantissa(m));
            }
        }
        return r;
    }
    // a dot at d: digits on both sides, more than just the dot
    let r = (to - from > 1) && all_digits_range(cs, from, d) && all_digits_range(cs, d + 1, to);
    proof {
        let dd = d - from;
        assert(m[dd] == cs@[d as int]);
        if r {
            assert(m.take(dd) =~= cs@.subrange(from as int, d as int));
            assert(m.skip(dd + 1) =~= cs@.subrange(d + 1, to as int));
            assert(mantissa(m));
        } else {
            assert forall|d2: int|
                0 <= d2 < m.len() && #[trigger] m[d2] == '.' implies !(all_digits(m.take(d2))
                && all_digits(m.skip(d2 + 1)) && m.len() > 1) by {
                assert(m[d2] == cs@[from + d2]);
                if d2 < dd {
                    assert(cs@[from + d2] != '.');
                } else if d2 == dd {
                    assert(m.take(dd) =~= cs@.subrange(from as int, d as int));
                    assert(m.skip(dd + 1) =~= cs@.subrange(d + 1, to as int));
                } else {
                    // the first dot sits inside the digit prefix
                    if all_digits(m.take(d2)) {
                        assert(is_dec_digit(m.take(d2)[dd]));
                        assert(m[dd] == '.');
                        assert(false);
                    }
                }
            }
            if all_digits(m) {
                assert(is_dec_digit(m[dd]));
                assert(false);
            }
            assert(!mantissa(m));
        }
    }
    r
}

/// Decides the signed-digits grammar on `[from, to)`.
fn check_signed_digits(cs: &Vec<char>, from: usize, to: usize) -> (b: bool)
    requires
        from <= to <= cs@.len(),
    ensures
        b == signed_digits(cs@.subrange(from as int, to as int)),
{
    let ghost e = cs@.subrange(from as int, to as int);
    if from == to {
        assert(!signed_digits(e));
        return false;
    }
    let c0 = cs[from];
    let b0: usize = if c0 == '+' || c0 == '-' {
        from + 1
    } else {
        from
    };
    proof {
        assert(e[0] == cs@[from as int]);
        assert(num_body(e) =~= cs@.subrange(b0 as int, to as int));
    }
    let r = to > b0 && all_digits_range(cs, b0, to);
    r
}

/// Decides the standard float grammar on the whole vector.
fn check_rust_float(cs: &Vec<char>) -> (b: bool)
    ensures
        b == rust_float(cs@),
{
    let n = cs.len();
    let o: usize = if n > 0 && (cs[0] == '+' || cs[0] == '-') {
        1
    } else {
        0
    };
    let ghost body = num_body(cs@);
    proof {
        assert(body =~= cs@.subrange(o as int, n as int));
    }
    // keywords, any letter case
    if n - o == 3 {
        let k0 = lc_ex(cs[o]);
        let k1 = lc_ex(cs[o + 1]);
        let k2 = lc_ex(cs[o + 2]);
        proof {
            assert(body[0] == cs@[o as int]);
            assert(body[1] == cs@[o + 1]);
            assert(body[2] == cs@[o + 2]);
        }
        if k0 == 105 && k1 == 110 && k2 == 102 {
            assert(ci_inf(body));
            return true;
        }
        if k0 == 110 && k1 == 97 && k2 == 110 {
            assert(ci_nan(body));
            return true;
        }
    }
    if n - o == 8 {
        let mut is_kw = true;
        let word: [u32; 8] = [105, 110, 102, 105, 110, 105, 116, 121];
        let mut i: usize = 0;
        while i < 8
            invariant
                0 <= i <= 8,
                o + 8 == n,
                n == cs@.len(),
                body == cs@.subrange(o as int, n as int),
                word@.map_values(|w: u32| w as int) =~= infinity_word(),
                is_kw <==> forall|j: int| 0 <= j < i ==> lc(#[trigger] body[j]) == infinity_word()[j],
            decreases 8 - i,
        {
            proof {
                assert(body[i as int] == cs@[o + i]);
                assert(word@[i as int] as int == infinity_word()[i as int]);
            }
            if lc_ex(cs[o + i]) != word[i] {
                is_kw = false;
            }
            i = i + 1;
        }
        if is_kw {
            return true;
        }
        proof {
            assert(!ci_infinity(body));
        }
    }
    // decimal number with optional exponent
    let k = find_exp(cs, o);
    let m_ok = check_mantissa(cs, o, k);
    let e_ok = if k < n {
        check_signed_digits(cs, k + 1, n)
    } else {
        true
    };
    let r = m_ok && e_ok;
    proof {
        let kk = k - o;
        assert(body.take(kk) =~= cs@.subrange(o as int, k as int));
        if k < n {
            assert(body[kk] == cs@[k as int]);
            assert(body.skip(kk + 1) =~= cs@.subrange(k + 1, n as int));
        }
        if r {
            assert(0 <= kk <= body.len() && (kk == body.len() || is_exp_char(body[kk]))
                && mantissa(body.take(kk)) && (kk < body.len() ==> signed_digits(
                body.skip(kk + 1),
            )));
            assert(dec_number(body));
        } else {
            assert forall|k2: int|
                0 <= k2 <= body.len() && (k2 == body.len() || is_exp_char(
                    body[k2],
                )) implies !(mantissa(#[trigger] body.take(k2)) && (k2 < body.len()
                ==> signed_digits(body.skip(k2 + 1)))) by {
                if k2 < kk {
                    assert(body[k2] == cs@[o + k2]);
                    assert(!is_exp_char(cs@[o + k2]));
                } else if k2 == kk {
                    if mantissa(body.take(kk)) && (kk < body.len() ==> signed_digits(
                        body.skip(kk + 1),
                    )) {
                        assert(false);
                    }
                } else {
                    // a later split leaves the first marker inside the mantissa
                    if mantissa(body.take(k2)) {
                        let mm = body.take(k2);
                        assert(mm[kk] == cs@[o + kk]);
                        assert(is_exp_char(mm[kk]));
                        if all_digits(mm) {
                            assert(is_dec_digit(mm[kk]));
                            assert(false);
                        } else {
                            let d = choose|d: int|
                                0 <= d < mm.len() && #[trigger] mm[d] == '.' && all_digits(
                                    mm.take(d),
                                ) && all_digits(mm.skip(d + 1)) && mm.len() > 1;
                            if kk < d {
                                assert(is_dec_digit(mm.take(d)[kk]));
                                assert(false);
                            } else if kk == d {
                                assert(mm[d] == '.');
                                assert(false);
                            } else {
                                assert(is_dec_digit(mm.skip(d + 1)[kk - d - 1]));
                                assert(false);
                            }
                        }
                    }
                }
            }
            assert(!dec_number(body));
        }
    }
    r
}

/// Decides the full core-schema float grammar.
pub fn is_real_chars(cs: &Vec<char>) -> (b: bool)
    ensures
        b == is_real_text(cs@),
{
    let n = cs.len();
    // dotted special spellings
    if n == 4 && cs[0] == '.' {
        let w = (cs[1], cs[2], cs[3]);
        if (w.0 == 'i' && w.1 == 'n' && w.2 == 'f') || (w.0 == 'I' && w.1 == 'n' && w.2 == 'f')
            || (w.0 == 'I' && w.1 == 'N' && w.2 == 'F') {
            proof {
                assert(cs@.skip(1)[0] == cs@[1]);
                assert(cs@.skip(1)[1] == cs@[2]);
                assert(cs@.skip(1)[2] == cs@[3]);
            }
            return true;
        }
        if (w.0 == 'n' && w.1 == 'a' && w.2 == 'n') || (w.0 == 'N' && w.1 == 'A' && w.2 == 'N') {
            return true;
        }
    }
    if n == 5 && (cs[0] == '+' || cs[0] == '-') && cs[1] == '.' {
        let w = (cs[2], cs[3], cs[4]);
        if (w.0 == 'i' && w.1 == 'n' && w.2 == 'f') || (w.0 == 'I' && w.1 == 'n' && w.2 == 'f')
            || (w.0 == 'I' && w.1 == 'N' && w.2 == 'F') {
            proof {
                assert(cs@.skip(2)[0] == cs@[2]);
                assert(cs@.skip(2)[1] == cs@[3]);
                assert(cs@.skip(2)[2] == cs@[4]);
            }
            return true;
        }
    }
    if n == 3 && cs[0] == 'N' && cs[1] == 'a' && cs[2] == 'N' {
        return true;
    }
    proof {
        if is_special_real(cs@) {
            if cs@.len() == 4 && cs@[0] == '.' && dot_inf_word(cs@.skip(1)) {
                assert(cs@[1] == cs@.skip(1)[0]);
                assert(cs@[2] == cs@.skip(1)[1]);
                assert(cs@[3] == cs@.skip(1)[2]);
            }
            if cs@.len() == 5 && (cs@[0] == '+' || cs@[0] == '-') && cs@[1] == '.' && dot_inf_word(
                cs@.skip(2),
            ) {
                assert(cs@[2] == cs@.skip(2)[0]);
                assert(cs@[3] == cs@.skip(2)[1]);
                assert(cs@[4] == cs@.skip(2)[2]);
            }
            assert(false);
        }
    }
    check_rust_float(cs)
}

// --- classification ---

/// The tilde null spelling.
pub open spec fn is_word_tilde(s: Seq<char>) -> bool {
    s.len() == 1 && s[0] == '~'
}

/// The word `null`.
pub open spec fn is_word_null(s: Seq<char>) -> bool {
    s.len() == 4 && s[0] == 'n' && s[1] == 'u' && s[2] == 'l' && s[3] == 'l'
}

/// The word `true`.
pub open spec fn is_word_true(s: Seq<char>) -> bool {
    s.len() == 4 && s[0] == 't' && s[1] == 'r' && s[2] == 'u' && s[3] == 'e'
}

/// The word `false`.
pub open spec fn is_word_false(s: Seq<char>) -> bool {
    s.len() == 5 && s[0] == 'f' && s[1] == 'a' && s[2] == 'l' && s[3] == 's' && s[4] == 'e'
}

/// What an untagged plain scalar's text denotes under the core
/// schema, in priority order: hex, octal and plus-signed integers,
/// null and boolean spellings, decimal integers, floats, and finally
/// the text itself.
pub open spec fn classify_plain(s: Seq<char>) -> NodeV {
    if s.len() >= 2 && s[0] == '0' && s[1] == 'x' && parse_int_spec(s.skip(2), 16) is Some {
        NodeV::Int(parse_int_spec(s.skip(2), 16)->Some_0)
    } else if s.len() >= 2 && s[0] == '0' && s[1] == 'o' && parse_int_spec(s.skip(2), 8) is Some {
        NodeV::Int(parse_int_spec(s.skip(2), 8)->Some_0)
    } else if s.len() >= 1 && s[0] == '+' && parse_int_spec(s.skip(1), 10) is Some {
        NodeV::Int(parse_int_spec(s.skip(1), 10)->Some_0)
    } else if is_word_tilde(s) || is_word_null(s) {
        NodeV::Null
    } else if is_word_true(s) {
        NodeV::Bool(true)
    } else if is_word_false(s) {
        NodeV::Bool(false)
    } else if parse_int_spec(s, 10) is Some {
        NodeV::Int(parse_int_spec(s, 10)->Some_0)
    } else if is_real_text(s) {
        NodeV::Real(s)
    } else {
        NodeV::Str(s)
    }
}

impl YamlInput {
    /// Classifies an untagged plain scalar's text under the core
    /// schema; falls back to a string when nothing else matches.
    pub fn from_str(v: &str) -> (r: YamlInput)
        ensures
            r@ == classify_plain(v@),
    {
        let cs = chars_of(v);
        let n = cs.len();
        if n >= 2 && cs[0] == '0' && cs[1] == 'x' {
            if let Some(i) = parse_int_chars(&cs, 2, 16) {
                return YamlInput::Integer(i);
            }
        }
        if n >= 2 && cs[0] == '0' && cs[1] == 'o' {
            if let Some(i) = parse_int_chars(&cs, 2, 8) {
                return YamlInput::Integer(i);
            }
        }
        if n >= 1 && cs[0] == '+' {
            if let Some(i) = parse_int_chars(&cs, 1, 10) {
                return YamlInput::Integer(i);
            }
        }
        if n == 1 && cs[0] == '~' {
            return YamlInput::Null;
        }
        if n == 4 && cs[0] == 'n' && cs[1] == 'u' && cs[2] == 'l' && cs[3] == 'l' {
            return YamlInput::Null;
        }
        if n == 4 && cs[0] == 't' && cs[1] == 'r' && cs[2] == 'u' && cs[3] == 'e' {
            return YamlInput::Boolean(true);
        }
        if n == 5 && cs[0] == 'f' && cs[1] == 'a' && cs[2] == 'l' && cs[3] == 's' && cs[4] == 'e' {
            return YamlInput::Boolean(false);
        }
        if let Some(i) = parse_int_chars(&cs, 0, 10) {
            proof {
                assert(cs@.skip(0) =~= cs@);
            }
            return YamlInput::Integer(i);
        }
        proof {
            assert(cs@.skip(0) =~= cs@);
        }
        if is_real_chars(&cs) {
            return YamlInput::Real(v.to_owned());
        }
        YamlInput::String(v.to_owned())
    }
}


// --- explicit tags ---

/// The core tag handle `!!`.
pub open spec fn is_core_handle(h: Seq<char>) -> bool {
    h.len() == 2 && h[0] == '!' && h[1] == '!'
}

/// The word `bool`.
pub open spec fn is_word_bool(s: Seq<char>) -> bool {
    s.len() == 4 && s[0] == 'b' && s[1] == 'o' && s[2] == 'o' && s[3] == 'l'
}

/// The word `int`.
pub open spec fn is_word_int(s: Seq<char>) -> bool {
    s.len() == 3 && s[0] == 'i' && s[1] == 'n' && s[2] == 't'
}

/// The word `float`.
pub open spec fn is_word_float(s: Seq<char>) -> bool {
    s.len() == 5 && s[0] == 'f' && s[1] == 'l' && s[2] == 'o' && s[3] == 'a' && s[4] == 't'
}

/// The model of an optional tag: handle and suffix text.
pub open spec fn tag_view(t: Option<(String, String)>) -> Option<(Seq<char>, Seq<char>)> {
    match t {
        Some(p) => Some((p.0@, p.1@)),
        None => None,
    }
}

/// What a scalar event denotes. A non-plain (quoted or block) scalar
/// is always a string. A plain scalar with an explicit core-namespace
/// tag must match that tag's grammar and otherwise poisons the leaf
/// as `Bad`; a foreign tag or suffix leaves a string. An untagged
/// plain scalar follows the core-schema rules.
pub open spec fn resolve_scalar_spec(
    text: Seq<char>,
    plain: bool,
    tag: Option<(Seq<char>, Seq<char>)>,
) -> NodeV {
    if !plain {
        NodeV::Str(text)
    } else if tag is Some {
        let h = tag->Some_0.0;
        let sfx = tag->Some_0.1;
        if is_core_handle(h) {
            if is_word_bool(sfx) {
                if is_word_true(text) {
                    NodeV::Bool(true)
                } else if is_word_false(text) {
                    NodeV::Bool(false)
                } else {
                    NodeV::Bad
                }
            } else if is_word_int(sfx) {
                match parse_int_spec(text, 10) {
                    Some(v) => NodeV::Int(v),
                    None => NodeV::Bad,
                }
            } else if is_word_float(sfx) {
                if is_real_text(text) {
                    NodeV::Real(text)
                } else {
                    NodeV::Bad
                }
            } else if is_word_null(sfx) {
                if is_word_tilde(text) || is_word_null(text) {
                    NodeV::Null
                } else {
                    NodeV::Bad
                }
            } else {
                NodeV::Str(text)
            }
        } else {
            NodeV::Str(text)
        }
    } else {
        classify_plain(text)
    }
}

/// Resolves a scalar event to a concrete node, per
/// `resolve_scalar_spec`.
pub fn resolve_scalar(text: &str, plain: bool, tag: &Option<(String, String)>) -> (r: YamlInput)
    ensures
        r@ == resolve_scalar_spec(text@, plain, tag_view(*tag)),
{
    if !plain {
        return YamlInput::String(text.to_owned());
    }
    match tag {
        None => YamlInput::from_str(text),
        Some(ht) => {
            let hc = chars_of(ht.0.as_str());
            if !(hc.len() == 2 && hc[0] == '!' && hc[1] == '!') {
                return YamlInput::String(text.to_owned());
            }
            let sc = chars_of(ht.1.as_str());
            let tc = chars_of(text);
            let sn = sc.len();
            let tn = tc.len();
            if sn == 4 && sc[0] == 'b' && sc[1] == 'o' && sc[2] == 'o' && sc[3] == 'l' {
                if tn == 4 && tc[0] == 't' && tc[1] == 'r' && tc[2] == 'u' && tc[3] == 'e' {
                    YamlInput::Boolean(true)
                } else if tn == 5 && tc[0] == 'f' && tc[1] == 'a' && tc[2] == 'l' && tc[3] == 's'
                    && tc[4] == 'e' {
                    YamlInput::Boolean(false)
                } else {
                    YamlInput::BadValue
                }
            } else if sn == 3 && sc[0] == 'i' && sc[1] == 'n' && sc[2] == 't' {
                proof {
                    assert(tc@.skip(0) =~= tc@);
                }
                match parse_int_chars(&tc, 0, 10) {
                    Some(v) => YamlInput::Integer(v),
                    None => YamlInput::BadValue,
                }
            } else if sn == 5 && sc[0] == 'f' && sc[1] == 'l' && sc[2] == 'o' && sc[3] == 'a'
                && sc[4] == 't' {
                if is_real_chars(&tc) {
                    YamlInput::Real(text.to_owned())
                } else {
                    YamlInput::BadValue
                }
            } else if sn == 4 && sc[0] == 'n' && sc[1] == 'u' && sc[2] == 'l' && sc[3] == 'l' {
                if (tn == 1 && tc[0] == '~') || (tn == 4 && tc[0] == 'n' && tc[1] == 'u' && tc[2]
                    == 'l' && tc[3] == 'l') {
                    YamlInput::Null
                } else {
                    YamlInput::BadValue
                }
            } else {
                YamlInput::String(text.to_owned())
            }
        },
    }
}

} // verus!
