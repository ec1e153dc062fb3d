//! Recognising numbers as Rust reads them: `i64::from_str` and the grammar
//! that `f64::from_str` accepts.
use vstd::prelude::*;
use crate::text::{
    ascii_lower_code, chars_eq_ignore_ascii_case, chars_of, eq_ignore_ascii_case, find_char,
    first_index_of, slice_chars,
};

verus! {

/// `c` is an ASCII decimal digit.
pub open spec fn is_digit(c: char) -> bool {
    0x30 <= (c as u32) <= 0x39
}

/// Every character of `s` is a digit.
pub open spec fn all_digits(s: Seq<char>) -> bool {
    forall|i: int| 0 <= i < s.len() ==> is_digit(#[trigger] s[i])
}

/// The value of the decimal digit string `s`.
pub open spec fn digits_value(s: Seq<char>) -> int
    decreases s.len(),
{
    if s.len() == 0 {
        0
    } else {
        digits_value(s.drop_last()) * 10 + ((s.last() as u32) - 0x30)
    }
}

/// The number of characters of the sign at the front of `s` (0 or 1).
pub open spec fn sign_len(s: Seq<char>) -> int {
    if s.len() > 0 && (s[0] == '+' || s[0] == '-') {
        1
    } else {
        0
    }
}

/// What `i64::from_str` gives for `s`: an optional `+` or `-`, then one or
/// more digits, within the range of `i64`.
pub open spec fn spec_parse_i64(s: Seq<char>) -> Option<int> {
    let body = s.skip(sign_len(s));
    let negative = sign_len(s) == 1 && s[0] == '-';
    if body.len() == 0 || !all_digits(body) {
        None
    } else {
        let v = if negative {
            -digits_value(body)
        } else {
            digits_value(body)
        };
        if i64::MIN <= v <= i64::MAX {
            Some(v)
        } else {
            None
        }
    }
}

/// Index of the first `e` or `E` in `s`, or `s.len()`.
pub open spec fn first_exp_index(s: Seq<char>) -> int
    decreases s.len(),
{
    if s.len() == 0 {
        0
    } else if ascii_lower_code(s[0]) == 0x65 {
        0
    } else {
        1 + first_exp_index(s.drop_first())
    }
}

/// `Digit+ | Digit+ '.' Digit* | Digit* '.' Digit+`
pub open spec fn is_mantissa(m: Seq<char>) -> bool {
    let d = first_index_of(m, '.');
    if d == m.len() {
        m.len() > 0 && all_digits(m)
    } else {
        let int_part = m.take(d);
        let frac = m.skip(d + 1);
        all_digits(int_part) && all_digits(frac) && int_part.len() + frac.len() > 0
    }
}

/// Empty, or `('e' | 'E') Sign? Digit+`.
pub open spec fn is_exponent(x: Seq<char>) -> bool {
    x.len() == 0 || {
        let rest = x.drop_first();
        let digits = rest.skip(sign_len(rest));
        ascii_lower_code(x[0]) == 0x65 && digits.len() > 0 && all_digits(digits)
    }
}

/// Whether `f64::from_str` accepts `s`. Its documentation gives the grammar,
/// read after ASCII lower-casing:
/// `Sign? ( 'inf' | 'infinity' | 'nan' | Number )`, where
/// `Number ::= ( Digit+ | Digit+ '.' Digit* | Digit* '.' Digit+ ) Exp?`.
pub open spec fn is_float_literal(s: Seq<char>) -> bool {
    let body = s.skip(sign_len(s));
    let e = first_exp_index(body);
    ||| eq_ignore_ascii_case(body, "inf"@)
    ||| eq_ignore_ascii_case(body, "infinity"@)
    ||| eq_ignore_ascii_case(body, "nan"@)
    ||| is_mantissa(body.take(e)) && is_exponent(body.skip(e))
}

proof fn lemma_digits_value_nonneg(s: Seq<char>)
    requires
        all_digits(s),
    ensures
        digits_value(s) >= 0,
    decreases s.len(),
{
    if s.len() > 0 {
        lemma_digits_value_nonneg(s.drop_last());
    }
}

proof fn lemma_first_exp_index(s: Seq<char>, i: int)
    requires
        0 <= i <= s.len(),
        forall|j: int| 0 <= j < i ==> ascii_lower_code(#[trigger] s[j]) != 0x65,
        i == s.len() || ascii_lower_code(s[i]) == 0x65,
    ensures
        first_exp_index(s) == i,
    decreases i,
{
    if i > 0 {
        assert forall|j: int| 0 <= j < i - 1 implies ascii_lower_code(
            #[trigger] s.drop_first()[j],
        ) != 0x65 by {
            assert(s.drop_first()[j] == s[j + 1]);
        }
        lemma_first_exp_index(s.drop_first(), i - 1);
    }
}

/// Whether every character of `s` is a digit.
fn chars_all_digits(s: &[char]) -> (r: bool)
    ensures
        r == all_digits(s@),
{
    let mut i: usize = 0;
    while i < s.len()
        invariant
            i <= s@.len(),
            forall|j: int| 0 <= j < i ==> is_digit(#[trigger] s@[j]),
        decreases s@.len() - i,
    {
        let u = s[i] as u32;
        if !(0x30 <= u && u <= 0x39) {
            return false;
        }
        i = i + 1;
    }
    true
}

/// Length of the sign at the front of `s`.
fn sign_length(s: &[char]) -> (n: usize)
    ensures
        n == sign_len(s@),
{
    if s.len() > 0 && (s[0] == '+' || s[0] == '-') {
        1
    } else {
        0
    }
}

/// `s` read as an `i64`, as `i64::from_str` reads it.
pub fn parse_i64(s: &[char]) -> (r: Option<i64>)
    ensures
        match r {
            Some(n) => spec_parse_i64(s@) == Some(n as int),
            None => spec_parse_i64(s@) is None,
        },
{
    let start = sign_length(s);
    let negative = start == 1 && s[0] == '-';
    let body = slice_chars(s, start, s.len());
    assert(body@ =~= s@.skip(sign_len(s@)));
    if body.len() == 0 || !chars_all_digits(&body) {
        return None;
    }
    let limit: u128 = 9223372036854775808;
    let mut acc: u128 = 0;
    let mut too_big = false;
    let mut i: usize = 0;
    while i < body.len()
        invariant
            i <= body@.len(),
            limit == 9223372036854775808,
            all_digits(body@),
            !too_big ==> acc == digits_value(body@.take(i as int)) && acc <= limit,
            too_big ==> digits_value(body@.take(i as int)) > limit,
        decreases body@.len() - i,
    {
        assert(body@.take(i + 1).drop_last() =~= body@.take(i as int));
        assert(body@.take(i + 1).last() == body@[i as int]);
        assert(is_digit(body@[i as int]));
        proof {
            lemma_digits_value_nonneg(body@.take(i as int));
        }
        if !too_big {
            let d = (body[i] as u32 - 0x30) as u128;
            acc = acc * 10 + d;
            if acc > limit {
                too_big = true;
            }
        }
        i = i + 1;
    }
    assert(body@.take(body@.len() as int) =~= body@);
    if too_big {
        return None;
    }
    if negative {
        if acc == limit {
            Some(i64::MIN)
        } else {
            Some(-(acc as i64))
        }
    } else if acc < limit {
        Some(acc as i64)
    } else {
        None
    }
}

/// Index of the first `e` or `E` in `s`, or `s.len()`.
fn find_exp(s: &[char]) -> (i: usize)
    ensures
        i == first_exp_index(s@),
{
    let mut i: usize = 0;
    while i < s.len()
        invariant
            i <= s@.len(),
            forall|j: int| 0 <= j < i ==> ascii_lower_code(#[trigger] s@[j]) != 0x65,
        decreases s@.len() - i,
    {
        let u = s[i] as u32;
        if u == 0x65 || u == 0x45 {
            proof {
                lemma_first_exp_index(s@, i as int);
            }
            return i;
        }
        i = i + 1;
    }
    proof {
        lemma_first_exp_index(s@, i as int);
    }
    i
}

/// Whether `m` is a mantissa (`is_mantissa`).
fn check_mantissa(m: &[char]) -> (r: bool)
    ensures
        r == is_mantissa(m@),
{
    match find_char(m, '.') {
        None => m.len() > 0 && chars_all_digits(m),
        Some(d) => {
            let n = m.len();
            let int_part = slice_chars(m, 0, d);
            let frac = slice_chars(m, d + 1, n);
            assert(int_part@ =~= m@.take(d as int));
            assert(frac@ =~= m@.skip(d + 1));
            chars_all_digits(&int_part) && chars_all_digits(&frac) && int_part.len() + frac.len()
                > 0
        },
    }
}

/// Whether `x` is an exponent part (`is_exponent`).
fn check_exponent(x: &[char]) -> (r: bool)
    ensures
        r == is_exponent(x@),
{
    if x.len() == 0 {
        return true;
    }
    let rest = slice_chars(x, 1, x.len());
    assert(rest@ =~= x@.drop_first());
    let start = sign_length(&rest);
    let digits = slice_chars(&rest, start, rest.len());
    assert(digits@ =~= rest@.skip(sign_len(rest@)));
    let u = x[0] as u32;
    (u == 0x65 || u == 0x45) && digits.len() > 0 && chars_all_digits(&digits)
}

/// Whether `f64::from_str` accepts `s` (see `is_float_literal`).
pub fn is_float_text(s: &[char]) -> (r: bool)
    ensures
        r == is_float_literal(s@),
{
    let start = sign_length(s);
    let body = slice_chars(s, start, s.len());
    assert(body@ =~= s@.skip(sign_len(s@)));
    if chars_eq_ignore_ascii_case(&body, &chars_of("inf")) || chars_eq_ignore_ascii_case(
        &body,
        &chars_of("infinity"),
    ) || chars_eq_ignore_ascii_case(&body, &chars_of("nan")) {
        return true;
    }
    let e = find_exp(&body);
    proof {
        assert(0 <= first_exp_index(body@) <= body@.len()) by {
            lemma_first_exp_index_bounds(body@);
        }
    }
    let mantissa = slice_chars(&body, 0, e);
    let exponent = slice_chars(&body, e, body.len());
    assert(mantissa@ =~= body@.take(e as int));
    assert(exponent@ =~= body@.skip(e as int));
    check_mantissa(&mantissa) && check_exponent(&exponent)
}

proof fn lemma_first_exp_index_bounds(s: Seq<char>)
    ensures
        0 <= first_exp_index(s) <= s.len(),
    decreases s.len(),
{
    if s.len() > 0 && ascii_lower_code(s[0]) != 0x65 {
        lemma_first_exp_index_bounds(s.drop_first());
    }
}

} // verus!
