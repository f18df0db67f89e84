//! The literal grammars that type inference classifies cells by — signed
//! 64-bit integers, floating-point literals and booleans, exactly as std's
//! `from_str` parsers accept them — and the lenient materialization of a
//! cell under an Integer or Boolean column.
//!
//! A float parse never fails on range (oversized values round to an
//! infinity), so whether a text is a floating-point literal is a property
//! of its characters alone; the recognizer here decides the documented
//! grammar directly and is verified against it.

use vstd::prelude::*;
use vstd::string::*;

verus! {

/// An ASCII decimal digit.
pub open spec fn is_ascii_digit(c: char) -> bool {
    '0' <= c && c <= '9'
}

/// Nothing but ASCII digits (possibly none).
pub open spec fn all_digits(s: Seq<char>) -> bool {
    forall|i: int| 0 <= i < s.len() ==> is_ascii_digit(#[trigger] s[i])
}

/// One or more ASCII digits and nothing else.
pub open spec fn is_digit_run(s: Seq<char>) -> bool {
    s.len() > 0 && all_digits(s)
}

/// The text with one leading `+` or `-` removed, if any.
pub open spec fn strip_sign(s: Seq<char>) -> Seq<char> {
    if s.len() > 0 && (s[0] == '+' || s[0] == '-') {
        s.drop_first()
    } else {
        s
    }
}

/// The value of a run of ASCII digits, most significant first.
pub open spec fn digits_value(s: Seq<char>) -> int
    decreases s.len(),
{
    if s.len() == 0 {
        0
    } else {
        digits_value(s.drop_last()) * 10 + (s.last() as int - '0' as int)
    }
}

/// The value an optionally signed digit run denotes.
pub open spec fn signed_value(s: Seq<char>) -> int {
    if s.len() > 0 && s[0] == '-' {
        -digits_value(strip_sign(s))
    } else {
        digits_value(strip_sign(s))
    }
}

/// What parsing a text as a signed 64-bit integer yields: the denoted value
/// when the text is an optional sign followed by one or more ASCII digits
/// and the value lies in the i64 range, nothing otherwise.
pub open spec fn parsed_i64(s: Seq<char>) -> Option<int> {
    if is_digit_run(strip_sign(s)) && i64::MIN <= signed_value(s) <= i64::MAX {
        Option::Some(signed_value(s))
    } else {
        Option::None
    }
}

/// Whether a text is a signed 64-bit integer literal.
pub open spec fn is_i64_literal(s: Seq<char>) -> bool {
    parsed_i64(s) is Some
}

/// A mantissa: `Digit+`, `Digit+ '.' Digit*` or `Digit* '.' Digit+`.
pub open spec fn is_mantissa(s: Seq<char>) -> bool {
    is_digit_run(s) || (s.len() >= 2 && exists|i: int|
        0 <= i < s.len() && #[trigger] s[i] == '.' && all_digits(s.subrange(0, i)) && all_digits(
            s.subrange(i + 1, s.len() as int),
        ))
}

/// An exponent tail: an optional sign, then one or more digits.
pub open spec fn is_exp_tail(s: Seq<char>) -> bool {
    is_digit_run(strip_sign(s))
}

/// A decimal number: a mantissa, optionally followed by `e` or `E` and an
/// exponent tail.
pub open spec fn is_float_number(s: Seq<char>) -> bool {
    is_mantissa(s) || (exists|k: int|
        0 <= k < s.len() && (#[trigger] s[k] == 'e' || s[k] == 'E') && is_mantissa(
            s.subrange(0, k),
        ) && is_exp_tail(s.subrange(k + 1, s.len() as int)))
}

/// Equality with a lowercase ASCII word, ignoring ASCII letter case.
pub open spec fn eq_ignore_ascii_case(s: Seq<char>, lower: Seq<char>) -> bool {
    s.len() == lower.len() && forall|i: int|
        0 <= i < s.len() ==> ((#[trigger] s[i]) == lower[i] || ('a' <= lower[i] && lower[i] <= 'z'
            && (s[i] as u32) == (lower[i] as u32) - 32))
}

/// Whether a text is a floating-point literal as std's float parser accepts
/// it: an optional sign, then `inf`, `infinity` or `nan` in any letter
/// case, or a decimal number.
pub open spec fn is_float_literal(s: Seq<char>) -> bool {
    let body = strip_sign(s);
    ||| eq_ignore_ascii_case(body, "inf"@)
    ||| eq_ignore_ascii_case(body, "infinity"@)
    ||| eq_ignore_ascii_case(body, "nan"@)
    ||| is_float_number(body)
}

/// Whether a text is a boolean literal as `str::parse::<bool>` accepts it.
pub open spec fn is_bool_literal(s: Seq<char>) -> bool {
    s == "true"@ || s == "false"@
}

/// Relies on `str::parse::<i64>` (`i64::from_str`): it accepts exactly an
/// optional sign followed by one or more ASCII digits, failing on any other
/// shape and on values outside the i64 range.
#[verifier::external_body]
pub(crate) fn parse_i64(s: &str) -> (r: Option<i64>)
    ensures
        r is Some <==> is_i64_literal(s@),
        r matches Some(v) ==> parsed_i64(s@) == Option::Some(v as int),
{
    s.parse::<i64>().ok()
}

/// The characters of a text, in order.
fn chars_of(s: &str) -> (v: Vec<char>)
    ensures
        v@ == s@,
{
    let n = s.unicode_len();
    let mut v: Vec<char> = Vec::new();
    let mut i: usize = 0;
    while i < n
        invariant
            i <= n,
            n == s@.len(),
            v@ == s@.take(i as int),
        decreases n - i,
    {
        v.push(s.get_char(i));
        proof {
            assert(v@ =~= s@.take(i + 1));
        }
        i += 1;
    }
    proof {
        assert(v@ =~= s@);
    }
    v
}

/// Whether the characters equal a literal word exactly.
fn eq_word(v: &Vec<char>, word: &str) -> (r: bool)
    ensures
        r == (v@ == word@),
{
    let wn = word.unicode_len();
    if v.len() != wn {
        return false;
    }
    let mut i: usize = 0;
    while i < wn
        invariant
            i <= wn,
            wn == word@.len(),
            v@.len() == wn,
            forall|k: int| 0 <= k < i ==> v@[k] == word@[k],
        decreases wn - i,
    {
        if v[i] != word.get_char(i) {
            return false;
        }
        i += 1;
    }
    proof {
        assert(v@ =~= word@);
    }
    true
}

/// What parsing a text as a boolean yields, exactly as `bool::from_str`
/// decides it: `true` on "true", `false` on "false", nothing otherwise.
pub(crate) fn parse_bool(s: &str) -> (r: Option<bool>)
    ensures
        r == (if s@ == "true"@ {
            Option::Some(true)
        } else if s@ == "false"@ {
            Option::Some(false)
        } else {
            Option::<bool>::None
        }),
{
    let v = chars_of(s);
    if eq_word(&v, "true") {
        return Option::Some(true);
    }
    if eq_word(&v, "false") {
        return Option::Some(false);
    }
    Option::None
}

/// Whether `v[from..to]` holds nothing but ASCII digits.
fn all_digits_range(v: &Vec<char>, from: usize, to: usize) -> (r: bool)
    requires
        from <= to <= v@.len(),
    ensures
        r == all_digits(v@.subrange(from as int, to as int)),
{
    let ghost sub = v@.subrange(from as int, to as int);
    let mut i: usize = from;
    while i < to
        invariant
            from <= i <= to,
            to <= v@.len(),
            sub == v@.subrange(from as int, to as int),
            forall|k: int| 0 <= k < i - from ==> is_ascii_digit(#[trigger] sub[k]),
        decreases to - i,
    {
        let c = v[i];
        proof {
            assert(sub[i - from] == v@[i as int]);
        }
        if !(c >= '0' && c <= '9') {
            return false;
        }
        i += 1;
    }
    true
}

/// Whether `v[from..to]` is a mantissa.
fn is_mantissa_range(v: &Vec<char>, from: usize, to: usize) -> (r: bool)
    requires
        from <= to <= v@.len(),
    ensures
        r == is_mantissa(v@.subrange(from as int, to as int)),
{
    let ghost sub = v@.subrange(from as int, to as int);
    let mut dot: usize = to;
    let mut i: usize = from;
    while i < to
        invariant
            from <= i <= to,
            to <= v@.len(),
            sub == v@.subrange(from as int, to as int),
            dot <= to,
            dot == to ==> forall|k: int| 0 <= k < i - from ==> sub[k] != '.',
            dot < to ==> from <= dot < i && sub[dot - from] == '.',
        decreases to - i,
    {
        proof {
            assert(sub[i - from] == v@[i as int]);
        }
        if v[i] == '.' && dot == to {
            dot = i;
        }
        i += 1;
    }
    if dot == to {
        // no dot: a digit run
        let r = to > from && all_digits_range(v, from, to);
        proof {
            if !r {
                assert(!is_digit_run(sub));
                assert forall|k: int|
                    0 <= k < sub.len() && #[trigger] sub[k] == '.' implies !(all_digits(
                    sub.subrange(0, k),
                ) && all_digits(sub.subrange(k + 1, sub.len() as int))) by {
                    assert(sub[k] != '.');
                }
            }
        }
        return r;
    }
    // a dot at `dot`: digits on both sides, and at least one digit in all
    if to - from < 2 {
        proof {
            assert(sub.len() < 2);
            if is_digit_run(sub) {
                assert(is_ascii_digit(sub[dot - from]));
            }
        }
        return false;
    }
    let left = all_digits_range(v, from, dot);
    let right = all_digits_range(v, dot + 1, to);
    let r = left && right;
    proof {
        let d = dot - from;
        assert(sub.subrange(0, d) =~= v@.subrange(from as int, dot as int));
        assert(sub.subrange(d + 1, sub.len() as int) =~= v@.subrange(dot + 1, to as int));
        if r {
            assert(0 <= d < sub.len() && sub[d] == '.' && all_digits(sub.subrange(0, d))
                && all_digits(sub.subrange(d + 1, sub.len() as int)));
            assert(is_mantissa(sub));
        } else {
            // no split works: any candidate dot other than the first one
            // leaves the first dot inside an all-digit stretch
            assert(!is_ascii_digit('.'));
            assert(!is_digit_run(sub));
            assert forall|k: int|
                0 <= k < sub.len() && #[trigger] sub[k] == '.' implies !(all_digits(
                sub.subrange(0, k),
            ) && all_digits(sub.subrange(k + 1, sub.len() as int))) by {
                if k < d {
                    assert(sub.subrange(k + 1, sub.len() as int)[d - k - 1] == sub[d]);
                } else if k > d {
                    assert(sub.subrange(0, k)[d] == sub[d]);
                } else {
                    if all_digits(sub.subrange(0, d)) && all_digits(
                        sub.subrange(d + 1, sub.len() as int),
                    ) {
                        assert(r);
                    }
                }
            }
        }
    }
    r
}

/// Whether `v[from..to]` is an exponent tail.
fn is_exp_tail_range(v: &Vec<char>, from: usize, to: usize) -> (r: bool)
    requires
        from <= to <= v@.len(),
    ensures
        r == is_exp_tail(v@.subrange(from as int, to as int)),
{
    let ghost sub = v@.subrange(from as int, to as int);
    let body: usize = if from < to && (v[from] == '+' || v[from] == '-') {
        from + 1
    } else {
        from
    };
    proof {
        if from < to {
            assert(sub[0] == v@[from as int]);
        }
        assert(strip_sign(sub) =~= v@.subrange(body as int, to as int));
    }
    to > body && all_digits_range(v, body, to)
}

/// Whether `v[from..to]` is a decimal number.
fn is_number_range(v: &Vec<char>, from: usize, to: usize) -> (r: bool)
    requires
        from <= to <= v@.len(),
    ensures
        r == is_float_number(v@.subrange(from as int, to as int)),
{
    let ghost sub = v@.subrange(from as int, to as int);
    let mut epos: usize = to;
    let mut i: usize = from;
    while i < to
        invariant
            from <= i <= to,
            to <= v@.len(),
            sub == v@.subrange(from as int, to as int),
            epos <= to,
            epos == to ==> forall|k: int| 0 <= k < i - from ==> sub[k] != 'e' && sub[k] != 'E',
            epos < to ==> from <= epos < i && (sub[epos - from] == 'e' || sub[epos - from] == 'E')
                && forall|k: int| 0 <= k < epos - from ==> sub[k] != 'e' && sub[k] != 'E',
        decreases to - i,
    {
        proof {
            assert(sub[i - from] == v@[i as int]);
        }
        if (v[i] == 'e' || v[i] == 'E') && epos == to {
            epos = i;
        }
        i += 1;
    }
    if epos == to {
        // no exponent marker: a plain mantissa
        let r = is_mantissa_range(v, from, to);
        proof {
            if !r {
                assert forall|k: int|
                    0 <= k < sub.len() && (#[trigger] sub[k] == 'e' || sub[k] == 'E') implies !(
                is_mantissa(sub.subrange(0, k)) && is_exp_tail(
                    sub.subrange(k + 1, sub.len() as int),
                )) by {
                    assert(sub[k] != 'e' && sub[k] != 'E');
                }
            }
        }
        return r;
    }
    let left = is_mantissa_range(v, from, epos);
    let right = is_exp_tail_range(v, epos + 1, to);
    let r = left && right;
    proof {
        let d = epos - from;
        assert(sub.subrange(0, d) =~= v@.subrange(from as int, epos as int));
        assert(sub.subrange(d + 1, sub.len() as int) =~= v@.subrange(epos + 1, to as int));
        if r {
            assert(0 <= d < sub.len() && (sub[d] == 'e' || sub[d] == 'E') && is_mantissa(
                sub.subrange(0, d),
            ) && is_exp_tail(sub.subrange(d + 1, sub.len() as int)));
            assert(is_float_number(sub));
        } else {
            // a mantissa holds no exponent marker, so no other split works
            assert(!is_ascii_digit('e') && !is_ascii_digit('E'));
            if is_digit_run(sub) {
                assert(is_ascii_digit(sub[d]));
            }
            assert(!is_mantissa(sub)) by {
                if sub.len() >= 2 {
                    assert forall|k: int|
                        0 <= k < sub.len() && #[trigger] sub[k] == '.' implies !(all_digits(
                        sub.subrange(0, k),
                    ) && all_digits(sub.subrange(k + 1, sub.len() as int))) by {
                        if k < d {
                            assert(sub.subrange(k + 1, sub.len() as int)[d - k - 1] == sub[d]);
                        } else if k > d {
                            assert(sub.subrange(0, k)[d] == sub[d]);
                        }
                    }
                }
            }
            assert forall|k: int|
                0 <= k < sub.len() && (#[trigger] sub[k] == 'e' || sub[k] == 'E') implies !(
            is_mantissa(sub.subrange(0, k)) && is_exp_tail(
                sub.subrange(k + 1, sub.len() as int),
            )) by {
                if k < d {
                    assert(sub[k] != 'e' && sub[k] != 'E');
                } else if k > d {
                    let m = sub.subrange(0, k);
                    assert(m[d] == sub[d]);
                    if is_digit_run(m) {
                        assert(is_ascii_digit(m[d]));
                    }
                    assert forall|q: int|
                        0 <= q < m.len() && #[trigger] m[q] == '.' implies !(all_digits(
                        m.subrange(0, q),
                    ) && all_digits(m.subrange(q + 1, m.len() as int))) by {
                        if q < d {
                            assert(m.subrange(q + 1, m.len() as int)[d - q - 1] == m[d]);
                        } else if q > d {
                            assert(m.subrange(0, q)[d] == m[d]);
                        } else {
                            assert(m[q] == sub[d]);
                        }
                    }
                } else {
                    if is_mantissa(sub.subrange(0, d)) && is_exp_tail(
                        sub.subrange(d + 1, sub.len() as int),
                    ) {
                        assert(r);
                    }
                }
            }
        }
    }
    r
}

/// Whether `v[from..to]` equals a lowercase ASCII word, ignoring case.
fn matches_ci(v: &Vec<char>, from: usize, to: usize, word: &str) -> (r: bool)
    requires
        from <= to <= v@.len(),
    ensures
        r == eq_ignore_ascii_case(v@.subrange(from as int, to as int), word@),
{
    let ghost sub = v@.subrange(from as int, to as int);
    let wn = word.unicode_len();
    if to - from != wn {
        return false;
    }
    let mut i: usize = 0;
    while i < wn
        invariant
            i <= wn,
            wn == word@.len(),
            from + wn == to,
            to <= v@.len(),
            sub == v@.subrange(from as int, to as int),
            forall|k: int|
                0 <= k < i ==> ((#[trigger] sub[k]) == word@[k] || ('a' <= word@[k] && word@[k]
                    <= 'z' && (sub[k] as u32) == (word@[k] as u32) - 32)),
        decreases wn - i,
    {
        let c = v[from + i];
        let w = word.get_char(i);
        proof {
            assert(sub[i as int] == v@[from + i]);
        }
        let cu = c as u32;
        let wu = w as u32;
        if !(c == w || (w >= 'a' && w <= 'z' && wu >= 32 && wu - 32 == cu)) {
            return false;
        }
        i += 1;
    }
    true
}

/// Whether a text is a floating-point literal: decides the documented
/// grammar of std's float parser over the characters alone.
pub fn is_float_text(s: &str) -> (r: bool)
    ensures
        r == is_float_literal(s@),
{
    let v = chars_of(s);
    let n = v.len();
    let body: usize = if n > 0 && (v[0] == '+' || v[0] == '-') {
        1
    } else {
        0
    };
    proof {
        assert(strip_sign(s@) =~= v@.subrange(body as int, n as int));
    }
    if matches_ci(&v, body, n, "inf") {
        return true;
    }
    if matches_ci(&v, body, n, "infinity") {
        return true;
    }
    if matches_ci(&v, body, n, "nan") {
        return true;
    }
    is_number_range(&v, body, n)
}

/// The 64-bit integer a cell materializes to under an Integer column: its
/// parsed value, or 0 when the text is not an integer literal — possible
/// because inference only examined a bounded window — never an error.
pub fn materialize_i64(s: &str) -> (r: i64)
    ensures
        is_i64_literal(s@) ==> parsed_i64(s@) == Option::Some(r as int),
        !is_i64_literal(s@) ==> r == 0,
{
    match parse_i64(s) {
        Option::Some(v) => v,
        Option::None => 0,
    }
}

/// The boolean a cell materializes to under a Boolean column: `true` on
/// "true", `false` on anything else.
pub fn materialize_bool(s: &str) -> (r: bool)
    ensures
        r == (s@ == "true"@),
{
    proof {
        reveal_strlit("true");
        reveal_strlit("false");
    }
    match parse_bool(s) {
        Option::Some(v) => v,
        Option::None => false,
    }
}

} // verus!
