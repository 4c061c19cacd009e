//! The type a Java argument's text suggests: `int` for an integer literal,
//! `double` for a floating-point one, `String` for string literals and
//! concatenations.
use vstd::prelude::*;

use crate::text::{chars_of, is_ascii_digit, is_ascii_digit_exec, string_of, trim, trim_exec};

verus! {

/// The value of a run of decimal digits.
pub open spec fn decimal_value(d: Seq<char>) -> nat
    decreases d.len(),
{
    if d.len() == 0 {
        0
    } else {
        decimal_value(d.drop_last()) * 10 + (d.last() as nat - '0' as nat) as nat
    }
}

/// The number of sign characters an integer literal starts with.
pub open spec fn sign_len(s: Seq<char>) -> int {
    if s.len() > 0 && (s[0] == '-' || s[0] == '+') {
        1
    } else {
        0
    }
}

/// The largest magnitude an `i64` literal with that sign may have.
pub open spec fn i64_limit(s: Seq<char>) -> nat {
    if s.len() > 0 && s[0] == '-' {
        9223372036854775808nat
    } else {
        9223372036854775807nat
    }
}

/// All characters are ASCII digits.
pub open spec fn all_digits(d: Seq<char>) -> bool {
    forall|i: int| 0 <= i < d.len() ==> is_ascii_digit(#[trigger] d[i])
}

/// `str::parse::<i64>` succeeds: an optional `+` or `-`, then one or more
/// ASCII digits, for a value that fits in an `i64`.
pub open spec fn parses_as_i64(s: Seq<char>) -> bool {
    let d = s.skip(sign_len(s));
    d.len() > 0 && all_digits(d) && decimal_value(d) <= i64_limit(s)
}

pub fn parses_as_i64_exec(s: &[char]) -> (r: bool)
    ensures
        r == parses_as_i64(s@),
{
    let n = s.len();
    if n == 0 {
        return false;
    }
    let neg = s[0] == '-';
    let start: usize = if s[0] == '-' || s[0] == '+' {
        1
    } else {
        0
    };
    if start == n {
        return false;
    }
    assert(neg == (s@.len() > 0 && s@[0] == '-'));
    let limit: u64 = if neg {
        9223372036854775808
    } else {
        9223372036854775807
    };
    let ghost d = s@.skip(start as int);
    assert(start == sign_len(s@));
    assert(d.take(0) =~= Seq::<char>::empty());
    let mut value: u64 = 0;
    let mut i: usize = start;
    while i < n
        invariant
            n == s@.len(),
            start <= i <= n,
            d == s@.skip(start as int),
            start == sign_len(s@),
            d.len() == n - start,
            limit == i64_limit(s@),
            value <= limit,
            value == decimal_value(d.take(i - start)),
            forall|k: int| 0 <= k < i - start ==> is_ascii_digit(#[trigger] d[k]),
        decreases n - i,
    {
        let c = s[i];
        if !is_ascii_digit_exec(c) {
            assert(d[i - start] == c);
            assert(!is_ascii_digit(d[i - start]));
            assert(!all_digits(d));
            return false;
        }
        let digit: u64 = (c as u64) - ('0' as u64);
        assert(d.take(i - start + 1).drop_last() =~= d.take(i - start));
        assert(d.take(i - start + 1).last() == c);
        if value > (limit - digit) / 10 {
            proof {
                assert(value * 10 + digit > limit) by (nonlinear_arith)
                    requires
                        value > (limit - digit) / 10,
                        digit <= 9,
                        digit <= limit,
                ;
                assert(decimal_value(d.take(i - start + 1)) == value * 10 + digit);
                if all_digits(d) {
                    lemma_decimal_prefix_bound(d, i - start + 1);
                    assert(decimal_value(d) > limit);
                }
            }
            return false;
        }
        assert(value * 10 + digit <= limit) by (nonlinear_arith)
            requires
                value <= (limit - digit) / 10,
                digit <= 9,
                digit <= limit,
        ;
        value = value * 10 + digit;
        i = i + 1;
    }
    assert(d.take(n - start) =~= d);
    assert(all_digits(d));
    true
}

/// A prefix of digits is worth no more than the whole.
pub proof fn lemma_decimal_prefix_bound(d: Seq<char>, k: int)
    requires
        0 <= k <= d.len(),
        forall|i: int| 0 <= i < d.len() ==> is_ascii_digit(#[trigger] d[i]),
    ensures
        decimal_value(d.take(k)) <= decimal_value(d),
    decreases d.len() - k,
{
    if k < d.len() {
        lemma_decimal_prefix_bound(d, k + 1);
        assert(d.take(k + 1).drop_last() =~= d.take(k));
        let a = decimal_value(d.take(k));
        let b = decimal_value(d.take(k + 1));
        let c = (d.take(k + 1).last() as nat - '0' as nat) as nat;
        assert(b == a * 10 + c);
        assert(a <= b) by (nonlinear_arith)
            requires
                b == a * 10 + c,
                c >= 0,
                a >= 0,
        ;
    } else {
        assert(d.take(k) =~= d);
    }
}

/// `String` for a quoted literal or a concatenation with a literal.
pub open spec fn classify_string(value: Seq<char>) -> Option<Seq<char>> {
    let v = trim(value);
    if v.len() > 0 && v[0] == '"' && v.last() == '"' {
        Some("String"@)
    } else if v.contains('+') && v.contains('"') {
        Some("String"@)
    } else {
        None
    }
}

pub fn classify_string_exec(value: &str) -> (r: Option<String>)
    ensures
        crate::model::opt_view(r) == classify_string(value@),
{
    let v = trim_exec(&chars_of(value));
    let n = v.len();
    if n > 0 && v[0] == '"' && v[n - 1] == '"' {
        return Some(string_of(&chars_of("String")));
    }
    if crate::text::contains_char_exec(&v, '+') && crate::text::contains_char_exec(&v, '"') {
        return Some(string_of(&chars_of("String")));
    }
    None
}

/// `int` for an `i64` literal, else `double` for a text that parses as an
/// `f64` (whether it does is decided by the caller: that parse is
/// floating-point work).
pub open spec fn classify_numeric(value: Seq<char>, parses_as_float: bool) -> Option<Seq<char>> {
    if parses_as_i64(value) {
        Some("int"@)
    } else if parses_as_float {
        Some("double"@)
    } else {
        None
    }
}

pub fn classify_numeric_exec(value: &str, parses_as_float: bool) -> (r: Option<String>)
    ensures
        crate::model::opt_view(r) == classify_numeric(value@, parses_as_float),
{
    if parses_as_i64_exec(&chars_of(value)) {
        Some(string_of(&chars_of("int")))
    } else if parses_as_float {
        Some(string_of(&chars_of("double")))
    } else {
        None
    }
}

/// The type a value's text suggests: numeric first, then string.
pub open spec fn approximate_type_for_value(value: Seq<char>, parses_as_float: bool) -> Option<Seq<char>> {
    match classify_numeric(value, parses_as_float) {
        Some(t) => Some(t),
        None => classify_string(value),
    }
}

pub fn approximate_type_for_value_exec(value: &str, parses_as_float: bool) -> (r: Option<String>)
    ensures
        crate::model::opt_view(r) == approximate_type_for_value(value@, parses_as_float),
{
    match classify_numeric_exec(value, parses_as_float) {
        Some(t) => Some(t),
        None => classify_string_exec(value),
    }
}

} // verus!
