//! Integers written in JSON: reading a number's text as a 64-bit signed integer and writing
//! it back in decimal.

use vstd::prelude::*;
use crate::json::JsonValue;
use crate::text::decimal;

verus! {

/// `true` for `'0'..='9'`.
pub open spec fn is_digit(c: char) -> bool {
    '0' <= c && c <= '9'
}

/// `true` when `s` is one or more decimal digits.
pub open spec fn all_digits(s: Seq<char>) -> bool {
    s.len() > 0 && forall|i: int| 0 <= i < s.len() ==> is_digit(#[trigger] s[i])
}

/// The value of a run of decimal digits.
pub open spec fn digits_value(s: Seq<char>) -> nat
    decreases s.len(),
{
    if s.len() == 0 {
        0
    } else {
        10 * digits_value(s.drop_last()) + (s.last() as nat - '0' as nat) as nat
    }
}

/// The integer written by `t`: an optional `-` and one or more digits.
pub open spec fn int_literal(t: Seq<char>) -> Option<int> {
    if t.len() > 1 && t[0] == '-' && all_digits(t.skip(1)) {
        Some(-(digits_value(t.skip(1)) as int))
    } else if all_digits(t) {
        Some(digits_value(t) as int)
    } else {
        None
    }
}

/// The integer written by `t`, when it fits in an `i64`.
pub open spec fn i64_literal(t: Seq<char>) -> Option<int> {
    match int_literal(t) {
        Some(v) => if i64::MIN <= v <= i64::MAX {
            Some(v)
        } else {
            None
        },
        None => None,
    }
}

/// `v` in decimal, with a `-` before a negative value.
pub open spec fn int_decimal(v: int) -> Seq<char> {
    if v < 0 {
        seq!['-'] + decimal((-v) as nat)
    } else {
        decimal(v as nat)
    }
}

/// The decimal text of a JSON number that is an integer fitting in an `i64`; `None` for
/// anything else (another kind of value, a fraction, an exponent, a value out of range).
pub open spec fn int_text(v: JsonValue) -> Option<Seq<char>> {
    match v {
        JsonValue::Number(t) => match i64_literal(t@) {
            Some(x) => Some(int_decimal(x)),
            None => None,
        },
        _ => None,
    }
}

proof fn lemma_digits_value_prefix(s: Seq<char>, i: int)
    requires
        0 <= i <= s.len(),
    ensures
        digits_value(s.take(i)) <= digits_value(s),
    decreases s.len() - i,
{
    if i < s.len() {
        lemma_digits_value_prefix(s, i + 1);
        assert(s.take(i + 1).drop_last() =~= s.take(i));
    } else {
        assert(s.take(i) =~= s);
    }
}

/// Appends the decimal digits of `n`.
fn push_decimal_u64(out: &mut Vec<char>, n: u64)
    ensures
        final(out)@ == old(out)@ + decimal(n as nat),
    decreases n,
{
    if n >= 10 {
        push_decimal_u64(out, n / 10);
    }
    let d = (n % 10) as u8;
    let c = (48u8 + d) as char;
    out.push(c);
}

/// Reads `digits[start..]` as decimal digits; `None` when some character is not a digit, when
/// there are none, or when the value does not fit in a `u64`.
fn digits_u64(digits: &[char], start: usize) -> (r: Option<u64>)
    requires
        start <= digits@.len(),
    ensures
        match r {
            Some(v) => all_digits(digits@.skip(start as int)) && v == digits_value(digits@.skip(start as int)),
            None => !all_digits(digits@.skip(start as int)) || digits_value(digits@.skip(start as int)) > u64::MAX,
        },
{
    let ghost s = digits@.skip(start as int);
    if start == digits.len() {
        return None;
    }
    let mut acc: u64 = 0;
    let mut i: usize = start;
    while i < digits.len()
        invariant
            start <= i <= digits@.len(),
            s == digits@.skip(start as int),
            forall|k: int| 0 <= k < i - start ==> is_digit(#[trigger] s[k]),
            acc == digits_value(s.take(i - start)),
        decreases digits@.len() - i,
    {
        let c = digits[i];
        proof {
            assert(s[i - start] == c);
            assert(s.take(i - start + 1).drop_last() =~= s.take(i - start));
            assert(s.take(i - start + 1).last() == c);
        }
        if !('0' <= c && c <= '9') {
            assert(!is_digit(s[i - start]));
            return None;
        }
        let d = (c as u32 - 48u32) as u64;
        assert(d == (c as nat - '0' as nat));
        let m = acc.checked_mul(10);
        let next = match m {
            Some(x) => x.checked_add(d),
            None => None,
        };
        match next {
            Some(x) => {
                acc = x;
            },
            None => {
                proof {
                    assert(digits_value(s.take(i - start + 1)) == 10 * acc + d);
                    lemma_digits_value_prefix(s, i - start + 1);
                }
                return None;
            },
        }
        i += 1;
    }
    assert(s.take(i - start) =~= s);
    Some(acc)
}

/// The decimal text of `v` when it is a JSON number holding an integer that fits in an `i64`
/// (what reading it as an `i64` and printing that gives).
pub fn integer_text(v: &JsonValue) -> (r: Option<String>)
    ensures
        match r {
            Some(t) => int_text(*v) == Some(t@),
            None => int_text(*v) is None,
        },
{
    let t = match v {
        JsonValue::Number(t) => t,
        _ => {
            return None;
        },
    };
    let chars = crate::text::chars_of(t.as_str());
    let negative = chars.len() > 1 && chars[0] == '-';
    let start: usize = if negative { 1 } else { 0 };
    proof {
        assert(chars@.skip(0) =~= chars@);
    }
    let mag = match digits_u64(chars.as_slice(), start) {
        Some(m) => m,
        None => {
            proof {
                if !negative && chars@.len() > 1 && chars@[0] == '-' {
                }
                if !negative && all_digits(chars@) {
                }
            }
            return None;
        },
    };
    let mut out: Vec<char> = Vec::new();
    if negative {
        if mag > 9223372036854775808u64 {
            return None;
        }
        if mag > 0 {
            out.push('-');
        }
    } else {
        assert(!(chars@.len() > 1 && chars@[0] == '-' && all_digits(chars@.skip(1)))) by {
            if chars@.len() > 1 && chars@[0] == '-' {
                assert(!is_digit(chars@[0]));
            }
        }
        if mag > 9223372036854775807u64 {
            return None;
        }
    }
    push_decimal_u64(&mut out, mag);
    proof {
        if negative && mag > 0 {
            assert(out@ =~= seq!['-'] + decimal(mag as nat));
            assert(int_literal(t@) == Some(-(mag as int)));
            assert(int_text(*v) == Some(out@));
        } else if negative {
            assert(out@ =~= decimal(mag as nat));
            assert(int_literal(t@) == Some(0int));
            assert(int_text(*v) == Some(out@));
        } else {
            assert(out@ =~= decimal(mag as nat));
            assert(int_literal(t@) == Some(mag as int));
            assert(int_text(*v) == Some(out@));
        }
    }
    Some(crate::text::string_of(out.as_slice()))
}

/// The decimal text of `n` is a run of digits whose value is `n`.
pub proof fn lemma_decimal_digits(n: nat)
    ensures
        all_digits(decimal(n)),
        digits_value(decimal(n)) == n,
    decreases n,
{
    if n >= 10 {
        lemma_decimal_digits(n / 10);
        let d = decimal(n / 10);
        let s = decimal(n);
        assert(s == d + seq![('0' as int + n % 10) as char]);
        assert(s.drop_last() =~= d);
        assert(forall|i: int| 0 <= i < s.len() ==> is_digit(#[trigger] s[i])) by {
            assert forall|i: int| 0 <= i < s.len() implies is_digit(#[trigger] s[i]) by {
                if i < d.len() {
                    assert(s[i] == d[i]);
                }
            }
        }
        assert(n == 10 * (n / 10) + n % 10);
        let c = ('0' as int + n % 10) as char;
        assert(c as int == '0' as int + n % 10);
        assert(s.last() == c);
        assert(digits_value(s) == 10 * digits_value(d) + (c as nat - '0' as nat) as nat);
    } else {
        let s = decimal(n);
        assert(s.drop_last() =~= Seq::<char>::empty());
        let c = ('0' as int + n) as char;
        assert(c as int == '0' as int + n);
        assert(s.last() == c);
        assert(digits_value(s) == 10 * digits_value(s.drop_last()) + (c as nat - '0' as nat) as nat);
    }
}

/// Reading back the decimal text of an `i64` gives the same integer: the text produced for a
/// JSON integer is read as that integer again.
pub proof fn lemma_int_decimal_round_trip(v: int)
    requires
        i64::MIN <= v <= i64::MAX,
    ensures
        i64_literal(int_decimal(v)) == Some(v),
{
    if v < 0 {
        let m = (-v) as nat;
        lemma_decimal_digits(m);
        let t = int_decimal(v);
        assert(t.skip(1) =~= decimal(m));
        assert(decimal(m).len() > 0);
    } else {
        lemma_decimal_digits(v as nat);
        let t = int_decimal(v);
        if t.len() > 1 && t[0] == '-' {
            assert(is_digit(t[0]));
        }
    }
}


/// The value of a JSON number written as plain decimal digits that fits in a `u64`; `None`
/// for anything else.
pub open spec fn u64_value(v: JsonValue) -> Option<nat> {
    match v {
        JsonValue::Number(t) => if all_digits(t@) && digits_value(t@) <= u64::MAX {
            Some(digits_value(t@))
        } else {
            None
        },
        _ => None,
    }
}

/// Reads a JSON number written as plain decimal digits as a `u64`.
pub fn u64_of(v: &JsonValue) -> (r: Option<u64>)
    ensures
        match r {
            Some(n) => u64_value(*v) == Some(n as nat),
            None => u64_value(*v) is None,
        },
{
    match v {
        JsonValue::Number(t) => {
            let chars = crate::text::chars_of(t.as_str());
            proof {
                assert(chars@.skip(0) =~= chars@);
            }
            digits_u64(chars.as_slice(), 0)
        },
        _ => None,
    }
}

/// `n` as a JSON number, in decimal.
pub fn u64_number(n: u64) -> (r: JsonValue)
    ensures
        r matches JsonValue::Number(t) && t@ == decimal(n as nat),
{
    let mut out: Vec<char> = Vec::new();
    push_decimal_u64(&mut out, n);
    assert(out@ =~= decimal(n as nat));
    JsonValue::Number(crate::text::string_of(out.as_slice()))
}

/// Reading back a `u64` written as a JSON number gives the same value.
pub proof fn lemma_u64_number_round_trip(n: u64, v: JsonValue)
    requires
        v matches JsonValue::Number(t) && t@ == decimal(n as nat),
    ensures
        u64_value(v) == Some(n as nat),
{
    lemma_decimal_digits(n as nat);
}


/// The decimal text of a positive number does not start with `0`.
pub proof fn lemma_decimal_no_leading_zero(n: nat)
    requires
        n > 0,
    ensures
        decimal(n)[0] != '0',
    decreases n,
{
    if n >= 10 {
        lemma_decimal_no_leading_zero(n / 10);
        assert(decimal(n)[0] == decimal(n / 10)[0]);
    }
}


/// Which JSON numbers are integers and how they are written back: plain digits up to
/// `i64::MAX` are written in canonical decimal (no leading zeros); `-` and digits with a
/// magnitude from 1 to 2^63 are written with one `-`; `-0` is `0`; a number with a `.` (a
/// fraction or an exponent form using one) and any value that is not a number have no integer
/// text.
pub proof fn lemma_integer_text_rules(v: JsonValue, t: Seq<char>)
    ensures
        v matches JsonValue::Number(s) && s@ == t && all_digits(t) && digits_value(t) <= i64::MAX
            ==> int_text(v) == Some(decimal(digits_value(t))),
        v matches JsonValue::Number(s) && s@ == seq!['-'] + t && all_digits(t) && 0 < digits_value(t) <= 0x8000_0000_0000_0000
            ==> int_text(v) == Some(seq!['-'] + decimal(digits_value(t))),
        v matches JsonValue::Number(s) && s@ == seq!['-'] + t && all_digits(t) && digits_value(t) == 0
            ==> int_text(v) == Some(seq!['0']),
        v matches JsonValue::Number(s) && s@.contains('.') ==> int_text(v) is None,
        !(v is Number) ==> int_text(v) is None,
{
    if v is Number {
        let n = v->Number_0@;
        if n == seq!['-'] + t && all_digits(t) {
            assert(n.skip(1) =~= t);
            assert(n.len() > 1);
            assert(!is_digit(n[0]));
            assert(!all_digits(n));
        }
        if n == t && all_digits(t) {
            assert(!(n.len() > 1 && n[0] == '-'));
        }
        if n.contains('.') {
            let k = choose|k: int| 0 <= k < n.len() && n[k] == '.';
            assert(!is_digit(n[k]));
            if n.len() > 1 && n[0] == '-' {
                assert(k > 0);
                assert(n.skip(1)[k - 1] == '.');
                assert(!is_digit(n.skip(1)[k - 1]));
            }
        }
    }
}

} // verus!
