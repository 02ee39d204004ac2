//! Substitution of `%s` and `%N$s` slots in a translation format string.

use vstd::prelude::*;
use crate::text::{chars_of, string_of, views};

verus! {

pub open spec fn is_ascii_digit(c: char) -> bool {
    '0' <= c && c <= '9'
}

pub open spec fn digit_value(c: char) -> nat {
    (c as int - '0' as int) as nat
}

/// End of the run of ASCII digits in `fmt` that starts at `j`.
pub open spec fn digit_run_end(fmt: Seq<char>, j: int) -> int
    decreases fmt.len() - j,
{
    if 0 <= j < fmt.len() && is_ascii_digit(fmt[j]) {
        digit_run_end(fmt, j + 1)
    } else {
        j
    }
}

/// Decimal value of the digits `fmt[j..k]`.
pub open spec fn digits_value(fmt: Seq<char>, j: int, k: int) -> nat
    decreases k - j,
{
    if k <= j {
        0
    } else {
        digits_value(fmt, j, k - 1) * 10 + digit_value(fmt[k - 1])
    }
}

/// The argument substituted for slot number `n` (counted from zero), or nothing.
pub open spec fn slot_arg(args: Seq<Seq<char>>, n: int) -> Seq<char> {
    if 0 <= n < args.len() { args[n] } else { Seq::empty() }
}

pub proof fn lemma_digit_run_bounds(fmt: Seq<char>, j: int)
    requires
        0 <= j <= fmt.len(),
    ensures
        j <= digit_run_end(fmt, j) <= fmt.len(),
        forall|k: int| j <= k < digit_run_end(fmt, j) ==> is_ascii_digit(#[trigger] fmt[k]),
        digit_run_end(fmt, j) < fmt.len() ==> !is_ascii_digit(fmt[digit_run_end(fmt, j)]),
    decreases fmt.len() - j,
{
    if j < fmt.len() && is_ascii_digit(fmt[j]) {
        lemma_digit_run_bounds(fmt, j + 1);
    }
}

/// Where the optional `$` after the digits of a `%` at `i` ends: the position where an `s`
/// completes a slot.
pub open spec fn slot_letter_at(fmt: Seq<char>, i: int) -> int {
    let k = digit_run_end(fmt, i + 1);
    if k < fmt.len() && fmt[k] == '$' { k + 1 } else { k }
}

/// `true` when the `%` at `i` starts a slot: `%s`, `%Ns` or `%N$s`.
pub open spec fn starts_slot(fmt: Seq<char>, i: int) -> bool {
    slot_letter_at(fmt, i) < fmt.len() && fmt[slot_letter_at(fmt, i)] == 's'
}

/// The text produced from `fmt[i..]` with `next` positional slots already used, or `None`
/// when a slot's number does not fit in a `usize` (the accumulation overflows).
///
/// `%%` is a literal `%`. `%s` takes the next positional argument and `%N$s` (or `%Ns`) the
/// `N`th one (from 1); a missing argument yields nothing and `%0$s` yields nothing. Everything
/// else, a `%` that starts no slot included, is kept as it is.
pub open spec fn render(fmt: Seq<char>, args: Seq<Seq<char>>, i: int, next: nat) -> Option<Seq<char>>
    decreases fmt.len() - i,
{
    if i < 0 || i >= fmt.len() {
        Some(Seq::empty())
    } else if fmt[i] != '%' {
        match render(fmt, args, i + 1, next) {
            Some(r) => Some(seq![fmt[i]] + r),
            None => None,
        }
    } else if i + 1 < fmt.len() && fmt[i + 1] == '%' {
        match render(fmt, args, i + 2, next) {
            Some(r) => Some(seq!['%'] + r),
            None => None,
        }
    } else if starts_slot(fmt, i) {
        let j = i + 1;
        let k = digit_run_end(fmt, j);
        proof {
            lemma_digit_run_bounds(fmt, j);
        }
        let has_index = k > j;
        let index = digits_value(fmt, j, k);
        let k2 = slot_letter_at(fmt, i);
        if has_index && index > usize::MAX {
            None
        } else {
            let piece = if !has_index {
                slot_arg(args, next as int)
            } else if index > 0 {
                slot_arg(args, index - 1)
            } else {
                Seq::empty()
            };
            let next2 = if !has_index { next + 1 } else { next };
            match render(fmt, args, k2 + 1, next2) {
                Some(r) => Some(piece + r),
                None => None,
            }
        }
    } else {
        match render(fmt, args, i + 1, next) {
            Some(r) => Some(seq!['%'] + r),
            None => None,
        }
    }
}

/// What substituting `args` into `fmt` gives, or `None` when a slot number overflows.
pub open spec fn apply_slots(fmt: Seq<char>, args: Seq<Seq<char>>) -> Option<Seq<char>> {
    render(fmt, args, 0, 0)
}

proof fn lemma_digits_value_monotone(fmt: Seq<char>, j: int, k: int, l: int)
    requires
        j <= k <= l,
    ensures
        digits_value(fmt, j, k) <= digits_value(fmt, j, l),
    decreases l - k,
{
    if k < l {
        lemma_digits_value_monotone(fmt, j, k, l - 1);
    }
}

/// Appends argument `n` (counted from zero) if there is one.
fn push_arg(out: &mut Vec<char>, args: &[String], n: usize)
    ensures
        final(out)@ == old(out)@ + slot_arg(views(args@), n as int),
{
    if n < args.len() {
        let a = chars_of(args[n].as_str());
        push_all_chars(out, a.as_slice());
    }
}

fn push_all_chars(out: &mut Vec<char>, tail: &[char])
    ensures
        final(out)@ == old(out)@ + tail@,
{
    let mut i: usize = 0;
    while i < tail.len()
        invariant
            i <= tail@.len(),
            out@ == old(out)@ + tail@.take(i as int),
        decreases tail@.len() - i,
    {
        out.push(tail[i]);
        i += 1;
        assert(out@ =~= old(out)@ + tail@.take(i as int));
    }
    assert(tail@.take(tail@.len() as int) =~= tail@);
}

/// Reads the run of digits starting at `j`; `None` when its value does not fit in a `usize`.
fn parse_slot_number(f: &[char], j: usize) -> (r: Option<(usize, usize)>)
    requires
        j <= f@.len(),
    ensures
        match r {
            Some((k, v)) => k as int == digit_run_end(f@, j as int) && v as nat == digits_value(
                f@,
                j as int,
                k as int,
            ),
            None => digits_value(f@, j as int, digit_run_end(f@, j as int)) > usize::MAX,
        },
{
    let len = f.len();
    proof {
        lemma_digit_run_bounds(f@, j as int);
    }
    let mut k = j;
    let mut index: usize = 0;
    while k < len && '0' <= f[k] && f[k] <= '9'
        invariant
            len == f@.len(),
            j <= k <= len,
            digit_run_end(f@, k as int) == digit_run_end(f@, j as int),
            index == digits_value(f@, j as int, k as int),
        decreases len - k,
    {
        let d = (f[k] as u32 - 48) as usize;
        let grown = match index.checked_mul(10) {
            Some(m) => m.checked_add(d),
            None => None,
        };
        match grown {
            Some(v) => {
                index = v;
            },
            None => {
                proof {
                    lemma_digit_run_bounds(f@, k + 1);
                    lemma_digits_value_monotone(f@, j as int, k + 1, digit_run_end(f@, j as int));
                }
                return None;
            },
        }
        k += 1;
    }
    Some((k, index))
}

/// End of the run of digits starting at `j`.
fn digit_run_end_of(f: &[char], j: usize) -> (r: usize)
    requires
        j <= f@.len(),
    ensures
        r as int == digit_run_end(f@, j as int),
{
    proof {
        lemma_digit_run_bounds(f@, j as int);
    }
    let mut k = j;
    while k < f.len() && '0' <= f[k] && f[k] <= '9'
        invariant
            j <= k <= f@.len(),
            digit_run_end(f@, k as int) == digit_run_end(f@, j as int),
        decreases f@.len() - k,
    {
        k += 1;
    }
    k
}

/// Handles the `%` at `i` (not followed by another `%`): appends its output and returns where
/// rendering resumes and how many positional slots are used then.
fn slot_step(f: &[char], args: &[String], i: usize, next: usize, out: &mut Vec<char>) -> (r:
    Option<(usize, usize)>)
    requires
        i < f@.len(),
        f@[i as int] == '%',
        !(i + 1 < f@.len() && f@[i + 1] == '%'),
        next <= i,
    ensures
        final(out)@.len() >= old(out)@.len(),
        final(out)@.take(old(out)@.len() as int) == old(out)@,
        match r {
            Some((i2, n2)) => {
                &&& i < i2 <= f@.len()
                &&& n2 <= i2
                &&& match render(f@, views(args@), i2 as int, n2 as nat) {
                    Some(rest) => render(f@, views(args@), i as int, next as nat) == Some(
                        final(out)@.skip(old(out)@.len() as int) + rest,
                    ),
                    None => render(f@, views(args@), i as int, next as nat) is None,
                }
            },
            None => render(f@, views(args@), i as int, next as nat) is None,
        },
{
    let len = f.len();
    let ghost a = views(args@);
    let ghost old_out = out@;
    let j = i + 1;
    proof {
        lemma_digit_run_bounds(f@, j as int);
    }
    let k0 = digit_run_end_of(f, j);
    let k2 = if k0 < len && f[k0] == '$' {
        k0 + 1
    } else {
        k0
    };
    if !(k2 < len && f[k2] == 's') {
        out.push('%');
        proof {
            assert(out@.skip(old_out.len() as int) =~= seq!['%']);
            assert(out@.take(old_out.len() as int) =~= old_out);
        }
        return Some((i + 1, next));
    }
    let (k, index) = match parse_slot_number(f, j) {
        Some(p) => p,
        None => {
            assert(out@.take(old_out.len() as int) =~= old_out);
            return None;
        },
    };
    let has_index = k > j;
    let mut next2 = next;
    if !has_index {
        push_arg(out, args, next);
        next2 = next + 1;
    } else if index > 0 {
        push_arg(out, args, index - 1);
    }
    assert(out@.take(old_out.len() as int) =~= old_out);
    Some((k2 + 1, next2))
}

/// Substitutes `%s` and `%N$s` slots in `format` with `args` (see [`render`]).
///
/// Returns `None` exactly when a slot number does not fit in a `usize`.
pub fn substitute_slots(format: &str, args: &[String]) -> (r: Option<String>)
    ensures
        match r {
            Some(s) => apply_slots(format@, views(args@)) == Some(s@),
            None => apply_slots(format@, views(args@)) is None,
        },
{
    let f = chars_of(format);
    let len = f.len();
    let ghost a = views(args@);
    let ghost whole = render(f@, a, 0, 0);
    let mut out: Vec<char> = Vec::new();
    let mut i: usize = 0;
    let mut next: usize = 0;
    assert(out@ + whole.unwrap() =~= whole.unwrap());
    while i < len
        invariant
            len == f@.len(),
            f@ == format@,
            a == views(args@),
            whole == render(f@, a, 0, 0),
            i <= len,
            next <= i,
            match render(f@, a, i as int, next as nat) {
                Some(r) => whole == Some(out@ + r),
                None => whole is None,
            },
        decreases len - i,
    {
        let c = f[i];
        if c != '%' {
            proof {
                if let Some(r) = render(f@, a, i + 1, next as nat) {
                    assert(out@ + (seq![c] + r) =~= out@.push(c) + r);
                }
            }
            out.push(c);
            i += 1;
        } else if i + 1 < len && f[i + 1] == '%' {
            proof {
                if let Some(r) = render(f@, a, i + 2, next as nat) {
                    assert(out@ + (seq!['%'] + r) =~= out@.push('%') + r);
                }
            }
            out.push('%');
            i += 2;
        } else {
            let ghost old_out = out@;
            match slot_step(f.as_slice(), args, i, next, &mut out) {
                Some((i2, n2)) => {
                    proof {
                        let piece = out@.skip(old_out.len() as int);
                        assert(out@ =~= old_out + piece);
                        if let Some(r) = render(f@, a, i2 as int, n2 as nat) {
                            assert(old_out + (piece + r) =~= out@ + r);
                        }
                    }
                    i = i2;
                    next = n2;
                },
                None => {
                    return None;
                },
            }
        }
    }
    assert(out@ + seq![] =~= out@);
    Some(string_of(out.as_slice()))
}

/// `true` when no `%` of `fmt` starts a slot or a `%%`.
pub open spec fn has_no_slots(fmt: Seq<char>) -> bool {
    forall|k: int| 0 <= k < fmt.len() && #[trigger] fmt[k] == '%' ==> {
        &&& !starts_slot(fmt, k)
        &&& !(k + 1 < fmt.len() && fmt[k + 1] == '%')
    }
}

proof fn lemma_render_without_slots(fmt: Seq<char>, args: Seq<Seq<char>>, i: int, next: nat)
    requires
        0 <= i <= fmt.len(),
        has_no_slots(fmt),
    ensures
        render(fmt, args, i, next) == Some(fmt.skip(i)),
    decreases fmt.len() - i,
{
    if i < fmt.len() {
        lemma_render_without_slots(fmt, args, i + 1, next);
        assert(seq![fmt[i]] + fmt.skip(i + 1) =~= fmt.skip(i));
    } else {
        assert(fmt.skip(i) =~= Seq::<char>::empty());
    }
}

/// Only slots and `%%` change: a format in which no `%` starts a slot or a `%%` is its own
/// text, whatever the arguments (a lone `%`, and what follows it, are kept).
pub proof fn lemma_format_without_slots_unchanged(fmt: Seq<char>, args: Seq<Seq<char>>)
    requires
        has_no_slots(fmt),
    ensures
        apply_slots(fmt, args) == Some(fmt),
{
    lemma_render_without_slots(fmt, args, 0, 0);
    assert(fmt.skip(0) =~= fmt);
}

/// A format without `%` is its own text, whatever the arguments.
pub proof fn lemma_plain_format_unchanged(fmt: Seq<char>, args: Seq<Seq<char>>)
    requires
        forall|k: int| 0 <= k < fmt.len() ==> fmt[k] != '%',
    ensures
        apply_slots(fmt, args) == Some(fmt),
{
    assert(has_no_slots(fmt));
    lemma_format_without_slots_unchanged(fmt, args);
}


/// What each piece of a format becomes, read from position `i` with `next` positional slots
/// used: a character other than `%` is kept; `%%` is one `%`; `%s` is the next positional
/// argument (then one more is used); `%N$s` and `%Ns` with one digit `N` from 1 to 9 are the
/// `N`th argument (positional slots are not used up); `%0$s` is nothing; a `%` that starts no
/// slot is kept; missing arguments give nothing.
pub proof fn lemma_slot_steps(fmt: Seq<char>, args: Seq<Seq<char>>, i: int, next: nat)
    requires
        0 <= i < fmt.len(),
    ensures
        fmt[i] != '%' ==> render(fmt, args, i, next) == match render(fmt, args, i + 1, next) {
            Some(r) => Some(seq![fmt[i]] + r),
            None => None,
        },
        fmt[i] == '%' && i + 1 < fmt.len() && fmt[i + 1] == '%' ==> render(fmt, args, i, next) == match render(
            fmt,
            args,
            i + 2,
            next,
        ) {
            Some(r) => Some(seq!['%'] + r),
            None => None,
        },
        fmt[i] == '%' && i + 1 < fmt.len() && fmt[i + 1] == 's' ==> render(fmt, args, i, next) == match render(
            fmt,
            args,
            i + 2,
            next + 1,
        ) {
            Some(r) => Some((if next < args.len() { args[next as int] } else { Seq::empty() }) + r),
            None => None,
        },
        fmt[i] == '%' && i + 3 < fmt.len() && '1' <= fmt[i + 1] <= '9' && fmt[i + 2] == '$' && fmt[i + 3] == 's'
            ==> render(fmt, args, i, next) == match render(fmt, args, i + 4, next) {
            Some(r) => Some(
                (if (fmt[i + 1] as int - '1' as int) < args.len() {
                    args[fmt[i + 1] as int - '1' as int]
                } else {
                    Seq::empty()
                }) + r,
            ),
            None => None,
        },
        fmt[i] == '%' && i + 2 < fmt.len() && '1' <= fmt[i + 1] <= '9' && fmt[i + 2] == 's'
            ==> render(fmt, args, i, next) == match render(fmt, args, i + 3, next) {
            Some(r) => Some(
                (if (fmt[i + 1] as int - '1' as int) < args.len() {
                    args[fmt[i + 1] as int - '1' as int]
                } else {
                    Seq::empty()
                }) + r,
            ),
            None => None,
        },
        fmt[i] == '%' && i + 3 < fmt.len() && fmt[i + 1] == '0' && fmt[i + 2] == '$' && fmt[i + 3] == 's'
            ==> render(fmt, args, i, next) == render(fmt, args, i + 4, next),
        fmt[i] == '%' && i + 1 == fmt.len() ==> render(fmt, args, i, next) == Some(seq!['%']),
        fmt[i] == '%' && i + 1 < fmt.len() && fmt[i + 1] != '%' && fmt[i + 1] != 's' && fmt[i + 1] != '$'
            && !('0' <= fmt[i + 1] <= '9') ==> render(fmt, args, i, next) == match render(fmt, args, i + 1, next) {
            Some(r) => Some(seq!['%'] + r),
            None => None,
        },
{
    if fmt[i] == '%' {
        lemma_digit_run_bounds(fmt, i + 1);
        if i + 1 < fmt.len() && '0' <= fmt[i + 1] <= '9' {
            assert(is_ascii_digit(fmt[i + 1]));
            if i + 2 < fmt.len() && (fmt[i + 2] == '$' || fmt[i + 2] == 's') {
                assert(!is_ascii_digit(fmt[i + 2]));
                assert(digit_run_end(fmt, i + 2) == i + 2);
                assert(digit_run_end(fmt, i + 1) == i + 2);
                assert(digits_value(fmt, i + 1, i + 1) == 0);
                assert(digits_value(fmt, i + 1, i + 2) == digit_value(fmt[i + 1]));
            }
        }
        if i + 1 < fmt.len() && fmt[i + 1] == 's' {
            assert(!is_ascii_digit(fmt[i + 1]));
            assert(digit_run_end(fmt, i + 1) == i + 1);
        }
        if i + 1 < fmt.len() && fmt[i + 1] != '%' && fmt[i + 1] != 's' && fmt[i + 1] != '$' && !('0' <= fmt[i + 1] <= '9') {
            assert(digit_run_end(fmt, i + 1) == i + 1);
        }
        if i + 1 == fmt.len() {
            assert(digit_run_end(fmt, i + 1) == i + 1);
            assert(render(fmt, args, i + 1, next) == Some(Seq::<char>::empty()));
            assert(seq!['%'] + Seq::<char>::empty() =~= seq!['%']);
        }
    }
}

} // verus!
