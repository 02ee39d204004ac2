//! Path-component helpers: sanitizing free text into a path part and
//! validating that a string is exactly one normal path segment.

use vstd::prelude::*;
use crate::text::{chars_of, owned, push_str, string_of};

verus! {

/// Characters kept as they are by [`sanitize_path_part`].
pub open spec fn is_kept_char(c: char) -> bool {
    ||| ('a' <= c && c <= 'z')
    ||| ('A' <= c && c <= 'Z')
    ||| ('0' <= c && c <= '9')
    ||| c == '-'
    ||| c == '_'
    ||| c == '.'
}

/// Characters trimmed from both ends by [`sanitize_path_part`].
pub open spec fn is_trimmed_char(c: char) -> bool {
    c == '-' || c == '.' || c == '_'
}

pub open spec fn sanitize_char(c: char) -> char {
    if is_kept_char(c) { c } else { '-' }
}

pub open spec fn sanitize_chars(s: Seq<char>) -> Seq<char> {
    s.map_values(|c: char| sanitize_char(c))
}

/// Index of the first character at or after `i` that is not trimmed.
pub open spec fn trim_start_from(s: Seq<char>, i: int) -> int
    decreases s.len() - i,
{
    if 0 <= i < s.len() && is_trimmed_char(s[i]) {
        trim_start_from(s, i + 1)
    } else {
        i
    }
}

/// End (exclusive) of `s` after dropping trimmed characters backwards from `j`, not past `a`.
pub open spec fn trim_end_to(s: Seq<char>, a: int, j: int) -> int
    decreases j - a,
{
    if a < j && j <= s.len() && is_trimmed_char(s[j - 1]) {
        trim_end_to(s, a, j - 1)
    } else {
        j
    }
}

/// `s` without leading and trailing `-`, `.` and `_`.
pub open spec fn trim_parts(s: Seq<char>) -> Seq<char> {
    let a = trim_start_from(s, 0);
    s.subrange(a, trim_end_to(s, a, s.len() as int))
}

pub open spec fn unknown_part() -> Seq<char> {
    seq!['u', 'n', 'k', 'n', 'o', 'w', 'n']
}

/// What [`sanitize_path_part`] returns for `s`.
pub open spec fn sanitized(s: Seq<char>) -> Seq<char> {
    let t = trim_parts(sanitize_chars(s));
    if t.len() == 0 { unknown_part() } else { t }
}

proof fn lemma_trim_start_bounds(s: Seq<char>, i: int)
    requires
        0 <= i <= s.len(),
    ensures
        i <= trim_start_from(s, i) <= s.len(),
        forall|k: int| i <= k < trim_start_from(s, i) ==> is_trimmed_char(#[trigger] s[k]),
        trim_start_from(s, i) < s.len() ==> !is_trimmed_char(s[trim_start_from(s, i)]),
    decreases s.len() - i,
{
    if i < s.len() && is_trimmed_char(s[i]) {
        lemma_trim_start_bounds(s, i + 1);
    }
}

proof fn lemma_trim_end_bounds(s: Seq<char>, a: int, j: int)
    requires
        0 <= a <= j <= s.len(),
    ensures
        a <= trim_end_to(s, a, j) <= j,
        forall|k: int| trim_end_to(s, a, j) <= k < j ==> is_trimmed_char(#[trigger] s[k]),
        trim_end_to(s, a, j) > a ==> !is_trimmed_char(s[trim_end_to(s, a, j) - 1]),
    decreases j - a,
{
    if a < j && is_trimmed_char(s[j - 1]) {
        lemma_trim_end_bounds(s, a, j - 1);
    }
}

/// Sanitizes a string so it can be safely used as a path component.
pub fn sanitize_path_part(value: &str) -> (r: String)
    ensures
        r@ == sanitized(value@),
{
    let chars = chars_of(value);
    let mut mapped: Vec<char> = Vec::new();
    let mut i: usize = 0;
    while i < chars.len()
        invariant
            i <= chars@.len(),
            chars@ == value@,
            mapped@ == sanitize_chars(chars@).take(i as int),
        decreases chars@.len() - i,
    {
        let c = chars[i];
        let kept = ('a' <= c && c <= 'z') || ('A' <= c && c <= 'Z') || ('0' <= c && c <= '9')
            || c == '-' || c == '_' || c == '.';
        if kept {
            mapped.push(c);
        } else {
            mapped.push('-');
        }
        i += 1;
        assert(mapped@ =~= sanitize_chars(chars@).take(i as int));
    }
    assert(mapped@ =~= sanitize_chars(value@));
    let ghost m = mapped@;
    let n = mapped.len();
    let mut a: usize = 0;
    while a < n && (mapped[a] == '-' || mapped[a] == '.' || mapped[a] == '_')
        invariant
            n == m.len(),
            mapped@ == m,
            a <= n,
            trim_start_from(m, a as int) == trim_start_from(m, 0),
        decreases n - a,
    {
        a += 1;
    }
    let mut b: usize = n;
    while b > a && (mapped[b - 1] == '-' || mapped[b - 1] == '.' || mapped[b - 1] == '_')
        invariant
            n == m.len(),
            mapped@ == m,
            a <= b <= n,
            a == trim_start_from(m, 0),
            trim_end_to(m, a as int, b as int) == trim_end_to(m, a as int, n as int),
        decreases b - a,
    {
        b -= 1;
    }
    if a == b {
        let r = string_of(&['u', 'n', 'k', 'n', 'o', 'w', 'n']);
        assert(r@ =~= unknown_part());
        r
    } else {
        let r = string_of(&mapped.as_slice()[a..b]);
        assert(r@ =~= trim_parts(m));
        r
    }
}

/// Length of the first `/`-separated part of `v`.
pub open spec fn first_part_end(v: Seq<char>, i: int) -> int
    decreases v.len() - i,
{
    if 0 <= i < v.len() && v[i] != '/' {
        first_part_end(v, i + 1)
    } else {
        i
    }
}

/// `true` when every `/`-separated part of `rest` (which follows the first part) is empty or `.`,
/// so that path normalization drops it.
pub open spec fn only_empty_or_dot_parts(rest: Seq<char>) -> bool {
    forall|i: int|
        0 <= i < rest.len() ==> (#[trigger] rest[i] == '/' || (rest[i] == '.' && i > 0 && rest[i - 1]
            == '/' && (i + 1 == rest.len() || rest[i + 1] == '/')))
}

/// `true` when `v` is exactly one normal path component: a non-empty first part that is
/// neither `.` nor `..`, followed only by separators and `.` parts (which normalize away).
pub open spec fn is_single_normal_component(v: Seq<char>) -> bool {
    let n = first_part_end(v, 0);
    let first = v.take(n);
    &&& n > 0
    &&& first != seq!['.']
    &&& first != seq!['.', '.']
    &&& only_empty_or_dot_parts(v.skip(n))
}

/// `true` when `v` is accepted by [`validate_path_segment`].
pub open spec fn is_valid_path_segment(v: Seq<char>) -> bool {
    &&& v.len() > 0
    &&& !v.contains('\\')
    &&& is_single_normal_component(v)
}

/// Why a string was refused as a path segment.
#[derive(Debug)]
pub enum PathSegmentError {
    /// The value was empty; `kind` names what it was meant to be.
    Empty { kind: String },
    /// The value is not exactly one normal path segment.
    InvalidComponent { kind: String, value: String },
}

pub open spec fn empty_message(kind: Seq<char>) -> Seq<char> {
    kind + " must not be empty"@
}

pub open spec fn invalid_component_message(kind: Seq<char>, value: Seq<char>) -> Seq<char> {
    kind + " contains invalid path component: "@ + value
}

impl PathSegmentError {
    pub open spec fn spec_message(&self) -> Seq<char> {
        match self {
            PathSegmentError::Empty { kind } => empty_message(kind@),
            PathSegmentError::InvalidComponent { kind, value } => invalid_component_message(
                kind@,
                value@,
            ),
        }
    }

    /// The error text, as the command-line tools print it.
    pub fn message(&self) -> (r: String)
        ensures
            r@ == self.spec_message(),
    {
        match self {
            PathSegmentError::Empty { kind } => {
                let mut r = kind.clone();
                push_str(&mut r, " must not be empty");
                r
            },
            PathSegmentError::InvalidComponent { kind, value } => {
                let mut r = kind.clone();
                push_str(&mut r, " contains invalid path component: ");
                push_str(&mut r, value.as_str());
                r
            },
        }
    }
}

fn chars_contain(v: &[char], c: char) -> (r: bool)
    ensures
        r == v@.contains(c),
{
    let mut i: usize = 0;
    while i < v.len()
        invariant
            i <= v@.len(),
            forall|j: int| 0 <= j < i ==> v@[j] != c,
        decreases v@.len() - i,
    {
        if v[i] == c {
            assert(v@[i as int] == c);
            return true;
        }
        i += 1;
    }
    false
}

fn single_normal_component(v: &[char]) -> (r: bool)
    ensures
        r == is_single_normal_component(v@),
{
    let len = v.len();
    let mut n: usize = 0;
    while n < len && v[n] != '/'
        invariant
            len == v@.len(),
            n <= len,
            first_part_end(v@, n as int) == first_part_end(v@, 0),
        decreases len - n,
    {
        n += 1;
    }
    if n == 0 {
        return false;
    }
    if n == 1 && v[0] == '.' {
        assert(v@.take(1) =~= seq!['.']);
        return false;
    }
    if n == 2 && v[0] == '.' && v[1] == '.' {
        assert(v@.take(2) =~= seq!['.', '.']);
        return false;
    }
    assert(first_part_end(v@, n as int) == n as int);
    assert(v@.take(n as int) != seq!['.']) by {
        assert(seq!['.'].len() == 1);
        assert(seq!['.'][0] == '.');
        if n == 1 {
            assert(v@.take(1)[0] == v@[0]);
        }
    }
    assert(v@.take(n as int) != seq!['.', '.']) by {
        assert(seq!['.', '.'].len() == 2);
        assert(seq!['.', '.'][0] == '.');
        assert(seq!['.', '.'][1] == '.');
        if n == 2 {
            assert(v@.take(2)[0] == v@[0]);
            assert(v@.take(2)[1] == v@[1]);
        }
    }
    let ghost rest = v@.skip(n as int);
    let mut i: usize = n;
    while i < len
        invariant
            len == v@.len(),
            n <= i <= len,
            rest == v@.skip(n as int),
            first_part_end(v@, 0) == n as int,
            forall|k: int|
                0 <= k < i - n ==> (#[trigger] rest[k] == '/' || (rest[k] == '.' && k > 0 && rest[k
                    - 1] == '/' && (k + 1 == rest.len() || rest[k + 1] == '/'))),
        decreases len - i,
    {
        let c = v[i];
        let ok = c == '/' || (c == '.' && i > n && v[i - 1] == '/' && (i + 1 == len || v[i + 1]
            == '/'));
        let ghost k = i - n;
        assert(rest[k] == v@[i as int]);
        assert(k > 0 ==> rest[k - 1] == v@[i - 1]);
        assert(k + 1 < rest.len() ==> rest[k + 1] == v@[i + 1]);
        if !ok {
            assert(!(rest[k] == '/' || (rest[k] == '.' && k > 0 && rest[k - 1] == '/' && (k + 1
                == rest.len() || rest[k + 1] == '/'))));
            return false;
        }
        i += 1;
    }
    true
}

/// Validates that `value` is a single non-empty path segment without traversal.
pub fn validate_path_segment(value: &str, kind: &str) -> (r: Result<(), PathSegmentError>)
    ensures
        r is Ok <==> is_valid_path_segment(value@),
        value@.len() == 0 ==> (r matches Err(PathSegmentError::Empty { kind: k }) && k@ == kind@),
        value@.len() > 0 && !is_valid_path_segment(value@) ==> (r matches Err(
            PathSegmentError::InvalidComponent { kind: k, value: v },
        ) && k@ == kind@ && v@ == value@),
        r matches Err(e) ==> e.spec_message() == segment_error_message(kind@, value@),
{
    let v = chars_of(value);
    if v.len() == 0 {
        return Err(PathSegmentError::Empty { kind: string_of(chars_of(kind).as_slice()) });
    }
    if chars_contain(v.as_slice(), '\\') || !single_normal_component(v.as_slice()) {
        return Err(
            PathSegmentError::InvalidComponent {
                kind: string_of(chars_of(kind).as_slice()),
                value: string_of(v.as_slice()),
            },
        );
    }
    Ok(())
}


proof fn lemma_no_slash_first_part(v: Seq<char>, i: int)
    requires
        0 <= i <= v.len(),
        forall|k: int| 0 <= k < v.len() ==> #[trigger] v[k] != '/',
    ensures
        first_part_end(v, i) == v.len(),
    decreases v.len() - i,
{
    if i < v.len() {
        lemma_no_slash_first_part(v, i + 1);
    }
}

/// Whatever the input, [`sanitize_path_part`] returns a non-empty string of ASCII letters,
/// digits, `-`, `_` and `.`, which neither starts nor ends with `-`, `.` or `_`.
pub proof fn lemma_sanitized_shape(s: Seq<char>)
    ensures
        sanitized(s).len() > 0,
        forall|k: int| 0 <= k < sanitized(s).len() ==> is_kept_char(#[trigger] sanitized(s)[k]),
        !is_trimmed_char(sanitized(s)[0]),
        !is_trimmed_char(sanitized(s)[sanitized(s).len() - 1]),
{
    let m = sanitize_chars(s);
    let a = trim_start_from(m, 0);
    lemma_trim_start_bounds(m, 0);
    lemma_trim_end_bounds(m, a, m.len() as int);
    let b = trim_end_to(m, a, m.len() as int);
    if a < b {
        assert forall|k: int| 0 <= k < m.len() implies is_kept_char(#[trigger] m[k]) by {}
        assert(sanitized(s) == m.subrange(a, b));
    } else {
        let u = unknown_part();
        assert(sanitized(s) == u);
        assert(u[0] == 'u' && u[6] == 'n' && u.len() == 7);
        assert forall|k: int| 0 <= k < u.len() implies is_kept_char(#[trigger] u[k]) by {
            assert(u[k] == 'u' || u[k] == 'n' || u[k] == 'k' || u[k] == 'o' || u[k] == 'w');
        }
    }
}

/// ASCII letters and digits.
pub open spec fn is_ascii_alphanumeric(c: char) -> bool {
    ('a' <= c && c <= 'z') || ('A' <= c && c <= 'Z') || ('0' <= c && c <= '9')
}

/// A string without ASCII letters or digits sanitizes to `unknown`.
pub proof fn lemma_sanitized_unknown_without_alphanumerics(s: Seq<char>)
    requires
        forall|k: int| 0 <= k < s.len() ==> !is_ascii_alphanumeric(#[trigger] s[k]),
    ensures
        sanitized(s) == unknown_part(),
{
    let m = sanitize_chars(s);
    lemma_trim_start_bounds(m, 0);
    let a = trim_start_from(m, 0);
    if a < m.len() {
        assert(!is_ascii_alphanumeric(s[a]));
        assert(is_trimmed_char(m[a]));
    }
    lemma_trim_end_bounds(m, a, m.len() as int);
    assert(trim_parts(m).len() == 0);
}

/// Whatever the input, the output of [`sanitize_path_part`] is accepted by
/// [`validate_path_segment`].
pub proof fn lemma_sanitized_is_valid_segment(s: Seq<char>)
    ensures
        is_valid_path_segment(sanitized(s)),
{
    let t = sanitized(s);
    lemma_sanitized_shape(s);
    assert forall|k: int| 0 <= k < t.len() implies #[trigger] t[k] != '/' by {
        assert(is_kept_char(t[k]));
    }
    assert(!t.contains('\\')) by {
        if t.contains('\\') {
            let k = choose|k: int| 0 <= k < t.len() && t[k] == '\\';
            assert(is_kept_char(t[k]));
        }
    }
    lemma_no_slash_first_part(t, 0);
    assert(t.take(t.len() as int) == t);
    assert(t != seq!['.']) by {
        assert(seq!['.'][0] == '.');
    }
    assert(t != seq!['.', '.']) by {
        assert(seq!['.', '.'][0] == '.');
    }
    assert(t.skip(t.len() as int).len() == 0);
}

/// Sanitizing an already sanitized string changes nothing.
pub proof fn lemma_sanitize_idempotent(s: Seq<char>)
    ensures
        sanitized(sanitized(s)) == sanitized(s),
{
    let t = sanitized(s);
    lemma_sanitized_shape(s);
    let m = sanitize_chars(t);
    assert(m =~= t) by {
        assert forall|k: int| 0 <= k < t.len() implies m[k] == t[k] by {
            assert(is_kept_char(t[k]));
        }
    }
    assert(trim_start_from(m, 0) == 0);
    assert(trim_end_to(m, 0, m.len() as int) == m.len());
    assert(trim_parts(m) =~= t);
}

/// `base` joined with the relative path `part`, as `Path::join` does on Unix: a `/` goes
/// between them unless `base` is empty or already ends with one.
pub open spec fn joined(base: Seq<char>, part: Seq<char>) -> Seq<char> {
    if base.len() == 0 || base[base.len() - 1] == '/' {
        base + part
    } else {
        base + seq!['/'] + part
    }
}

/// Joins the relative path `part` onto `base`.
pub fn join_path(base: &str, part: &str) -> (r: String)
    ensures
        r@ == joined(base@, part@),
{
    let b = chars_of(base);
    let mut r = string_of(b.as_slice());
    if b.len() > 0 && b[b.len() - 1] != '/' {
        r.push('/');
    }
    push_str(&mut r, part);
    r
}

/// The message of the error that [`validate_path_segment`] returns for an invalid `value`.
pub open spec fn segment_error_message(kind: Seq<char>, value: Seq<char>) -> Seq<char> {
    if value.len() == 0 {
        empty_message(kind)
    } else {
        invalid_component_message(kind, value)
    }
}

proof fn lemma_first_part_prefix(a: Seq<char>, b: Seq<char>, i: int)
    requires
        0 <= i <= a.len(),
        forall|k: int| 0 <= k < a.len() ==> #[trigger] a[k] != '/',
    ensures
        first_part_end(a + seq!['/'] + b, i) == a.len(),
    decreases a.len() - i,
{
    let v = a + seq!['/'] + b;
    if i < a.len() {
        assert(v[i] == a[i]);
        lemma_first_part_prefix(a, b, i + 1);
    } else {
        assert(v[i] == '/');
    }
}

/// What a single path segment is: a non-empty name without `/` or `\\` that is neither `.` nor
/// `..` is one; the empty string, any string with a `\\`, `.`, `..`, a path starting at the
/// root, and two names joined by `/` are not.
pub proof fn lemma_path_segment_rules(v: Seq<char>, a: Seq<char>, b: Seq<char>)
    ensures
        v.len() > 0 && (forall|k: int| 0 <= k < v.len() ==> v[k] != '/' && v[k] != '\\') && v != seq!['.']
            && v != seq!['.', '.'] ==> is_valid_path_segment(v),
        v.len() == 0 ==> !is_valid_path_segment(v),
        v.contains('\\') ==> !is_valid_path_segment(v),
        !is_valid_path_segment(seq!['.']) && !is_valid_path_segment(seq!['.', '.']),
        v.len() > 0 && v[0] == '/' ==> !is_valid_path_segment(v),
        a.len() > 0 && (forall|k: int| 0 <= k < a.len() ==> a[k] != '/') && b.len() > 0 && b[0] != '/' && b[0]
            != '.' ==> !is_valid_path_segment(a + seq!['/'] + b),
{
    if v.len() > 0 && (forall|k: int| 0 <= k < v.len() ==> v[k] != '/' && v[k] != '\\') && v != seq!['.']
        && v != seq!['.', '.'] {
        assert(forall|k: int| 0 <= k < v.len() ==> #[trigger] v[k] != '/');
        lemma_no_slash_first_part(v, 0);
        assert(v.take(v.len() as int) =~= v);
        assert(v.skip(v.len() as int).len() == 0);
        assert(!v.contains('\\'));
    }
    if v.len() > 0 && v[0] == '/' {
        assert(first_part_end(v, 0) == 0);
    }
    let d = seq!['.'];
    assert(first_part_end(d, 1) == 1);
    assert(first_part_end(d, 0) == 1);
    assert(d.take(1) =~= d);
    let dd = seq!['.', '.'];
    assert(first_part_end(dd, 2) == 2);
    assert(first_part_end(dd, 1) == 2);
    assert(first_part_end(dd, 0) == 2);
    assert(dd.take(2) =~= dd);
    if a.len() > 0 && (forall|k: int| 0 <= k < a.len() ==> a[k] != '/') && b.len() > 0 && b[0] != '/' && b[0] != '.' {
        let w = a + seq!['/'] + b;
        assert(forall|k: int| 0 <= k < a.len() ==> #[trigger] a[k] != '/');
        lemma_first_part_prefix(a, b, 0);
        let rest = w.skip(a.len() as int);
        assert(rest[1] == b[0]);
        assert(!(rest[1] == '/' || (rest[1] == '.' && 1 > 0 && rest[0] == '/' && (1 + 1 == rest.len() || rest[2] == '/'))));
    }
}


/// Joining a relative path onto a base puts one `/` between them: none is added after an empty
/// base or a base that already ends with `/`.
pub proof fn lemma_joined_rules(base: Seq<char>, part: Seq<char>)
    ensures
        base.len() == 0 ==> joined(base, part) == part,
        base.len() > 0 && base.last() == '/' ==> joined(base, part) == base + part,
        base.len() > 0 && base.last() != '/' ==> joined(base, part) == base + seq!['/'] + part,
{
    if base.len() == 0 {
        assert(base + part =~= part);
    }
}

} // verus!
