//! Lexicographic order on strings (by code point, which is the byte order of their UTF-8
//! encoding and so the order of `String`'s `Ord`), and stable sorting by string keys.

use vstd::prelude::*;
use crate::text::chars_of;

verus! {

/// `a` comes before or equals `b` in lexicographic order.
pub open spec fn chars_le(a: Seq<char>, b: Seq<char>) -> bool
    decreases a.len(),
{
    if a.len() == 0 {
        true
    } else if b.len() == 0 {
        false
    } else if a[0] != b[0] {
        a[0] < b[0]
    } else {
        chars_le(a.drop_first(), b.drop_first())
    }
}

/// `a` comes strictly before `b`.
pub open spec fn chars_lt(a: Seq<char>, b: Seq<char>) -> bool {
    chars_le(a, b) && a != b
}

pub proof fn lemma_chars_le_refl(a: Seq<char>)
    ensures
        chars_le(a, a),
    decreases a.len(),
{
    if a.len() > 0 {
        lemma_chars_le_refl(a.drop_first());
    }
}

pub proof fn lemma_chars_le_total(a: Seq<char>, b: Seq<char>)
    ensures
        chars_le(a, b) || chars_le(b, a),
    decreases a.len(),
{
    if a.len() > 0 && b.len() > 0 && a[0] == b[0] {
        lemma_chars_le_total(a.drop_first(), b.drop_first());
    }
}

pub proof fn lemma_chars_le_antisym(a: Seq<char>, b: Seq<char>)
    requires
        chars_le(a, b),
        chars_le(b, a),
    ensures
        a == b,
    decreases a.len(),
{
    if a.len() > 0 {
        if b.len() > 0 && a[0] == b[0] {
            lemma_chars_le_antisym(a.drop_first(), b.drop_first());
            assert(a =~= seq![a[0]] + a.drop_first());
            assert(b =~= seq![b[0]] + b.drop_first());
        }
    } else {
        assert(b.len() == 0);
        assert(a =~= b);
    }
}

pub proof fn lemma_chars_le_trans(a: Seq<char>, b: Seq<char>, c: Seq<char>)
    requires
        chars_le(a, b),
        chars_le(b, c),
    ensures
        chars_le(a, c),
    decreases a.len(),
{
    if a.len() > 0 && b.len() > 0 && c.len() > 0 {
        if a[0] == b[0] && b[0] == c[0] {
            lemma_chars_le_trans(a.drop_first(), b.drop_first(), c.drop_first());
        }
    }
}

/// Order on pairs of strings: by the first, then by the second.
pub open spec fn pair_le(a: (Seq<char>, Seq<char>), b: (Seq<char>, Seq<char>)) -> bool {
    chars_lt(a.0, b.0) || (a.0 == b.0 && chars_le(a.1, b.1))
}

pub proof fn lemma_pair_le_total(a: (Seq<char>, Seq<char>), b: (Seq<char>, Seq<char>))
    ensures
        pair_le(a, b) || pair_le(b, a),
{
    lemma_chars_le_total(a.0, b.0);
    lemma_chars_le_total(a.1, b.1);
}

pub proof fn lemma_pair_le_trans(
    a: (Seq<char>, Seq<char>),
    b: (Seq<char>, Seq<char>),
    c: (Seq<char>, Seq<char>),
)
    requires
        pair_le(a, b),
        pair_le(b, c),
    ensures
        pair_le(a, c),
{
    if a.0 == b.0 && b.0 == c.0 {
        lemma_chars_le_trans(a.1, b.1, c.1);
    } else {
        lemma_chars_le_refl(a.0);
        lemma_chars_le_refl(b.0);
        lemma_chars_le_trans(a.0, b.0, c.0);
        if a.0 == c.0 {
            lemma_chars_le_antisym(a.0, b.0);
        }
    }
}

/// Result of comparing two strings.
#[derive(Debug, Clone, Copy, PartialEq, Eq, Structural)]
pub enum Order {
    Less,
    Equal,
    Greater,
}

/// Compares two character slices lexicographically.
pub fn compare_slices(a: &[char], b: &[char]) -> (r: Order)
    ensures
        r == Order::Equal <==> a@ == b@,
        r == Order::Less <==> chars_lt(a@, b@),
        r == Order::Greater <==> chars_lt(b@, a@),
{
    let mut i: usize = 0;
    while i < a.len() && i < b.len() && a[i] == b[i]
        invariant
            i <= a@.len(),
            i <= b@.len(),
            a@.take(i as int) == b@.take(i as int),
        decreases a@.len() - i,
    {
        i += 1;
        assert(a@.take(i as int) =~= a@.take(i - 1).push(a@[i - 1]));
        assert(b@.take(i as int) =~= b@.take(i - 1).push(b@[i - 1]));
    }
    proof {
        lemma_le_after_common_prefix(a@, b@, i as int);
        lemma_le_after_common_prefix(b@, a@, i as int);
    }
    if i == a.len() && i == b.len() {
        assert(a@.take(i as int) =~= a@);
        assert(b@.take(i as int) =~= b@);
        proof {
            lemma_chars_le_refl(a@);
        }
        Order::Equal
    } else if i == a.len() {
        assert(a@ != b@) by {
            assert(a@.len() != b@.len());
        }
        Order::Less
    } else if i == b.len() {
        assert(a@ != b@) by {
            assert(a@.len() != b@.len());
        }
        Order::Greater
    } else if a[i] < b[i] {
        assert(a@ != b@) by {
            assert(a@[i as int] != b@[i as int]);
        }
        Order::Less
    } else {
        assert(a@ != b@) by {
            assert(a@[i as int] != b@[i as int]);
        }
        Order::Greater
    }
}

/// After a common prefix of length `i`, the order is decided by what follows.
proof fn lemma_le_after_common_prefix(a: Seq<char>, b: Seq<char>, i: int)
    requires
        0 <= i <= a.len(),
        i <= b.len(),
        a.take(i) == b.take(i),
    ensures
        chars_le(a, b) == (if i == a.len() {
            true
        } else if i == b.len() {
            false
        } else if a[i] != b[i] {
            a[i] < b[i]
        } else {
            chars_le(a.skip(i), b.skip(i))
        }),
    decreases i,
{
    if i > 0 {
        assert(a[0] == a.take(i)[0]);
        assert(b[0] == b.take(i)[0]);
        assert(a.drop_first().take(i - 1) =~= a.take(i).drop_first());
        assert(b.drop_first().take(i - 1) =~= b.take(i).drop_first());
        lemma_le_after_common_prefix(a.drop_first(), b.drop_first(), i - 1);
        assert(a.drop_first().skip(i - 1) =~= a.skip(i));
        assert(b.drop_first().skip(i - 1) =~= b.skip(i));
        if i < a.len() {
            assert(a.drop_first()[i - 1] == a[i]);
        }
        if i < b.len() {
            assert(b.drop_first()[i - 1] == b[i]);
        }
    } else {
        assert(a.skip(0) =~= a);
        assert(b.skip(0) =~= b);
    }
}

/// Compares two strings lexicographically.
pub fn compare_strs(a: &str, b: &str) -> (r: Order)
    ensures
        r == Order::Equal <==> a@ == b@,
        r == Order::Less <==> chars_lt(a@, b@),
        r == Order::Greater <==> chars_lt(b@, a@),
{
    let x = chars_of(a);
    let y = chars_of(b);
    compare_slices(x.as_slice(), y.as_slice())
}

/// `p` lists each of `0..n` exactly once.
pub open spec fn is_permutation(p: Seq<usize>, n: nat) -> bool {
    &&& p.len() == n
    &&& forall|i: int| 0 <= i < p.len() ==> (#[trigger] p[i]) < n
    &&& forall|i: int, j: int| 0 <= i < j < p.len() ==> p[i] != p[j]
}

/// View of a list of string pairs.
pub open spec fn keys_view(keys: Seq<(String, String)>) -> Seq<(Seq<char>, Seq<char>)> {
    keys.map_values(|k: (String, String)| (k.0@, k.1@))
}

/// `p` orders `keys` by [`pair_le`], keeping the input order of equal keys.
pub open spec fn is_stable_order(keys: Seq<(Seq<char>, Seq<char>)>, p: Seq<usize>) -> bool {
    &&& is_permutation(p, keys.len())
    &&& forall|i: int, j: int|
        0 <= i < j < p.len() ==> pair_le(keys[p[i] as int], keys[p[j] as int])
    &&& forall|i: int, j: int|
        0 <= i < j < p.len() && keys[p[i] as int] == keys[p[j] as int] ==> p[i] < p[j]
}

fn pair_le_exec(a: &(String, String), b: &(String, String)) -> (r: bool)
    ensures
        r == pair_le((a.0@, a.1@), (b.0@, b.1@)),
{
    match compare_strs(a.0.as_str(), b.0.as_str()) {
        Order::Less => true,
        Order::Greater => {
            proof {
                if chars_le(a.0@, b.0@) {
                    lemma_chars_le_antisym(a.0@, b.0@);
                }
            }
            false
        },
        Order::Equal => {
            match compare_strs(a.1.as_str(), b.1.as_str()) {
                Order::Greater => {
                    proof {
                        if chars_le(a.1@, b.1@) {
                            lemma_chars_le_antisym(a.1@, b.1@);
                        }
                    }
                    false
                },
                Order::Equal => {
                    proof {
                        lemma_chars_le_refl(a.1@);
                    }
                    true
                },
                Order::Less => true,
            }
        },
    }
}

/// A stable sorting order of `keys` by [`pair_le`] (an insertion sort of positions).
pub fn stable_order(keys: &[(String, String)]) -> (p: Vec<usize>)
    ensures
        is_stable_order(keys_view(keys@), p@),
{
    let ghost k = keys_view(keys@);
    let mut p: Vec<usize> = Vec::new();
    let mut i: usize = 0;
    while i < keys.len()
        invariant
            i <= keys@.len(),
            k == keys_view(keys@),
            k.len() == keys@.len(),
            p@.len() == i,
            forall|a: int| 0 <= a < p@.len() ==> (#[trigger] p@[a]) < i,
            forall|a: int, b: int| 0 <= a < b < p@.len() ==> p@[a] != p@[b],
            forall|a: int, b: int|
                0 <= a < b < p@.len() ==> pair_le(k[p@[a] as int], k[p@[b] as int]),
            forall|a: int, b: int|
                0 <= a < b < p@.len() && k[p@[a] as int] == k[p@[b] as int] ==> p@[a] < p@[b],
        decreases keys@.len() - i,
    {
        // Insert `i` after the last position whose key is not above key `i`.
        let mut pos: usize = p.len();
        while pos > 0 && !pair_le_exec(&keys[p[pos - 1]], &keys[i])
            invariant
                pos <= p@.len(),
                p@.len() == i,
                i < keys@.len(),
                k == keys_view(keys@),
                k.len() == keys@.len(),
                forall|a: int| 0 <= a < p@.len() ==> (#[trigger] p@[a]) < i,
                forall|a: int| pos <= a < p@.len() ==> !pair_le(#[trigger] k[p@[a] as int], k[i as int]),
            decreases pos,
        {
            pos -= 1;
        }
        let ghost old_p = p@;
        proof {
            assert forall|a: int| pos <= a < old_p.len() implies pair_le(k[i as int], #[trigger] k[old_p[a] as int])
                && k[i as int] != k[old_p[a] as int] by {
                lemma_pair_le_total(k[old_p[a] as int], k[i as int]);
                if k[i as int] == k[old_p[a] as int] {
                    lemma_chars_le_refl(k[i as int].1);
                }
            }
            assert forall|a: int| 0 <= a < pos implies pair_le(#[trigger] k[old_p[a] as int], k[i as int]) by {
                if a < pos - 1 {
                    lemma_pair_le_trans(k[old_p[a] as int], k[old_p[pos - 1] as int], k[i as int]);
                }
            }
        }
        p.insert(pos, i);
        proof {
            assert(p@ =~= old_p.insert(pos as int, i));
            assert forall|a: int, b: int| 0 <= a < b < p@.len() implies pair_le(
                k[p@[a] as int],
                k[p@[b] as int],
            ) by {
                if a < pos && b > pos {
                    lemma_pair_le_trans(k[old_p[a] as int], k[i as int], k[old_p[b - 1] as int]);
                }
            }
        }
        i += 1;
    }
    p
}


/// `v` is in strictly increasing order.
pub open spec fn strictly_increasing(v: Seq<Seq<char>>) -> bool {
    forall|i: int, j: int| 0 <= i < j < v.len() ==> chars_lt(v[i], v[j])
}

/// `true` when `x` is one of the elements of `v`.
pub open spec fn has_text(v: Seq<Seq<char>>, x: Seq<char>) -> bool {
    exists|i: int| 0 <= i < v.len() && v[i] == x
}

/// The distinct elements of `items`, in increasing order (a sort followed by a dedup).
pub fn sorted_unique(items: &[String]) -> (r: Vec<String>)
    ensures
        strictly_increasing(crate::text::views(r@)),
        forall|x: Seq<char>| has_text(crate::text::views(r@), x) <==> has_text(crate::text::views(items@), x),
{
    let ghost src = crate::text::views(items@);
    let mut r: Vec<String> = Vec::new();
    let mut i: usize = 0;
    while i < items.len()
        invariant
            i <= items@.len(),
            src == crate::text::views(items@),
            strictly_increasing(crate::text::views(r@)),
            forall|x: Seq<char>| has_text(crate::text::views(r@), x) <==> has_text(src.take(i as int), x),
        decreases items@.len() - i,
    {
        let ghost rv = crate::text::views(r@);
        let x = &items[i];
        let mut pos: usize = r.len();
        let mut dup = false;
        while pos > 0
            invariant_except_break
                !dup,
            invariant
                pos <= r@.len(),
                rv == crate::text::views(r@),
                strictly_increasing(rv),
                forall|a: int| pos <= a < rv.len() ==> chars_lt(x@, #[trigger] rv[a]),
            ensures
                dup ==> pos > 0 && rv[pos - 1] == x@,
                !dup ==> pos == 0 || chars_lt(rv[pos - 1], x@),
            decreases pos,
        {
            match compare_strs(r[pos - 1].as_str(), x.as_str()) {
                Order::Less => {
                    break;
                },
                Order::Equal => {
                    dup = true;
                    break;
                },
                Order::Greater => {
                    pos -= 1;
                },
            }
        }
        proof {
            assert(src.take(i + 1) =~= src.take(i as int).push(x@));
        }
        if dup {
            proof {
                assert(rv[pos - 1] == x@);
                assert forall|y: Seq<char>| has_text(rv, y) <==> has_text(src.take(i + 1), y) by {
                    if has_text(src.take(i + 1), y) && !has_text(src.take(i as int), y) {
                        assert(y == x@);
                    }
                    if has_text(src.take(i as int), y) {
                        let t1 = src.take(i as int);
                        let k = choose|k: int| 0 <= k < t1.len() && t1[k] == y;
                        assert(src.take(i + 1)[k] == y);
                    }
                }
            }
        } else {
            proof {
                assert forall|a: int| 0 <= a < pos implies chars_lt(#[trigger] rv[a], x@) by {
                    if a < pos - 1 {
                        assert(chars_lt(rv[a], rv[pos - 1]));
                        lemma_chars_le_trans(rv[a], rv[pos - 1], x@);
                        if rv[a] == x@ {
                            lemma_chars_le_antisym(rv[a], rv[pos - 1]);
                        }
                    }
                }
            }
            r.insert(pos, x.clone());
            proof {
                let nv = crate::text::views(r@);
                assert(nv =~= rv.insert(pos as int, x@));
                assert forall|a: int, b: int| 0 <= a < b < nv.len() implies chars_lt(nv[a], nv[b]) by {
                    if a < pos && b > pos {
                        lemma_chars_le_trans(rv[a], x@, rv[b - 1]);
                        if rv[a] == rv[b - 1] {
                            lemma_chars_le_antisym(rv[a], x@);
                        }
                    }
                }
                let t1 = src.take(i as int);
                let t2 = src.take(i + 1);
                assert(t2[i as int] == x@);
                assert forall|y: Seq<char>| has_text(nv, y) implies has_text(t2, y) by {
                    let k = choose|k: int| 0 <= k < nv.len() && nv[k] == y;
                    if k == pos {
                        assert(t2[i as int] == y);
                    } else {
                        if k < pos {
                            assert(rv[k] == y);
                        } else {
                            assert(rv[k - 1] == y);
                        }
                        assert(has_text(rv, y));
                        assert(has_text(t1, y));
                        let m = choose|m: int| 0 <= m < t1.len() && t1[m] == y;
                        assert(t2[m] == y);
                    }
                }
                assert forall|y: Seq<char>| has_text(t2, y) implies has_text(nv, y) by {
                    if y == x@ {
                        assert(nv[pos as int] == y);
                    } else {
                        let k = choose|k: int| 0 <= k < t2.len() && t2[k] == y;
                        assert(k != i);
                        assert(t1[k] == y);
                        assert(has_text(t1, y));
                        assert(has_text(rv, y));
                        let m = choose|m: int| 0 <= m < rv.len() && rv[m] == y;
                        if m < pos {
                            assert(nv[m] == y);
                        } else {
                            assert(nv[m + 1] == y);
                        }
                    }
                }
            }
        }
        i += 1;
    }
    assert(src.take(items@.len() as int) =~= src);
    r
}

/// The order is the usual dictionary order: a string comes before any longer string that
/// starts with it, and two strings that first differ at one position are ordered by the
/// characters there, the smaller first.
pub proof fn lemma_chars_order(pre: Seq<char>, c1: char, c2: char, x: Seq<char>, y: Seq<char>)
    ensures
        chars_le(pre, pre + x),
        c1 < c2 ==> chars_le(pre + seq![c1] + x, pre + seq![c2] + y),
        c1 < c2 ==> !chars_le(pre + seq![c2] + y, pre + seq![c1] + x),
    decreases pre.len(),
{
    if pre.len() > 0 {
        lemma_chars_order(pre.drop_first(), c1, c2, x, y);
        assert((pre + x).drop_first() =~= pre.drop_first() + x);
        assert((pre + seq![c1] + x).drop_first() =~= pre.drop_first() + seq![c1] + x);
        assert((pre + seq![c2] + y).drop_first() =~= pre.drop_first() + seq![c2] + y);
        assert((pre + x)[0] == pre[0]);
        assert((pre + seq![c1] + x)[0] == pre[0]);
        assert((pre + seq![c2] + y)[0] == pre[0]);
    } else {
        assert(pre + seq![c1] + x =~= seq![c1] + x);
        assert(pre + seq![c2] + y =~= seq![c2] + y);
        assert((seq![c1] + x)[0] == c1);
        assert((seq![c2] + y)[0] == c2);
    }
}

} // verus!
