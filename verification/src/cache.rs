//! Caches of loaded dictionaries and opened indexes, keyed by their path on disk and limited
//! to a few entries, the least recently used leaving first. The cache holds, for each path, a
//! slot number under which the caller keeps the loaded object.

use vstd::prelude::*;
use crate::dictionary::{dictionary_dir, dictionary_path};
use crate::tokenizer::{target_tokenizer_name, tokenizer_for, uses_default_tokenizer, DEFAULT_TOKENIZER};
use crate::util::{is_valid_path_segment, PathSegmentError};

verus! {

#[verifier::external_type_specification]
#[verifier::external_body]
#[verifier::reject_recursive_types(K)]
#[verifier::reject_recursive_types(V)]
#[verifier::reject_recursive_types(S)]
pub struct ExLruCache<K, V, S>(lru::LruCache<K, V, S>);

#[verifier::external_type_specification]
#[verifier::external_body]
pub struct ExDefaultHasher(lru::DefaultHasher);

/// The entries of an LRU cache as (key, value), most recently used first.
pub uninterp spec fn lru_contents(c: lru::LruCache<String, u64>) -> Seq<(Seq<char>, u64)>;

/// The number of entries an LRU cache was made to hold.
pub uninterp spec fn lru_capacity(c: lru::LruCache<String, u64>) -> nat;

/// `true` when no two entries have the same key.
pub open spec fn keys_distinct(s: Seq<(Seq<char>, u64)>) -> bool {
    forall|i: int, j: int| 0 <= i < j < s.len() ==> (#[trigger] s[i]).0 != (#[trigger] s[j]).0
}

/// Position of the entry with key `key`.
pub open spec fn key_position(s: Seq<(Seq<char>, u64)>, key: Seq<char>) -> Option<int> {
    if exists|i: int| 0 <= i < s.len() && (#[trigger] s[i]).0 == key {
        Some(choose|i: int| 0 <= i < s.len() && (#[trigger] s[i]).0 == key)
    } else {
        None
    }
}

/// The position found for a key holds that key; no position is found only when no entry has
/// the key.
pub proof fn lemma_key_position(s: Seq<(Seq<char>, u64)>, key: Seq<char>)
    ensures
        key_position(s, key) matches Some(i) ==> 0 <= i < s.len() && s[i].0 == key,
        key_position(s, key) is None ==> forall|i: int| 0 <= i < s.len() ==> (#[trigger] s[i]).0 != key,
{
}

/// Makes an empty cache with `lru::LruCache::new` for `cap` entries.
#[verifier::external_body]
fn lru_new(cap: usize) -> (r: lru::LruCache<String, u64>)
    requires
        cap > 0,
    ensures
        lru_contents(r) == Seq::<(Seq<char>, u64)>::empty(),
        lru_capacity(r) == cap,
{
    lru::LruCache::new(std::num::NonZeroUsize::new(cap).unwrap())
}

/// Looks a key up with `LruCache::get`, which also makes the entry found the most recently
/// used one.
#[verifier::external_body]
fn lru_get(c: &mut lru::LruCache<String, u64>, key: &str) -> (r: Option<u64>)
    ensures
        lru_capacity(*final(c)) == lru_capacity(*old(c)),
        match key_position(lru_contents(*old(c)), key@) {
            Some(i) => r == Some(lru_contents(*old(c))[i].1) && lru_contents(*final(c)) == seq![
                lru_contents(*old(c))[i],
            ] + lru_contents(*old(c)).remove(i),
            None => r is None && lru_contents(*final(c)) == lru_contents(*old(c)),
        },
{
    c.get(key).copied()
}

/// Adds an entry with `LruCache::push`: an entry with the same key is replaced and moved to
/// the front, and returned; otherwise, in a full cache, the least recently used entry leaves
/// and is returned.
#[verifier::external_body]
fn lru_push(c: &mut lru::LruCache<String, u64>, key: String, value: u64) -> (r: Option<(String, u64)>)
    ensures
        lru_capacity(*final(c)) == lru_capacity(*old(c)),
        match key_position(lru_contents(*old(c)), key@) {
            Some(i) => r matches Some(p) && p.0@ == key@ && p.1 == lru_contents(*old(c))[i].1
                && lru_contents(*final(c)) == seq![(key@, value)] + lru_contents(*old(c)).remove(i),
            None => if lru_contents(*old(c)).len() == lru_capacity(*old(c)) {
                r matches Some(p) && p.0@ == lru_contents(*old(c)).last().0 && p.1 == lru_contents(
                    *old(c),
                ).last().1 && lru_contents(*final(c)) == seq![(key@, value)] + lru_contents(
                    *old(c),
                ).drop_last()
            } else {
                r is None && lru_contents(*final(c)) == seq![(key@, value)] + lru_contents(*old(c))
            },
        },
{
    c.push(key, value)
}

/// Removes the least recently used entry with `LruCache::pop_lru`.
#[verifier::external_body]
fn lru_pop(c: &mut lru::LruCache<String, u64>) -> (r: Option<(String, u64)>)
    ensures
        lru_capacity(*final(c)) == lru_capacity(*old(c)),
        lru_contents(*old(c)).len() == 0 ==> r is None && lru_contents(*final(c)) == lru_contents(*old(c)),
        lru_contents(*old(c)).len() > 0 ==> (r matches Some(p) && p.0@ == lru_contents(*old(c)).last().0
            && p.1 == lru_contents(*old(c)).last().1 && lru_contents(*final(c)) == lru_contents(
            *old(c),
        ).drop_last()),
{
    c.pop_lru()
}

/// A cache from paths to slot numbers. The slots in use are distinct and below the number of
/// entries, so a caller can keep the cached objects in that many places.
pub struct SlotCache {
    entries: lru::LruCache<String, u64>,
    len: usize,
    cap: usize,
}

impl SlotCache {
    /// The entries, most recently used first.
    pub closed spec fn contents(&self) -> Seq<(Seq<char>, u64)> {
        lru_contents(self.entries)
    }

    /// How many entries the cache holds at most.
    pub closed spec fn capacity(&self) -> nat {
        lru_capacity(self.entries)
    }

    /// The cache's invariant: at most `capacity` entries, distinct keys, and distinct slots
    /// below the number of entries.
    pub closed spec fn wf(&self) -> bool {
        &&& self.len == lru_contents(self.entries).len()
        &&& self.cap == lru_capacity(self.entries)
        &&& 0 < self.cap
        &&& self.len <= self.cap
        &&& keys_distinct(lru_contents(self.entries))
        &&& forall|i: int| 0 <= i < self.len ==> (#[trigger] lru_contents(self.entries)[i]).1 < self.len
        &&& forall|i: int, j: int|
            0 <= i < j < self.len ==> (#[trigger] lru_contents(self.entries)[i]).1 != (#[trigger] lru_contents(
                self.entries,
            )[j]).1
    }

    /// An empty cache for `capacity` entries.
    pub fn new(capacity: usize) -> (r: SlotCache)
        requires
            capacity > 0,
        ensures
            r.wf(),
            r.contents() == Seq::<(Seq<char>, u64)>::empty(),
            r.contents().len() <= r.capacity(),
            r.capacity() == capacity,
    {
        SlotCache { entries: lru_new(capacity), len: 0, cap: capacity }
    }

    /// The slot cached for `key`, which becomes the most recently used entry.
    pub fn lookup(&mut self, key: &str) -> (r: Option<u64>)
        requires
            old(self).wf(),
        ensures
            final(self).wf(),
            final(self).capacity() == old(self).capacity(),
            final(self).contents().len() <= final(self).capacity(),
            match key_position(old(self).contents(), key@) {
                Some(i) => r == Some(old(self).contents()[i].1) && final(self).contents() == seq![
                    old(self).contents()[i],
                ] + old(self).contents().remove(i),
                None => r is None && final(self).contents() == old(self).contents(),
            },
    {
        let ghost before = lru_contents(self.entries);
        let r = lru_get(&mut self.entries, key);
        proof {
            let after = lru_contents(self.entries);
            if let Some(i) = key_position(before, key@) {
                assert forall|a: int| 0 <= a < after.len() implies exists|b: int|
                    0 <= b < before.len() && #[trigger] after[a] == before[b] && (a == 0 <==> b == i)
                    && (a > 0 && a <= i ==> b == a - 1) && (a > i ==> b == a) by {
                    if a == 0 {
                        assert(after[a] == before[i]);
                    } else if a <= i {
                        assert(after[a] == before[a - 1]);
                    } else {
                        assert(after[a] == before[a]);
                    }
                }
                assert forall|x: int, y: int| 0 <= x < y < after.len() implies (#[trigger] after[x]).0
                    != (#[trigger] after[y]).0 && after[x].1 != after[y].1 by {
                    let bx = if x == 0 { i } else if x <= i { x - 1 } else { x };
                    let by_ = if y == 0 { i } else if y <= i { y - 1 } else { y };
                    assert(after[x] == before[bx]);
                    assert(after[y] == before[by_]);
                    assert(bx != by_);
                    if bx < by_ {
                        assert(before[bx].0 != before[by_].0);
                        assert(before[bx].1 != before[by_].1);
                    } else {
                        assert(before[by_].0 != before[bx].0);
                        assert(before[by_].1 != before[bx].1);
                    }
                }
                assert forall|a: int| 0 <= a < self.len implies (#[trigger] after[a]).1 < self.len by {
                    if a == 0 {
                        assert(after[a] == before[i]);
                    } else if a <= i {
                        assert(after[a] == before[a - 1]);
                    } else {
                        assert(after[a] == before[a]);
                    }
                }
            }
        }
        r
    }

    /// Caches `key`, which is not cached yet, and returns its slot: a new slot while there is
    /// room, else the slot of the least recently used entry, which leaves the cache (its slot
    /// is returned too).
    pub fn insert(&mut self, key: String) -> (r: (u64, Option<u64>))
        requires
            old(self).wf(),
            key_position(old(self).contents(), key@) is None,
        ensures
            final(self).wf(),
            final(self).capacity() == old(self).capacity(),
            final(self).contents().len() <= final(self).capacity(),
            old(self).contents().len() < old(self).capacity() ==> r.0 == old(self).contents().len() && r.1 is None
                && final(self).contents() == seq![(key@, r.0)] + old(self).contents(),
            old(self).contents().len() == old(self).capacity() ==> r.0 == old(self).contents().last().1 && r.1
                == Some(r.0) && final(self).contents() == seq![(key@, r.0)] + old(self).contents().drop_last(),
    {
        let ghost before = lru_contents(self.entries);
        if self.len < self.cap {
            let slot = self.len as u64;
            let _ = lru_push(&mut self.entries, key, slot);
            self.len = self.len + 1;
            proof {
                let after = lru_contents(self.entries);
                assert(after == seq![(key@, slot)] + before);
                assert forall|x: int, y: int| 0 <= x < y < after.len() implies (#[trigger] after[x]).0
                    != (#[trigger] after[y]).0 && after[x].1 != after[y].1 by {
                    if x == 0 {
                        assert(after[y] == before[y - 1]);
                        assert(before[y - 1].0 != key@) by {
                            if before[y - 1].0 == key@ {
                                assert(exists|i: int| 0 <= i < before.len() && (#[trigger] before[i]).0 == key@);
                            }
                        }
                        assert(before[y - 1].1 < before.len());
                    } else {
                        assert(after[x] == before[x - 1]);
                        assert(after[y] == before[y - 1]);
                    }
                }
                assert forall|a: int| 0 <= a < self.len implies (#[trigger] after[a]).1 < self.len by {
                    if a > 0 {
                        assert(after[a] == before[a - 1]);
                    }
                }
            }
            (slot, None)
        } else {
            let popped = lru_pop(&mut self.entries);
            let slot = match popped {
                Some(p) => p.1,
                None => 0,
            };
            let ghost mid = lru_contents(self.entries);
            proof {
                assert(mid == before.drop_last());
                assert(key_position(mid, key@) is None) by {
                    if exists|i: int| 0 <= i < mid.len() && (#[trigger] mid[i]).0 == key@ {
                        let i = choose|i: int| 0 <= i < mid.len() && (#[trigger] mid[i]).0 == key@;
                        assert(before[i].0 == key@);
                    }
                }
            }
            let _ = lru_push(&mut self.entries, key, slot);
            proof {
                let after = lru_contents(self.entries);
                assert(after == seq![(key@, slot)] + mid);
                assert(slot == before.last().1);
                assert forall|x: int, y: int| 0 <= x < y < after.len() implies (#[trigger] after[x]).0
                    != (#[trigger] after[y]).0 && after[x].1 != after[y].1 by {
                    if x == 0 {
                        assert(after[y] == before[y - 1]);
                        assert(before[y - 1].0 != key@) by {
                            if before[y - 1].0 == key@ {
                                assert(exists|i: int| 0 <= i < before.len() && (#[trigger] before[i]).0 == key@);
                            }
                        }
                        assert(before[y - 1].1 != before[before.len() - 1].1);
                    } else {
                        assert(after[x] == before[x - 1]);
                        assert(after[y] == before[y - 1]);
                    }
                }
                assert forall|a: int| 0 <= a < self.len implies (#[trigger] after[a]).1 < self.len by {
                    if a > 0 {
                        assert(after[a] == before[a - 1]);
                    } else {
                        assert(before[before.len() - 1].1 < self.len);
                    }
                }
            }
            (slot, Some(slot))
        }
    }
}

proof fn lemma_name_is_segment(v: Seq<char>)
    requires
        v.len() >= 2,
        forall|i: int| 0 <= i < v.len() ==> 'a' <= #[trigger] v[i] <= 'z' || v[i] == '-',
    ensures
        is_valid_path_segment(v),
{
    assert(forall|i: int| 0 <= i <= v.len() ==> crate::util::first_part_end(v, i) == v.len()) by {
        assert forall|i: int| 0 <= i <= v.len() implies crate::util::first_part_end(v, i) == v.len() by {
            lemma_first_part_end_full(v, i);
        }
    }
    assert(v.take(v.len() as int) =~= v);
    assert(v.skip(v.len() as int) =~= Seq::<char>::empty());
    assert(v != seq!['.']) by {
        assert(v[0] != '.');
    }
    assert(v != seq!['.', '.']) by {
        assert(v[0] != '.');
    }
    assert(!v.contains('\\')) by {
        if v.contains('\\') {
            let i = choose|i: int| 0 <= i < v.len() && v[i] == '\\';
            assert('a' <= v[i] <= 'z' || v[i] == '-');
        }
    }
}

proof fn lemma_first_part_end_full(v: Seq<char>, i: int)
    requires
        0 <= i <= v.len(),
        forall|k: int| 0 <= k < v.len() ==> 'a' <= #[trigger] v[k] <= 'z' || v[k] == '-',
    ensures
        crate::util::first_part_end(v, i) == v.len(),
    decreases v.len() - i,
{
    if i < v.len() {
        assert('a' <= v[i] <= 'z' || v[i] == '-');
        lemma_first_part_end_full(v, i + 1);
    }
}

/// The dictionary names are single path segments.
proof fn lemma_dictionary_names_are_segments()
    ensures
        is_valid_path_segment(crate::tokenizer::IPADIC@),
        is_valid_path_segment(crate::tokenizer::KO_DIC@),
        is_valid_path_segment(crate::tokenizer::JIEBA@),
{
    reveal_strlit("lindera-ipadic");
    reveal_strlit("lindera-ko-dic");
    reveal_strlit("lindera-jieba");
    lemma_name_is_segment(crate::tokenizer::IPADIC@);
    lemma_name_is_segment(crate::tokenizer::KO_DIC@);
    lemma_name_is_segment(crate::tokenizer::JIEBA@);
}

/// A path just cached is found again, in the slot it was given, by the next lookup.
pub proof fn lemma_inserted_key_is_found(c: SlotCache, key: Seq<char>, slot: u64, rest: Seq<(Seq<char>, u64)>)
    requires
        c.wf(),
        c.contents() == seq![(key, slot)] + rest,
    ensures
        key_position(c.contents(), key) == Some(0int),
        c.contents()[0].1 == slot,
{
    let s = c.contents();
    assert(s[0].0 == key);
    let i = choose|i: int| 0 <= i < s.len() && (#[trigger] s[i]).0 == key;
    if i != 0 {
        assert(s[0].0 != s[i].0);
    }
}

/// Number of loaded dictionaries kept.
pub const DICTIONARY_CACHE_CAPACITY: usize = 4;
/// Number of opened indexes kept.
pub const INDEX_CACHE_CAPACITY: usize = 8;

/// The key under which the dictionary for `lang` is cached: its directory under the
/// dictionary root `root`; `None` for a language searched with the default tokenizer, which
/// needs no dictionary.
pub fn dictionary_cache_key(lang: &str, root: &str) -> (r: Result<Option<String>, PathSegmentError>)
    ensures
        tokenizer_for(lang@) == DEFAULT_TOKENIZER@ ==> r matches Ok(None),
        tokenizer_for(lang@) != DEFAULT_TOKENIZER@ ==> (r matches Ok(Some(k)) && k@ == dictionary_dir(
            root@,
            "6.2.0"@,
            tokenizer_for(lang@),
        )),
{
    if uses_default_tokenizer(lang) {
        return Ok(None);
    }
    let name = target_tokenizer_name(lang);
    proof {
        crate::tokenizer::lemma_tokenizer_is_dictionary_or_default(lang@);
        lemma_dictionary_names_are_segments();
    }
    match dictionary_path(name, root) {
        Ok(p) => Ok(Some(p)),
        Err(e) => Err(e),
    }
}

} // verus!
