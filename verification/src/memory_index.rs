//! Loading an index archive into memory for the in-browser search: which entries of the
//! archive become which index files.

use vstd::prelude::*;
use crate::archive::{info_view, infos_view, list_zip_entries, read_zip_entry, zip_entry_data, zip_listing};
use crate::text::{chars_of, has_suffix, join_with, owned, push_str, seq_eq, slice_has_suffix, string_of};

verus! {

/// The `/`-separated parts of `p`, empty ones included.
pub open spec fn split_parts(p: Seq<char>) -> Seq<Seq<char>>
    decreases p.len(),
{
    if p.len() == 0 {
        seq![Seq::<char>::empty()]
    } else {
        let r = split_parts(p.drop_last());
        if p.last() == '/' {
            r.push(Seq::<char>::empty())
        } else {
            r.update(r.len() - 1, r.last().push(p.last()))
        }
    }
}

/// The non-empty `/`-separated parts of `p`.
pub open spec fn nonempty_parts(p: Seq<char>) -> Seq<Seq<char>> {
    split_parts(p).filter(|x: Seq<char>| x.len() > 0)
}

/// The parts of `p` other than `.`.
pub open spec fn named_parts(parts: Seq<Seq<char>>) -> Seq<Seq<char>> {
    parts.filter(|x: Seq<char>| x != seq!['.'])
}

/// The file name of path `p`: its last component, unless that is `..` or there is none.
pub open spec fn path_file_name(p: Seq<char>) -> Option<Seq<char>> {
    let kept = named_parts(nonempty_parts(p));
    if kept.len() > 0 && kept.last() != seq!['.', '.'] {
        Some(kept.last())
    } else {
        None
    }
}

/// `true` for the entries left out of an in-memory index: lock files.
pub open spec fn is_skipped_entry(p: Seq<char>) -> bool {
    path_file_name(p) matches Some(n) && has_suffix(n, ".lock"@)
}

/// Where the archive entry `p` goes in the index of `lang`: below a leading `{lang}/`
/// directory its path relative to it (parts `.` dropped), elsewhere its own path; `None` for an
/// entry that names no file (an empty path, or `{lang}` itself); an error for a path that
/// starts at the root or with `.` or `..`.
pub open spec fn normalized_entry(p: Seq<char>, lang: Seq<char>) -> Result<Option<Seq<char>>, ()> {
    if p.len() > 0 && p[0] == '/' {
        Err(())
    } else {
        let parts = nonempty_parts(p);
        if parts.len() == 0 {
            Ok(None)
        } else if parts[0] == seq!['.'] || parts[0] == seq!['.', '.'] {
            Err(())
        } else if parts[0] == lang {
            let rest = named_parts(parts.skip(1));
            if rest.len() == 0 {
                Ok(None)
            } else {
                Ok(Some(join_with(rest, "/"@)))
            }
        } else {
            Ok(Some(p))
        }
    }
}

proof fn lemma_split_parts_len(p: Seq<char>)
    ensures
        split_parts(p).len() >= 1,
    decreases p.len(),
{
    if p.len() > 0 {
        lemma_split_parts_len(p.drop_last());
    }
}

/// Splitting `a/b` gives the parts of `a` followed by the parts of `b`.
proof fn lemma_split_parts_concat(a: Seq<char>, b: Seq<char>)
    ensures
        split_parts(a + seq!['/'] + b) == split_parts(a) + split_parts(b),
    decreases b.len(),
{
    let ab = a + seq!['/'] + b;
    if b.len() == 0 {
        assert(ab.drop_last() =~= a);
        assert(split_parts(b) =~= seq![Seq::<char>::empty()]);
        assert(split_parts(a).push(Seq::<char>::empty()) =~= split_parts(a) + split_parts(b));
    } else {
        lemma_split_parts_concat(a, b.drop_last());
        lemma_split_parts_len(b.drop_last());
        assert(ab.drop_last() =~= a + seq!['/'] + b.drop_last());
        assert(ab.last() == b.last());
        let ra = split_parts(a);
        let rb = split_parts(b.drop_last());
        if b.last() == '/' {
            assert((ra + rb).push(Seq::<char>::empty()) =~= ra + rb.push(Seq::<char>::empty()));
        } else {
            let r = ra + rb;
            assert(r.update(r.len() - 1, r.last().push(b.last())) =~= ra + rb.update(
                rb.len() - 1,
                rb.last().push(b.last()),
            ));
        }
    }
}

/// A name without `/` is a single part.
proof fn lemma_split_parts_single(a: Seq<char>)
    requires
        forall|k: int| 0 <= k < a.len() ==> a[k] != '/',
    ensures
        split_parts(a) == seq![a],
    decreases a.len(),
{
    if a.len() > 0 {
        lemma_split_parts_single(a.drop_last());
        assert(a[a.len() - 1] != '/');
        assert(a.drop_last().push(a.last()) =~= a);
        assert(seq![a.drop_last()].update(0, a.drop_last().push(a.last())) =~= seq![a]);
    } else {
        assert(a =~= Seq::<char>::empty());
    }
}

/// `true` when `p` is a plain relative path of the archive of `lang`: its non-empty parts,
/// none of them `.`, joined by `/` give `p` back, and its first part is neither `..` nor `lang`.
pub open spec fn is_plain_entry(p: Seq<char>, lang: Seq<char>) -> bool {
    let parts = nonempty_parts(p);
    &&& p.len() > 0
    &&& p[0] != '/'
    &&& parts.len() > 0
    &&& join_with(parts, "/"@) == p
    &&& named_parts(parts) == parts
    &&& parts[0] != lang
    &&& parts[0] != seq!['.', '.']
}

/// `true` when `lang` names one directory: not empty, without `/`, and neither `.` nor `..`.
pub open spec fn is_plain_dir_name(lang: Seq<char>) -> bool {
    &&& lang.len() > 0
    &&& forall|k: int| 0 <= k < lang.len() ==> lang[k] != '/'
    &&& lang != seq!['.']
    &&& lang != seq!['.', '.']
}

/// A plain entry goes to the same place of the index whether the archive holds it at its root
/// or under `{lang}/`: its own path.
pub proof fn lemma_entry_at_root_or_under_lang(p: Seq<char>, lang: Seq<char>)
    requires
        is_plain_dir_name(lang),
        is_plain_entry(p, lang),
    ensures
        normalized_entry(p, lang) == Ok::<Option<Seq<char>>, ()>(Some(p)),
        normalized_entry(lang + "/"@ + p, lang) == Ok::<Option<Seq<char>>, ()>(Some(p)),
{
    let parts = nonempty_parts(p);
    let pred = |x: Seq<char>| x != seq!['.'];
    assert(parts[0] != seq!['.']) by {
        assert(named_parts(parts)[0] == parts[0]);
        parts.lemma_filter_pred(pred, 0);
    }
    let q = lang + "/"@ + p;
    assert("/"@ =~= seq!['/']) by {
        reveal_strlit("/");
    }
    assert(q =~= lang + seq!['/'] + p);
    lemma_split_parts_concat(lang, p);
    lemma_split_parts_single(lang);
    let ne = |x: Seq<char>| x.len() > 0;
    Seq::filter_distributes_over_add(seq![lang], split_parts(p), ne);
    assert(seq![lang].filter(ne) =~= seq![lang]) by {
        reveal(Seq::filter);
        assert(seq![lang].drop_last() =~= Seq::<Seq<char>>::empty());
        assert(Seq::<Seq<char>>::empty().filter(ne) =~= Seq::<Seq<char>>::empty());
    }
    let qp = nonempty_parts(q);
    assert(qp =~= seq![lang] + parts);
    assert(q[0] == lang[0]);
    assert(qp[0] == lang);
    assert(qp.skip(1) =~= parts);
}

/// Two archives that differ only in that the second holds every file of the first under a
/// `{lang}/` directory give the same index files, or both fail: listing entries agree on being
/// directories and on having a name, the second's names are the first's with `{lang}/` in
/// front, the contents agree, and every name of a file is a plain entry.
pub proof fn lemma_root_and_lang_archives_agree(
    b1: Seq<u8>,
    l1: Seq<(bool, Option<Seq<char>>)>,
    b2: Seq<u8>,
    l2: Seq<(bool, Option<Seq<char>>)>,
    lang: Seq<char>,
    i: int,
)
    requires
        0 <= i,
        is_plain_dir_name(lang),
        l1.len() == l2.len(),
        forall|k: int| 0 <= k < l1.len() ==> (#[trigger] l1[k]).0 == l2[k].0 && (l1[k].1 is None <==> l2[k].1 is None),
        forall|k: int| 0 <= k < l1.len() && !(#[trigger] l1[k]).0 && l1[k].1 is Some ==> {
            &&& is_plain_entry(l1[k].1->0, lang)
            &&& l2[k].1->0 == lang + "/"@ + l1[k].1->0
        },
        forall|k: int| 0 <= k < l1.len() ==> #[trigger] zip_entry_data(b1, k) == zip_entry_data(b2, k),
    ensures
        match (memory_files_from(b1, l1, lang, i), memory_files_from(b2, l2, lang, i)) {
            (Ok(f1), Ok(f2)) => f1 == f2,
            (Err(_), Err(_)) => true,
            _ => false,
        },
    decreases l1.len() - i,
{
    if i < l1.len() {
        lemma_root_and_lang_archives_agree(b1, l1, b2, l2, lang, i + 1);
        assert(l1[i].0 == l2[i].0);
        assert(zip_entry_data(b1, i) == zip_entry_data(b2, i));
        if !l1[i].0 && l1[i].1 is Some {
            lemma_entry_at_root_or_under_lang(l1[i].1->0, lang);
        }
    }
}

/// Why an index archive cannot be loaded into memory.
#[derive(Debug)]
pub enum MemoryIndexError {
    /// The archive cannot be read.
    Parse(zip::result::ZipError),
    /// An entry's path cannot be placed in the index (holds it).
    InvalidPath(String),
    /// An entry's contents cannot be read (holds its path).
    ReadEntry(String),
    /// No file of the archive belongs in the index.
    NoFiles,
}

impl MemoryIndexError {
    pub open spec fn spec_message(&self) -> Seq<char> {
        match self {
            MemoryIndexError::Parse(_) => "failed to parse index zip archive"@,
            MemoryIndexError::InvalidPath(p) => "index zip entry contains invalid path: "@ + p@,
            MemoryIndexError::ReadEntry(p) => "failed to read zip entry "@ + p@,
            MemoryIndexError::NoFiles => "index zip archive did not contain any readable files"@,
        }
    }

    /// The error text (for an unreadable archive, the context before the zip error).
    pub fn message(&self) -> (r: String)
        ensures
            r@ == self.spec_message(),
    {
        match self {
            MemoryIndexError::Parse(_) => owned("failed to parse index zip archive"),
            MemoryIndexError::InvalidPath(p) => {
                let mut r = owned("index zip entry contains invalid path: ");
                push_str(&mut r, p.as_str());
                r
            },
            MemoryIndexError::ReadEntry(p) => {
                let mut r = owned("failed to read zip entry ");
                push_str(&mut r, p.as_str());
                r
            },
            MemoryIndexError::NoFiles => owned("index zip archive did not contain any readable files"),
        }
    }
}

/// A loading failure, as plain values.
pub enum LoadFailure {
    InvalidPath(Seq<char>),
    ReadEntry(Seq<char>),
}

/// The index files of the archive `bytes` from entry `i` on, as (path, contents) in archive
/// order, or the first failure.
pub open spec fn memory_files_from(
    bytes: Seq<u8>,
    listing: Seq<(bool, Option<Seq<char>>)>,
    lang: Seq<char>,
    i: int,
) -> Result<Seq<(Seq<char>, Seq<u8>)>, LoadFailure>
    decreases listing.len() - i,
{
    if i < 0 || i >= listing.len() {
        Ok(Seq::empty())
    } else if listing[i].0 || listing[i].1 is None {
        memory_files_from(bytes, listing, lang, i + 1)
    } else {
        let name = listing[i].1.unwrap();
        match normalized_entry(name, lang) {
            Err(()) => Err(LoadFailure::InvalidPath(name)),
            Ok(None) => memory_files_from(bytes, listing, lang, i + 1),
            Ok(Some(rel)) => if is_skipped_entry(rel) {
                memory_files_from(bytes, listing, lang, i + 1)
            } else {
                match zip_entry_data(bytes, i) {
                    None => Err(LoadFailure::ReadEntry(name)),
                    Some(d) => match memory_files_from(bytes, listing, lang, i + 1) {
                        Err(e) => Err(e),
                        Ok(rest) => Ok(seq![(rel, d)] + rest),
                    },
                }
            },
        }
    }
}

/// Splits `p` at `/` into its non-empty parts.
fn parts_of(p: &str) -> (r: Vec<Vec<char>>)
    ensures
        r@.map_values(|v: Vec<char>| v@) == nonempty_parts(p@),
{
    let c = chars_of(p);
    let mut done: Vec<Vec<char>> = Vec::new();
    let mut cur: Vec<char> = Vec::new();
    let mut i: usize = 0;
    assert(c@.take(0) =~= Seq::<char>::empty());
    while i < c.len()
        invariant
            i <= c@.len(),
            c@ == p@,
            done@.map_values(|v: Vec<char>| v@).push(cur@) == split_parts(c@.take(i as int)),
        decreases c@.len() - i,
    {
        let ch = c[i];
        let ghost before = done@.map_values(|v: Vec<char>| v@).push(cur@);
        proof {
            assert(c@.take(i + 1).drop_last() =~= c@.take(i as int));
            assert(c@.take(i + 1).last() == ch);
        }
        if ch == '/' {
            let finished = cur;
            done.push(finished);
            cur = Vec::new();
            assert(done@.map_values(|v: Vec<char>| v@).push(cur@) =~= before.push(Seq::<char>::empty()));
        } else {
            cur.push(ch);
            assert(done@.map_values(|v: Vec<char>| v@).push(cur@) =~= before.update(
                before.len() - 1,
                before.last().push(ch),
            ));
        }
        i += 1;
    }
    assert(c@.take(c@.len() as int) =~= c@);
    done.push(cur);
    let ghost all = done@.map_values(|v: Vec<char>| v@);
    assert(all == split_parts(p@));
    let mut out: Vec<Vec<char>> = Vec::new();
    let mut j: usize = 0;
    while j < done.len()
        invariant
            j <= done@.len(),
            all == done@.map_values(|v: Vec<char>| v@),
            out@.map_values(|v: Vec<char>| v@) == all.take(j as int).filter(|x: Seq<char>| x.len() > 0),
        decreases done@.len() - j,
    {
        proof {
            assert(all.take(j + 1).drop_last() =~= all.take(j as int));
            reveal_with_fuel(Seq::filter, 1);
        }
        if done[j].len() > 0 {
            let ghost before = out@.map_values(|v: Vec<char>| v@);
            let copy = done[j].clone();
            out.push(copy);
            assert(out@.map_values(|v: Vec<char>| v@) =~= before.push(all[j as int]));
        }
        j += 1;
    }
    assert(all.take(done@.len() as int) =~= all);
    out
}

fn is_dot(v: &Vec<char>) -> (r: bool)
    ensures
        r == (v@ == seq!['.']),
{
    let r = v.len() == 1 && v[0] == '.';
    proof {
        if v@.len() == 1 && v@[0] == '.' {
            assert(v@ =~= seq!['.']);
        }
    }
    r
}

fn is_dot_dot(v: &Vec<char>) -> (r: bool)
    ensures
        r == (v@ == seq!['.', '.']),
{
    let r = v.len() == 2 && v[0] == '.' && v[1] == '.';
    proof {
        if v@.len() == 2 && v@[0] == '.' && v@[1] == '.' {
            assert(v@ =~= seq!['.', '.']);
        }
    }
    r
}

/// The parts of `parts` from `start` on other than `.`.
fn named_from(parts: &Vec<Vec<char>>, start: usize) -> (r: Vec<Vec<char>>)
    requires
        start <= parts@.len(),
    ensures
        r@.map_values(|v: Vec<char>| v@) == named_parts(parts@.map_values(|v: Vec<char>| v@).skip(start as int)),
{
    let ghost all = parts@.map_values(|v: Vec<char>| v@).skip(start as int);
    let mut out: Vec<Vec<char>> = Vec::new();
    let mut j: usize = start;
    assert(all.take(0) =~= Seq::<Seq<char>>::empty());
    while j < parts.len()
        invariant
            start <= j <= parts@.len(),
            all == parts@.map_values(|v: Vec<char>| v@).skip(start as int),
            out@.map_values(|v: Vec<char>| v@) == named_parts(all.take(j - start)),
        decreases parts@.len() - j,
    {
        proof {
            assert(all.take(j - start + 1).drop_last() =~= all.take(j - start));
            assert(all.take(j - start + 1).last() == parts@[j as int]@);
            reveal_with_fuel(Seq::filter, 1);
        }
        if !is_dot(&parts[j]) {
            let ghost before = out@.map_values(|v: Vec<char>| v@);
            let copy = parts[j].clone();
            out.push(copy);
            assert(out@.map_values(|v: Vec<char>| v@) =~= before.push(parts@[j as int]@));
        }
        j += 1;
    }
    assert(all.take(parts@.len() - start) =~= all);
    out
}

/// Joins parts with `/`.
fn join_parts(parts: &Vec<Vec<char>>) -> (r: String)
    ensures
        r@ == join_with(parts@.map_values(|v: Vec<char>| v@), "/"@),
{
    let ghost pv = parts@.map_values(|v: Vec<char>| v@);
    let mut out = String::new();
    let mut i: usize = 0;
    while i < parts.len()
        invariant
            i <= parts@.len(),
            pv == parts@.map_values(|v: Vec<char>| v@),
            out@ == join_with(pv.take(i as int), "/"@),
        decreases parts@.len() - i,
    {
        if i > 0 {
            out.push('/');
            proof {
                reveal_strlit("/");
                assert(seq!['/'] =~= "/"@);
            }
        }
        crate::text::push_all(&mut out, parts[i].as_slice());
        assert(pv.take(i + 1).drop_last() =~= pv.take(i as int));
        proof {
            if i > 0 {
                assert(out@ =~= join_with(pv.take(i as int), "/"@) + "/"@ + pv[i as int]);
            }
        }
        i += 1;
    }
    assert(pv.take(parts@.len() as int) =~= pv);
    out
}

/// Places the archive entry `path` in the index of `lang` (see [`normalized_entry`]).
pub fn normalize_index_entry_path(path: &str, lang: &str) -> (r: Result<Option<String>, MemoryIndexError>)
    ensures
        match normalized_entry(path@, lang@) {
            Err(()) => r matches Err(MemoryIndexError::InvalidPath(p)) && p@ == path@,
            Ok(None) => r matches Ok(None),
            Ok(Some(rel)) => r matches Ok(Some(x)) && x@ == rel,
        },
{
    let c = chars_of(path);
    if c.len() > 0 && c[0] == '/' {
        return Err(MemoryIndexError::InvalidPath(owned(path)));
    }
    let parts = parts_of(path);
    let ghost pv = parts@.map_values(|v: Vec<char>| v@);
    if parts.len() == 0 {
        return Ok(None);
    }
    assert(pv[0] == parts@[0]@);
    if is_dot(&parts[0]) || is_dot_dot(&parts[0]) {
        return Err(MemoryIndexError::InvalidPath(owned(path)));
    }
    let lang_chars = chars_of(lang);
    if seq_eq(parts[0].as_slice(), lang_chars.as_slice()) {
        let rest = named_from(&parts, 1);
        if rest.len() == 0 {
            return Ok(None);
        }
        Ok(Some(join_parts(&rest)))
    } else {
        Ok(Some(owned(path)))
    }
}

/// `true` when the file name of `path` ends with `.lock`.
pub fn should_skip_index_entry(path: &str) -> (r: bool)
    ensures
        r == is_skipped_entry(path@),
{
    let parts = parts_of(path);
    let kept = named_from(&parts, 0);
    proof {
        assert(parts@.map_values(|v: Vec<char>| v@).skip(0) =~= parts@.map_values(|v: Vec<char>| v@));
    }
    if kept.len() == 0 {
        return false;
    }
    let last = &kept[kept.len() - 1];
    assert(kept@.map_values(|v: Vec<char>| v@).last() == last@);
    if is_dot_dot(last) {
        return false;
    }
    let suffix = chars_of(".lock");
    slice_has_suffix(last.as_slice(), suffix.as_slice())
}

/// The files of an index archive for loading into memory: each file entry placed in the
/// index of `lang` (see [`normalized_entry`]), lock files left out, in archive order.
pub fn memory_index_files(zip_bytes: &[u8], lang: &str) -> (r: Result<Vec<(String, Vec<u8>)>, MemoryIndexError>)
    ensures
        match zip_listing(zip_bytes@) {
            None => r matches Err(MemoryIndexError::Parse(_)),
            Some(listing) => match memory_files_from(zip_bytes@, listing, lang@, 0) {
                Err(LoadFailure::InvalidPath(p)) => r matches Err(MemoryIndexError::InvalidPath(q)) && q@ == p,
                Err(LoadFailure::ReadEntry(p)) => r matches Err(MemoryIndexError::ReadEntry(q)) && q@ == p,
                Ok(files) => if files.len() == 0 {
                    r matches Err(MemoryIndexError::NoFiles)
                } else {
                    r matches Ok(v) && crate::archive::files_view(v@) == files
                },
            },
        },
{
    let infos = match list_zip_entries(zip_bytes) {
        Ok(v) => v,
        Err(e) => {
            return Err(MemoryIndexError::Parse(e));
        },
    };
    let ghost listing = infos_view(infos@);
    let ghost whole = memory_files_from(zip_bytes@, listing, lang@, 0);
    let mut files: Vec<(String, Vec<u8>)> = Vec::new();
    let mut i: usize = 0;
    proof {
        if let Ok(all) = whole {
            assert(crate::archive::files_view(files@) + all =~= all);
        }
    }
    while i < infos.len()
        invariant
            i <= infos@.len(),
            listing == infos_view(infos@),
            listing.len() == infos@.len(),
            zip_listing(zip_bytes@) == Some(listing),
            whole == memory_files_from(zip_bytes@, listing, lang@, 0),
            match memory_files_from(zip_bytes@, listing, lang@, i as int) {
                Ok(rest) => whole == Ok::<Seq<(Seq<char>, Seq<u8>)>, LoadFailure>(
                    crate::archive::files_view(files@) + rest,
                ),
                Err(e) => whole == Err::<Seq<(Seq<char>, Seq<u8>)>, LoadFailure>(e),
            },
        decreases infos@.len() - i,
    {
        let info = &infos[i];
        assert(listing[i as int] == info_view(*info));
        if !info.is_dir {
            match &info.enclosed_name {
                Some(name) => {
                    match normalize_index_entry_path(name.as_str(), lang) {
                        Err(e) => {
                            return Err(e);
                        },
                        Ok(None) => {},
                        Ok(Some(rel)) => {
                            if !should_skip_index_entry(rel.as_str()) {
                                match read_zip_entry(zip_bytes, i) {
                                    Ok(data) => {
                                        let ghost before = crate::archive::files_view(files@);
                                        proof {
                                            if let Ok(rest) = memory_files_from(zip_bytes@, listing, lang@, i + 1) {
                                                assert(before + (seq![(rel@, data@)] + rest) =~= before.push((rel@, data@)) + rest);
                                            }
                                        }
                                        let ghost entry = (rel@, data@);
                                        files.push((rel, data));
                                        assert(crate::archive::files_view(files@) =~= before.push(entry));
                                    },
                                    Err(_) => {
                                        return Err(MemoryIndexError::ReadEntry(name.clone()));
                                    },
                                }
                            }
                        },
                    }
                },
                None => {},
            }
        }
        i += 1;
    }
    proof {
        if let Ok(all) = whole {
            assert(crate::archive::files_view(files@) + Seq::<(Seq<char>, Seq<u8>)>::empty() =~= crate::archive::files_view(files@));
        }
    }
    if files.len() == 0 {
        return Err(MemoryIndexError::NoFiles);
    }
    Ok(files)
}


proof fn lemma_filter_single<A>(x: A, pred: spec_fn(A) -> bool)
    ensures
        seq![x].filter(pred) == if pred(x) { seq![x] } else { Seq::<A>::empty() },
{
    reveal(Seq::filter);
    assert(seq![x].drop_last() =~= Seq::<A>::empty());
    assert(Seq::<A>::empty().filter(pred) =~= Seq::<A>::empty());
}

/// The file name of `dir/name` (and of `name` alone) is `name`, for a name without `/` that is
/// neither `.` nor `..`; such an entry is left out of an in-memory index exactly when the name
/// ends with `.lock`.
pub proof fn lemma_entry_file_name(dir: Seq<char>, name: Seq<char>)
    requires
        name.len() > 0,
        forall|k: int| 0 <= k < name.len() ==> name[k] != '/',
        name != seq!['.'],
        name != seq!['.', '.'],
    ensures
        path_file_name(dir + seq!['/'] + name) == Some(name),
        path_file_name(name) == Some(name),
        is_skipped_entry(dir + seq!['/'] + name) <==> has_suffix(name, ".lock"@),
        is_skipped_entry(name) <==> has_suffix(name, ".lock"@),
{
    let ne = |x: Seq<char>| x.len() > 0;
    let nd = |x: Seq<char>| x != seq!['.'];
    lemma_split_parts_concat(dir, name);
    lemma_split_parts_single(name);
    Seq::filter_distributes_over_add(split_parts(dir), seq![name], ne);
    lemma_filter_single(name, ne);
    let a = split_parts(dir).filter(ne);
    assert(nonempty_parts(dir + seq!['/'] + name) == a + seq![name]);
    Seq::filter_distributes_over_add(a, seq![name], nd);
    lemma_filter_single(name, nd);
    let kept = named_parts(a + seq![name]);
    assert(kept == a.filter(nd) + seq![name]);
    assert(kept.last() == name);
    assert(nonempty_parts(name) == seq![name]);
    assert(named_parts(seq![name]) == seq![name]);
}


/// Entries that cannot be placed in an index are refused: a path starting at the root, or one
/// whose first part is `.` or `..`; an empty path names no file.
pub proof fn lemma_refused_entries(p: Seq<char>, lang: Seq<char>, rest: Seq<char>)
    ensures
        p.len() > 0 && p[0] == '/' ==> normalized_entry(p, lang) is Err,
        normalized_entry(seq!['.', '.', '/'] + rest, lang) is Err,
        normalized_entry(seq!['.', '/'] + rest, lang) is Err,
        normalized_entry(Seq::<char>::empty(), lang) == Ok::<Option<Seq<char>>, ()>(None),
{
    let ne = |x: Seq<char>| x.len() > 0;
    let dd = seq!['.', '.'];
    assert(seq!['.', '.', '/'] + rest =~= dd + seq!['/'] + rest);
    lemma_split_parts_concat(dd, rest);
    lemma_split_parts_single(dd);
    Seq::filter_distributes_over_add(seq![dd], split_parts(rest), ne);
    lemma_filter_single(dd, ne);
    assert(nonempty_parts(seq!['.', '.', '/'] + rest)[0] == dd);
    let d = seq!['.'];
    assert(seq!['.', '/'] + rest =~= d + seq!['/'] + rest);
    lemma_split_parts_concat(d, rest);
    lemma_split_parts_single(d);
    Seq::filter_distributes_over_add(seq![d], split_parts(rest), ne);
    lemma_filter_single(d, ne);
    assert(nonempty_parts(seq!['.', '/'] + rest)[0] == d);
    assert(split_parts(Seq::<char>::empty()) == seq![Seq::<char>::empty()]);
    lemma_filter_single(Seq::<char>::empty(), ne);
}

} // verus!
