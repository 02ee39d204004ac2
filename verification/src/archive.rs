//! Reading zip archives held in memory: which entries are files, under which names, and which
//! of them make up an index or a dictionary.

use vstd::prelude::*;
use crate::text::{chars_of, has_prefix, has_suffix, owned, push_str, slice_has_prefix, slice_has_suffix, string_of};

verus! {

#[verifier::external_type_specification]
#[verifier::external_body]
pub struct ExZipError(zip::result::ZipError);

/// What an archive's central directory says of one entry.
#[derive(Debug)]
pub struct ZipEntryInfo {
    /// The entry is a directory.
    pub is_dir: bool,
    /// The entry's path, when it is safe to use (relative, not escaping the archive).
    pub enclosed_name: Option<String>,
}

/// View of an entry record.
pub open spec fn info_view(e: ZipEntryInfo) -> (bool, Option<Seq<char>>) {
    (
        e.is_dir,
        match e.enclosed_name {
            Some(n) => Some(n@),
            None => None,
        },
    )
}

pub open spec fn infos_view(v: Seq<ZipEntryInfo>) -> Seq<(bool, Option<Seq<char>>)> {
    v.map_values(|e: ZipEntryInfo| info_view(e))
}

/// The number of entries of the zip archive `bytes`; `None` when it cannot be read.
pub uninterp spec fn zip_entry_count(bytes: Seq<u8>) -> Option<nat>;

/// What the central directory of the zip archive `bytes` says of entry `index`: whether it
/// is a directory, and its path when that is safe to use; `None` when the record cannot be
/// read.
pub uninterp spec fn zip_entry_record(bytes: Seq<u8>, index: int) -> Option<(bool, Option<Seq<char>>)>;

/// The entry records of the zip archive `bytes`, in archive order; `None` when the archive
/// or one of its records cannot be read.
pub open spec fn zip_listing(bytes: Seq<u8>) -> Option<Seq<(bool, Option<Seq<char>>)>> {
    match zip_entry_count(bytes) {
        None => None,
        Some(n) => if forall|i: int| 0 <= i < n ==> (#[trigger] zip_entry_record(bytes, i)) is Some {
            Some(Seq::new(n, |i: int| zip_entry_record(bytes, i).unwrap()))
        } else {
            None
        },
    }
}

/// The contents of entry `index` of the zip archive `bytes`; `None` when it cannot be read.
pub uninterp spec fn zip_entry_data(bytes: Seq<u8>, index: int) -> Option<Seq<u8>>;

/// Counts the entries of a zip archive with `zip::ZipArchive::new` and `ZipArchive::len`.
/// Claims only that the count is a function of the bytes (named [`zip_entry_count`]).
#[verifier::external_body]
fn zip_count(bytes: &[u8]) -> (r: Result<usize, zip::result::ZipError>)
    ensures
        match r {
            Ok(n) => zip_entry_count(bytes@) == Some(n as nat),
            Err(_) => zip_entry_count(bytes@) is None,
        },
{
    let archive = zip::ZipArchive::new(std::io::Cursor::new(bytes))?;
    Ok(archive.len())
}

/// Reads the record of entry `index` of a zip archive with `zip::ZipArchive::new`,
/// `ZipArchive::by_index`, `ZipFile::is_dir` and `ZipFile::enclosed_name` (converted with
/// `to_string_lossy`). Claims only that the record is a function of the bytes and the index
/// (named [`zip_entry_record`]).
#[verifier::external_body]
fn zip_entry_info(bytes: &[u8], index: usize) -> (r: Result<ZipEntryInfo, zip::result::ZipError>)
    ensures
        match r {
            Ok(info) => zip_entry_record(bytes@, index as int) == Some(info_view(info)),
            Err(_) => zip_entry_record(bytes@, index as int) is None,
        },
{
    let mut archive = zip::ZipArchive::new(std::io::Cursor::new(bytes))?;
    let file = archive.by_index(index)?;
    let name = file.enclosed_name().map(|p| p.to_string_lossy().into_owned());
    Ok(ZipEntryInfo { is_dir: file.is_dir(), enclosed_name: name })
}

/// Lists the entry records of a zip archive, in archive order.
pub(crate) fn list_zip_entries(bytes: &[u8]) -> (r: Result<Vec<ZipEntryInfo>, zip::result::ZipError>)
    ensures
        match r {
            Ok(v) => zip_listing(bytes@) == Some(infos_view(v@)),
            Err(_) => zip_listing(bytes@) is None,
        },
{
    let n = zip_count(bytes)?;
    let mut out: Vec<ZipEntryInfo> = Vec::new();
    let mut i: usize = 0;
    while i < n
        invariant
            i <= n,
            zip_entry_count(bytes@) == Some(n as nat),
            out@.len() == i,
            forall|k: int| 0 <= k < i ==> zip_entry_record(bytes@, k) == Some(#[trigger] infos_view(out@)[k]),
        decreases n - i,
    {
        match zip_entry_info(bytes, i) {
            Ok(info) => {
                let ghost before = infos_view(out@);
                let ghost v = info_view(info);
                out.push(info);
                assert(infos_view(out@) =~= before.push(v));
            },
            Err(e) => {
                assert(!(forall|k: int| 0 <= k < n ==> (#[trigger] zip_entry_record(bytes@, k)) is Some));
                return Err(e);
            },
        }
        i += 1;
    }
    proof {
        assert forall|k: int| 0 <= k < n implies (#[trigger] zip_entry_record(bytes@, k)) is Some by {
            assert(zip_entry_record(bytes@, k) == Some(infos_view(out@)[k]));
        }
        assert(Seq::new(n as nat, |k: int| zip_entry_record(bytes@, k).unwrap()) =~= infos_view(out@));
    }
    Ok(out)
}

/// Reads entry `index` of a zip archive with `zip::ZipArchive::new`, `ZipArchive::by_index`
/// and `Read::read_to_end`. Claims only that the contents are a function of the bytes and the
/// index (named [`zip_entry_data`]).
#[verifier::external_body]
pub(crate) fn read_zip_entry(bytes: &[u8], index: usize) -> (r: Result<Vec<u8>, zip::result::ZipError>)
    ensures
        match r {
            Ok(d) => zip_entry_data(bytes@, index as int) == Some(d@),
            Err(_) => zip_entry_data(bytes@, index as int) is None,
        },
{
    let mut archive = zip::ZipArchive::new(std::io::Cursor::new(bytes))?;
    let mut file = archive.by_index(index)?;
    let mut data = Vec::new();
    std::io::Read::read_to_end(&mut file, &mut data)?;
    Ok(data)
}

/// The contents of the entry stored under exactly the name `name` in the zip archive `bytes`:
/// `Some(None)` when there is no such entry, `None` when the archive or the entry cannot be
/// read.
pub uninterp spec fn zip_named_entry(bytes: Seq<u8>, name: Seq<char>) -> Option<Option<Seq<u8>>>;

/// Reads the entry named `name` of a zip archive with `zip::ZipArchive::new`,
/// `ZipArchive::by_name` and `Read::read_to_end`; `by_name` failing with
/// `ZipError::FileNotFound` gives `Ok(None)`. Claims only that the outcome is a function of
/// the bytes and the name (named [`zip_named_entry`]).
#[verifier::external_body]
pub(crate) fn read_zip_entry_named(bytes: &[u8], name: &str) -> (r: Result<Option<Vec<u8>>, zip::result::ZipError>)
    ensures
        match r {
            Ok(Some(d)) => zip_named_entry(bytes@, name@) == Some(Some(d@)),
            Ok(None) => zip_named_entry(bytes@, name@) == Some(None::<Seq<u8>>),
            Err(_) => zip_named_entry(bytes@, name@) is None,
        },
{
    let mut archive = zip::ZipArchive::new(std::io::Cursor::new(bytes))?;
    let mut file = match archive.by_name(name) {
        Ok(f) => f,
        Err(zip::result::ZipError::FileNotFound) => return Ok(None),
        Err(e) => return Err(e),
    };
    let mut data = Vec::new();
    std::io::Read::read_to_end(&mut file, &mut data)?;
    Ok(Some(data))
}

/// Why an archive could not be used.
#[derive(Debug)]
pub enum ArchiveError {
    /// The archive (or its directory of entries) could not be read.
    Parse(zip::result::ZipError),
    /// An entry's contents could not be read; holds its path.
    ReadEntry(String, zip::result::ZipError),
    /// The archive holds no files.
    Empty,
    /// The archive has no `{lang}/` index directory; holds the language.
    MissingLangDir(String),
    /// The archive has no `char_def.bin`.
    MissingDictionary,
}

impl ArchiveError {
    /// The error text (for the two read errors, the context that precedes the zip error).
    pub open spec fn spec_message(&self) -> Seq<char> {
        match self {
            ArchiveError::Parse(_) => "failed to parse zip archive"@,
            ArchiveError::ReadEntry(p, _) => "failed to read zip entry "@ + p@,
            ArchiveError::Empty => "zip archive contained no files"@,
            ArchiveError::MissingLangDir(l) => "zip archive did not contain expected "@ + l@ + " index directory"@,
            ArchiveError::MissingDictionary => "dictionary zip did not contain char_def.bin"@,
        }
    }

    /// The error text (for the two read errors, the context that precedes the zip error).
    pub fn message(&self) -> (r: String)
        ensures
            r@ == self.spec_message(),
    {
        match self {
            ArchiveError::Parse(_) => owned("failed to parse zip archive"),
            ArchiveError::ReadEntry(p, _) => {
                let mut r = owned("failed to read zip entry ");
                push_str(&mut r, p.as_str());
                r
            },
            ArchiveError::Empty => owned("zip archive contained no files"),
            ArchiveError::MissingLangDir(l) => {
                let mut r = owned("zip archive did not contain expected ");
                push_str(&mut r, l.as_str());
                push_str(&mut r, " index directory");
                r
            },
            ArchiveError::MissingDictionary => owned("dictionary zip did not contain char_def.bin"),
        }
    }
}

/// `name` with `\` separators turned into `/`.
pub open spec fn slash_path(name: Seq<char>) -> Seq<char> {
    name.map_values(|c: char| if c == '\\' { '/' } else { c })
}

/// `true` for the entries that are extracted: files with a safe path.
pub open spec fn is_extracted(info: (bool, Option<Seq<char>>)) -> bool {
    !info.0 && info.1 is Some
}

/// The files of archive `bytes` from entry `i` on, as `(path, contents)` in archive order;
/// `None` when the contents of one of them cannot be read.
pub open spec fn files_from(bytes: Seq<u8>, listing: Seq<(bool, Option<Seq<char>>)>, i: int) -> Option<Seq<(Seq<char>, Seq<u8>)>>
    decreases listing.len() - i,
{
    if i < 0 || i >= listing.len() {
        Some(Seq::empty())
    } else if !is_extracted(listing[i]) {
        files_from(bytes, listing, i + 1)
    } else {
        match zip_entry_data(bytes, i) {
            None => None,
            Some(d) => match files_from(bytes, listing, i + 1) {
                None => None,
                Some(rest) => Some(seq![(slash_path(listing[i].1.unwrap()), d)] + rest),
            },
        }
    }
}

/// View of a list of files.
pub open spec fn files_view(v: Seq<(String, Vec<u8>)>) -> Seq<(Seq<char>, Seq<u8>)> {
    v.map_values(|f: (String, Vec<u8>)| (f.0@, f.1@))
}

fn slash_path_of(name: &str) -> (r: String)
    ensures
        r@ == slash_path(name@),
{
    let c = chars_of(name);
    let mut out: Vec<char> = Vec::new();
    let mut i: usize = 0;
    while i < c.len()
        invariant
            i <= c@.len(),
            c@ == name@,
            out@ == slash_path(c@).take(i as int),
        decreases c@.len() - i,
    {
        if c[i] == '\\' {
            out.push('/');
        } else {
            out.push(c[i]);
        }
        i += 1;
        assert(out@ =~= slash_path(c@).take(i as int));
    }
    assert(out@ =~= slash_path(name@));
    string_of(out.as_slice())
}

/// The files of a zip archive held in memory, as `(path, contents)` in archive order (a later
/// entry with the same path replaces an earlier one when they are written out in order).
/// Directories and entries without a safe path are skipped; `\` in paths becomes `/`.
pub fn extract_zip_to_map(zip_bytes: &[u8]) -> (r: Result<Vec<(String, Vec<u8>)>, ArchiveError>)
    ensures
        match zip_listing(zip_bytes@) {
            None => r matches Err(ArchiveError::Parse(_)),
            Some(listing) => match files_from(zip_bytes@, listing, 0) {
                None => r matches Err(ArchiveError::ReadEntry(_, _)),
                Some(files) => if files.len() == 0 {
                    r matches Err(ArchiveError::Empty)
                } else {
                    r matches Ok(v) && files_view(v@) == files
                },
            },
        },
{
    let infos = match list_zip_entries(zip_bytes) {
        Ok(v) => v,
        Err(e) => {
            return Err(ArchiveError::Parse(e));
        },
    };
    let ghost listing = infos_view(infos@);
    let ghost whole = files_from(zip_bytes@, listing, 0);
    let mut files: Vec<(String, Vec<u8>)> = Vec::new();
    let mut i: usize = 0;
    assert(files_view(files@) + whole.unwrap() =~= whole.unwrap());
    while i < infos.len()
        invariant
            i <= infos@.len(),
            listing == infos_view(infos@),
            listing.len() == infos@.len(),
            zip_listing(zip_bytes@) == Some(listing),
            whole == files_from(zip_bytes@, listing, 0),
            match files_from(zip_bytes@, listing, i as int) {
                Some(rest) => whole == Some(files_view(files@) + rest),
                None => whole is None,
            },
        decreases infos@.len() - i,
    {
        let info = &infos[i];
        assert(listing[i as int] == info_view(*info));
        if !info.is_dir {
            match &info.enclosed_name {
                Some(name) => {
                    let rel_path = slash_path_of(name.as_str());
                    match read_zip_entry(zip_bytes, i) {
                        Ok(data) => {
                            let ghost before = files_view(files@);
                            proof {
                                if let Some(rest) = files_from(zip_bytes@, listing, i + 1) {
                                    assert(before + (seq![(rel_path@, data@)] + rest) =~= before.push((rel_path@, data@)) + rest);
                                }
                            }
                            let ghost entry = (rel_path@, data@);
                            files.push((rel_path, data));
                            assert(files_view(files@) =~= before.push(entry));
                        },
                        Err(e) => {
                            return Err(ArchiveError::ReadEntry(rel_path, e));
                        },
                    }
                },
                None => {},
            }
        }
        i += 1;
    }
    assert(files_view(files@) + seq![] =~= files_view(files@));
    if files.len() == 0 {
        return Err(ArchiveError::Empty);
    }
    Ok(files)
}


/// Position of the first file whose path ends with `suffix`.
pub open spec fn first_with_suffix(files: Seq<(Seq<char>, Seq<u8>)>, suffix: Seq<char>) -> Option<int> {
    if exists|i: int| 0 <= i < files.len() && has_suffix(files[i].0, suffix) && forall|j: int| 0 <= j < i ==> !has_suffix(#[trigger] files[j].0, suffix) {
        Some(choose|i: int| 0 <= i < files.len() && has_suffix(files[i].0, suffix) && forall|j: int| 0 <= j < i ==> !has_suffix(#[trigger] files[j].0, suffix))
    } else {
        None
    }
}

/// `true` when some file path starts with `prefix`.
pub open spec fn some_path_starts_with(files: Seq<(Seq<char>, Seq<u8>)>, prefix: Seq<char>) -> bool {
    exists|i: int| 0 <= i < files.len() && has_prefix(#[trigger] files[i].0, prefix)
}

/// The directory prefix of `lang`'s index in an archive: `{lang}/` when some path starts with
/// it, else the directory holding the first `…{lang}/meta.json`.
pub open spec fn lang_prefix(files: Seq<(Seq<char>, Seq<u8>)>, lang: Seq<char>) -> Option<Seq<char>> {
    if some_path_starts_with(files, lang + "/"@) {
        Some(lang + "/"@)
    } else {
        match first_with_suffix(files, lang + "/meta.json"@) {
            Some(i) => Some(files[i].0.take(files[i].0.len() - "meta.json"@.len())),
            None => None,
        }
    }
}

/// The directory prefix of a dictionary in an archive: that of the first `…/char_def.bin`.
pub open spec fn dictionary_prefix(files: Seq<(Seq<char>, Seq<u8>)>) -> Option<Seq<char>> {
    match first_with_suffix(files, "/char_def.bin"@) {
        Some(i) => Some(files[i].0.take(files[i].0.len() - "char_def.bin"@.len())),
        None => None,
    }
}

fn first_path_with_suffix(files: &[(String, Vec<u8>)], suffix: &str) -> (r: Option<usize>)
    ensures
        match r {
            Some(i) => first_with_suffix(files_view(files@), suffix@) == Some(i as int),
            None => first_with_suffix(files_view(files@), suffix@) is None,
        },
{
    let ghost fv = files_view(files@);
    let sfx = chars_of(suffix);
    let mut i: usize = 0;
    while i < files.len()
        invariant
            i <= files@.len(),
            fv == files_view(files@),
            fv.len() == files@.len(),
            sfx@ == suffix@,
            forall|j: int| 0 <= j < i ==> !has_suffix(#[trigger] fv[j].0, suffix@),
        decreases files@.len() - i,
    {
        let p = chars_of(files[i].0.as_str());
        if slice_has_suffix(p.as_slice(), sfx.as_slice()) {
            proof {
                assert(fv[i as int].0 == p@);
                let w = choose|w: int| 0 <= w < fv.len() && has_suffix(fv[w].0, suffix@) && forall|j: int| 0 <= j < w ==> !has_suffix(#[trigger] fv[j].0, suffix@);
                assert(w == i) by {
                    if w > i {
                        assert(!has_suffix(fv[i as int].0, suffix@));
                    }
                }
            }
            return Some(i);
        }
        i += 1;
    }
    None
}

fn any_path_starts_with(files: &[(String, Vec<u8>)], prefix: &str) -> (r: bool)
    ensures
        r == some_path_starts_with(files_view(files@), prefix@),
{
    let ghost fv = files_view(files@);
    let pre = chars_of(prefix);
    let mut i: usize = 0;
    while i < files.len()
        invariant
            i <= files@.len(),
            fv == files_view(files@),
            fv.len() == files@.len(),
            pre@ == prefix@,
            forall|j: int| 0 <= j < i ==> !has_prefix(#[trigger] fv[j].0, prefix@),
        decreases files@.len() - i,
    {
        let p = chars_of(files[i].0.as_str());
        if slice_has_prefix(p.as_slice(), pre.as_slice()) {
            assert(fv[i as int].0 == p@);
            return true;
        }
        i += 1;
    }
    false
}

/// `s` without its last `n` characters.
fn drop_chars(s: &str, n: usize) -> (r: String)
    requires
        n <= s@.len(),
    ensures
        r@ == s@.take(s@.len() - n),
{
    let c = chars_of(s);
    let keep = &c.as_slice()[0..c.len() - n];
    assert(keep@ =~= s@.take(s@.len() - n));
    string_of(keep)
}

/// Finds the directory prefix of `lang`'s index among the files of an archive.
pub fn find_lang_prefix(files: &[(String, Vec<u8>)], lang: &str) -> (r: Result<String, ArchiveError>)
    ensures
        match lang_prefix(files_view(files@), lang@) {
            Some(p) => r matches Ok(q) && q@ == p,
            None => r matches Err(ArchiveError::MissingLangDir(l)) && l@ == lang@,
        },
{
    let mut direct = owned(lang);
    push_str(&mut direct, "/");
    if any_path_starts_with(files, direct.as_str()) {
        return Ok(direct);
    }
    let mut meta = owned(lang);
    push_str(&mut meta, "/meta.json");
    match first_path_with_suffix(files, meta.as_str()) {
        Some(i) => {
            proof {
                assert(files_view(files@)[i as int].0 == files@[i as int].0@);
                reveal_strlit("meta.json");
                reveal_strlit("/meta.json");
                assert("meta.json"@.len() == 9);
                assert(meta@.len() == lang@.len() + 10);
            }
            Ok(drop_chars(files[i].0.as_str(), 9))
        },
        None => Err(ArchiveError::MissingLangDir(owned(lang))),
    }
}

/// Finds the directory prefix of the dictionary among the files of an archive.
pub fn dictionary_prefix_from_files(files: &[(String, Vec<u8>)]) -> (r: Result<String, ArchiveError>)
    ensures
        match dictionary_prefix(files_view(files@)) {
            Some(p) => r matches Ok(q) && q@ == p,
            None => r matches Err(ArchiveError::MissingDictionary),
        },
{
    match first_path_with_suffix(files, "/char_def.bin") {
        Some(i) => {
            proof {
                assert(files_view(files@)[i as int].0 == files@[i as int].0@);
                reveal_strlit("char_def.bin");
                reveal_strlit("/char_def.bin");
            }
            Ok(drop_chars(files[i].0.as_str(), 12))
        },
        None => Err(ArchiveError::MissingDictionary),
    }
}

/// The files from position `i` on that lie under `prefix`, with paths relative to it (empty
/// and directory-like relative paths are skipped).
pub open spec fn files_under_from(files: Seq<(Seq<char>, Seq<u8>)>, prefix: Seq<char>, i: int) -> Seq<(Seq<char>, Seq<u8>)>
    decreases files.len() - i,
{
    if i < 0 || i >= files.len() {
        Seq::empty()
    } else {
        let rel = files[i].0.skip(prefix.len() as int);
        let here = if has_prefix(files[i].0, prefix) && rel.len() > 0 && rel[rel.len() - 1] != '/' {
            seq![(rel, files[i].1)]
        } else {
            Seq::empty()
        };
        here + files_under_from(files, prefix, i + 1)
    }
}

/// The files under `prefix`, with paths relative to it.
pub open spec fn files_under(files: Seq<(Seq<char>, Seq<u8>)>, prefix: Seq<char>) -> Seq<(Seq<char>, Seq<u8>)> {
    files_under_from(files, prefix, 0)
}

/// The files that lie under `prefix`, with paths relative to it, in order.
pub fn files_under_prefix(files: &[(String, Vec<u8>)], prefix: &str) -> (r: Vec<(String, Vec<u8>)>)
    ensures
        files_view(r@) == files_under(files_view(files@), prefix@),
{
    let ghost fv = files_view(files@);
    let pre = chars_of(prefix);
    let mut out: Vec<(String, Vec<u8>)> = Vec::new();
    let mut i: usize = 0;
    assert(files_view(out@) + files_under_from(fv, prefix@, 0) =~= files_under_from(fv, prefix@, 0));
    while i < files.len()
        invariant
            i <= files@.len(),
            fv == files_view(files@),
            fv.len() == files@.len(),
            pre@ == prefix@,
            files_view(out@) + files_under_from(fv, prefix@, i as int) == files_under_from(fv, prefix@, 0),
        decreases files@.len() - i,
    {
        let p = chars_of(files[i].0.as_str());
        assert(fv[i as int].0 == p@ && fv[i as int].1 == files@[i as int].1@);
        if slice_has_prefix(p.as_slice(), pre.as_slice()) {
            let rel = &p.as_slice()[pre.len()..p.len()];
            assert(rel@ =~= fv[i as int].0.skip(prefix@.len() as int));
            if rel.len() > 0 && rel[rel.len() - 1] != '/' {
                let ghost before = files_view(out@);
                let ghost entry = (rel@, files@[i as int].1@);
                out.push((string_of(rel), files[i].1.clone()));
                assert(files_view(out@) =~= before.push(entry));
                assert(before + files_under_from(fv, prefix@, i as int) =~= files_view(out@) + files_under_from(fv, prefix@, i + 1));
            } else {
                assert(files_under_from(fv, prefix@, i as int) =~= files_under_from(fv, prefix@, i + 1));
            }
        } else {
            assert(files_under_from(fv, prefix@, i as int) =~= files_under_from(fv, prefix@, i + 1));
        }
        i += 1;
    }
    assert(files_view(out@) + files_under_from(fv, prefix@, i as int) =~= files_view(out@));
    out
}

/// The files of `lang`'s index in an index archive, with paths relative to the index
/// directory (what is loaded into an in-memory directory before the index is opened).
pub fn index_files_from_zip(zip_bytes: &[u8], lang: &str) -> (r: Result<Vec<(String, Vec<u8>)>, ArchiveError>)
    ensures
        match zip_listing(zip_bytes@) {
            None => r matches Err(ArchiveError::Parse(_)),
            Some(listing) => match files_from(zip_bytes@, listing, 0) {
                None => r matches Err(ArchiveError::ReadEntry(_, _)),
                Some(files) => if files.len() == 0 {
                    r matches Err(ArchiveError::Empty)
                } else {
                    match lang_prefix(files, lang@) {
                        None => r matches Err(ArchiveError::MissingLangDir(l)) && l@ == lang@,
                        Some(p) => r matches Ok(v) && files_view(v@) == files_under(files, p),
                    }
                },
            },
        },
{
    let files = extract_zip_to_map(zip_bytes)?;
    let prefix = find_lang_prefix(files.as_slice(), lang)?;
    Ok(files_under_prefix(files.as_slice(), prefix.as_str()))
}

/// The files of the dictionary in a dictionary archive, with paths relative to its directory
/// (what is written out before the dictionary is loaded).
pub fn dictionary_files_from_zip(zip_bytes: &[u8]) -> (r: Result<Vec<(String, Vec<u8>)>, ArchiveError>)
    ensures
        match zip_listing(zip_bytes@) {
            None => r matches Err(ArchiveError::Parse(_)),
            Some(listing) => match files_from(zip_bytes@, listing, 0) {
                None => r matches Err(ArchiveError::ReadEntry(_, _)),
                Some(files) => if files.len() == 0 {
                    r matches Err(ArchiveError::Empty)
                } else {
                    match dictionary_prefix(files) {
                        None => r matches Err(ArchiveError::MissingDictionary),
                        Some(p) => r matches Ok(v) && files_view(v@) == files_under(files, p),
                    }
                },
            },
        },
{
    let files = extract_zip_to_map(zip_bytes)?;
    let prefix = dictionary_prefix_from_files(files.as_slice())?;
    Ok(files_under_prefix(files.as_slice(), prefix.as_str()))
}

/// Entry names use `/`: every `\\` becomes `/`, every other character stays.
pub proof fn lemma_slash_path(name: Seq<char>)
    ensures
        slash_path(name).len() == name.len(),
        forall|k: int| 0 <= k < name.len() ==> #[trigger] slash_path(name)[k] == if name[k] == '\\' {
            '/'
        } else {
            name[k]
        },
{
}

proof fn lemma_first_with_suffix(files: Seq<(Seq<char>, Seq<u8>)>, suffix: Seq<char>)
    ensures
        first_with_suffix(files, suffix) matches Some(i) ==> 0 <= i < files.len() && has_suffix(files[i].0, suffix),
        first_with_suffix(files, suffix) is None ==> forall|j: int| 0 <= j < files.len() ==> !has_suffix(#[trigger] files[j].0, suffix),
{
    if first_with_suffix(files, suffix) is None {
        assert forall|j: int| 0 <= j < files.len() implies !has_suffix(#[trigger] files[j].0, suffix) by {
            if has_suffix(files[j].0, suffix) {
                lemma_some_first_with_suffix(files, suffix, j);
            }
        }
    }
}

proof fn lemma_some_first_with_suffix(files: Seq<(Seq<char>, Seq<u8>)>, suffix: Seq<char>, j: int)
    requires
        0 <= j < files.len(),
        has_suffix(files[j].0, suffix),
    ensures
        exists|i: int| 0 <= i < files.len() && has_suffix(files[i].0, suffix) && forall|m: int| 0 <= m < i
            ==> !has_suffix(#[trigger] files[m].0, suffix),
    decreases j,
{
    if exists|m: int| 0 <= m < j && has_suffix(#[trigger] files[m].0, suffix) {
        let m = choose|m: int| 0 <= m < j && has_suffix(#[trigger] files[m].0, suffix);
        lemma_some_first_with_suffix(files, suffix, m);
    } else {
        assert(forall|m: int| 0 <= m < j ==> !has_suffix(#[trigger] files[m].0, suffix));
    }
}

/// Where `lang`'s index lies in an archive: under `{lang}/` when some path starts with it;
/// otherwise in the directory of a `…{lang}/meta.json` file; with neither there is none.
pub proof fn lemma_lang_prefix(files: Seq<(Seq<char>, Seq<u8>)>, lang: Seq<char>)
    ensures
        (exists|i: int| 0 <= i < files.len() && has_prefix(#[trigger] files[i].0, lang + "/"@)) ==> lang_prefix(files, lang)
            == Some(lang + "/"@),
        lang_prefix(files, lang) matches Some(p) ==> p == lang + "/"@ || exists|i: int|
            0 <= i < files.len() && #[trigger] files[i].0 == p + "meta.json"@ && has_suffix(files[i].0, lang + "/meta.json"@),
        lang_prefix(files, lang) is None ==> forall|i: int| 0 <= i < files.len() ==> !has_prefix(
            #[trigger] files[i].0,
            lang + "/"@,
        ) && !has_suffix(files[i].0, lang + "/meta.json"@),
{
    lemma_first_with_suffix(files, lang + "/meta.json"@);
    if !some_path_starts_with(files, lang + "/"@) {
        if let Some(i) = first_with_suffix(files, lang + "/meta.json"@) {
            let f = files[i].0;
            let m = "meta.json"@;
            let p = f.take(f.len() - m.len());
            reveal_strlit("meta.json");
            reveal_strlit("/meta.json");
            assert((lang + "/meta.json"@).len() >= m.len());
            assert(f.skip(f.len() - (lang + "/meta.json"@).len()) == lang + "/meta.json"@);
            assert(f.skip(f.len() - m.len()) =~= m) by {
                assert forall|k: int| 0 <= k < m.len() implies f.skip(f.len() - m.len())[k] == m[k] by {
                    let t = lang + "/meta.json"@;
                    assert(f.skip(f.len() - t.len())[t.len() - m.len() + k] == t[t.len() - m.len() + k]);
                    assert("/meta.json"@[1 + k] == m[k]);
                }
            }
            assert(f =~= p + m) by {
                assert(f =~= f.take(f.len() - m.len()) + f.skip(f.len() - m.len()));
            }
        }
    }
}

/// Where a dictionary lies in an archive: in the directory of its first `…/char_def.bin`;
/// without one there is none.
pub proof fn lemma_dictionary_prefix(files: Seq<(Seq<char>, Seq<u8>)>)
    ensures
        dictionary_prefix(files) matches Some(p) ==> exists|i: int|
            0 <= i < files.len() && #[trigger] files[i].0 == p + "char_def.bin"@ && has_suffix(files[i].0, "/char_def.bin"@),
        dictionary_prefix(files) is None ==> forall|i: int| 0 <= i < files.len() ==> !has_suffix(
            #[trigger] files[i].0,
            "/char_def.bin"@,
        ),
{
    lemma_first_with_suffix(files, "/char_def.bin"@);
    if let Some(i) = first_with_suffix(files, "/char_def.bin"@) {
        let f = files[i].0;
        let m = "char_def.bin"@;
        let p = f.take(f.len() - m.len());
        reveal_strlit("char_def.bin");
        reveal_strlit("/char_def.bin");
        let t = "/char_def.bin"@;
        assert(f.skip(f.len() - t.len()) == t);
        assert(f.skip(f.len() - m.len()) =~= m) by {
            assert forall|k: int| 0 <= k < m.len() implies f.skip(f.len() - m.len())[k] == m[k] by {
                assert(f.skip(f.len() - t.len())[1 + k] == t[1 + k]);
                assert(t[1 + k] == m[k]);
            }
        }
        assert(f =~= p + m) by {
            assert(f =~= f.take(f.len() - m.len()) + f.skip(f.len() - m.len()));
        }
    }
}

/// The files under a prefix are exactly the files whose path is the prefix followed by a
/// non-empty relative path that does not end with `/`, each with that relative path and its
/// contents, in archive order.
pub proof fn lemma_files_under(files: Seq<(Seq<char>, Seq<u8>)>, prefix: Seq<char>, from: int)
    requires
        0 <= from,
    ensures
        forall|k: int| #![trigger files_under_from(files, prefix, from)[k]]
            0 <= k < files_under_from(files, prefix, from).len() ==> exists|i: int|
                from <= i < files.len() && (#[trigger] files[i]).0 == prefix + files_under_from(files, prefix, from)[k].0
                && files[i].1 == files_under_from(files, prefix, from)[k].1
                && files_under_from(files, prefix, from)[k].0.len() > 0
                && files_under_from(files, prefix, from)[k].0.last() != '/',
        forall|i: int| from <= i < files.len() && has_prefix((#[trigger] files[i]).0, prefix)
            && files[i].0.len() > prefix.len() && files[i].0.last() != '/' ==> files_under_from(files, prefix, from).contains(
            (files[i].0.skip(prefix.len() as int), files[i].1),
        ),
    decreases files.len() - from,
{
    if from < files.len() {
        lemma_files_under(files, prefix, from + 1);
        let f = files[from];
        let rel0 = f.0.skip(prefix.len() as int);
        let here = if has_prefix(f.0, prefix) && rel0.len() > 0 && rel0[rel0.len() - 1] != '/' {
            seq![(rel0, f.1)]
        } else {
            Seq::empty()
        };
        let rest = files_under_from(files, prefix, from + 1);
        let all = files_under_from(files, prefix, from);
        assert(all == here + rest);
        assert forall|k: int| #![trigger all[k]] 0 <= k < all.len() implies exists|i: int|
            from <= i < files.len() && (#[trigger] files[i]).0 == prefix + all[k].0 && files[i].1 == all[k].1
            && all[k].0.len() > 0 && all[k].0.last() != '/' by {
            if k < here.len() {
                assert(f.0 =~= f.0.take(prefix.len() as int) + rel0);
                assert(files[from].0 == prefix + all[k].0);
            } else {
                assert(all[k] == rest[k - here.len()]);
                let i = choose|i: int| from + 1 <= i < files.len() && (#[trigger] files[i]).0 == prefix + rest[k - here.len()].0
                    && files[i].1 == rest[k - here.len()].1 && rest[k - here.len()].0.len() > 0
                    && rest[k - here.len()].0.last() != '/';
                assert(files[i].0 == prefix + all[k].0);
            }
        }
        assert forall|i: int| from <= i < files.len() && has_prefix((#[trigger] files[i]).0, prefix)
            && files[i].0.len() > prefix.len() && files[i].0.last() != '/' implies all.contains(
            (files[i].0.skip(prefix.len() as int), files[i].1),
        ) by {
            let rel = files[i].0.skip(prefix.len() as int);
            assert(rel[rel.len() - 1] == files[i].0.last());
            if i == from {
                assert(all[0] == (rel, files[i].1));
            } else {
                assert(rest.contains((rel, files[i].1)));
                let k = choose|k: int| 0 <= k < rest.len() && rest[k] == (rel, files[i].1);
                assert(all[k + here.len()] == rest[k]);
            }
        }
    }
}

} // verus!
