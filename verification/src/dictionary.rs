//! Lindera tokenizer dictionaries: where each version is stored, its download address, which
//! names may be downloaded, and the ordering and clean-up of what is installed.

use vstd::prelude::*;
use crate::indexes::{other_versions, sort_strings, stale_view};
use crate::order::{is_stable_order, keys_view, stable_order};
use crate::text::{has_prefix, join_strings, join_with, owned, push_str, views};
use crate::tokenizer::{is_dictionary, is_dictionary_name, DICTIONARY_NAMES, IPADIC, JIEBA, KO_DIC};
use crate::util::{is_valid_path_segment, join_path, joined, validate_path_segment, PathSegmentError};

verus! {

/// Largest dictionary archive accepted from a download.
pub const MAX_REMOTE_ZIP_BYTES: usize = 52428800;

/// Returns the version of the underlying `lindera` library: `lindera::get_version`, which
/// returns the crate's package version (`6.2.0` for the version built against).
#[verifier::external_body]
pub fn current_version() -> (r: &'static str)
    ensures
        r@ == "6.2.0"@,
{
    lindera::get_version()
}

/// The Lindera release that dictionary archives must match, as an owned string.
pub fn lindera_version() -> (r: String)
    ensures
        r@ == "6.2.0"@,
{
    owned(current_version())
}

/// `{data_dir}/packtrans-glossary/dictionaries`.
pub open spec fn dictionaries_root_path(data_dir: Seq<char>) -> Seq<char> {
    joined(joined(data_dir, "packtrans-glossary"@), "dictionaries"@)
}

/// Returns the root directory where dictionaries are stored, under the platform data
/// directory `data_dir`.
pub fn dictionaries_root(data_dir: &str) -> (r: String)
    ensures
        r@ == dictionaries_root_path(data_dir@),
{
    let app = join_path(data_dir, "packtrans-glossary");
    join_path(app.as_str(), "dictionaries")
}

/// The dictionary root: `base` when given, else the default under the data directory (if
/// there is one).
pub fn dictionaries_root_or(base: Option<&str>, data_dir: Option<&str>) -> (r: Option<String>)
    ensures
        match base {
            Some(b) => r matches Some(p) && p@ == b@,
            None => match data_dir {
                Some(d) => r matches Some(p) && p@ == dictionaries_root_path(d@),
                None => r is None,
            },
        },
{
    match base {
        Some(b) => Some(owned(b)),
        None => match data_dir {
            Some(d) => Some(dictionaries_root(d)),
            None => None,
        },
    }
}

/// What [`dictionary_path_for`] decides.
pub open spec fn dictionary_dir(root: Seq<char>, version: Seq<char>, name: Seq<char>) -> Seq<char> {
    joined(joined(root, version), name)
}

/// `{root}/{version}/{name}`, after checking that the name and the version are single path
/// segments (the name first).
pub fn dictionary_path_for(name: &str, version: &str, root: &str) -> (r: Result<String, PathSegmentError>)
    ensures
        r is Ok <==> is_valid_path_segment(name@) && is_valid_path_segment(version@),
        r matches Ok(p) ==> p@ == dictionary_dir(root@, version@, name@),
        !is_valid_path_segment(name@) ==> (r matches Err(e) && e.spec_message()
            == crate::util::segment_error_message("dictionary name"@, name@)),
        is_valid_path_segment(name@) && !is_valid_path_segment(version@) ==> (r matches Err(e)
            && e.spec_message() == crate::util::segment_error_message("dictionary version"@, version@)),
{
    validate_path_segment(name, "dictionary name")?;
    validate_path_segment(version, "dictionary version")?;
    let v = join_path(root, version);
    Ok(join_path(v.as_str(), name))
}

/// Returns the expected dictionary directory for a dictionary name under the current
/// `lindera` version: `{root}/{version}/{name}`.
pub fn dictionary_path(name: &str, root: &str) -> (r: Result<String, PathSegmentError>)
    ensures
        r is Ok <==> is_valid_path_segment(name@),
        r matches Ok(p) ==> p@ == dictionary_dir(root@, "6.2.0"@, name@),
{
    let version = current_version();
    proof {
        assert(is_valid_path_segment("6.2.0"@)) by {
            reveal_strlit("6.2.0");
            assert(crate::util::first_part_end("6.2.0"@, 0) == 5) by {
                reveal_with_fuel(crate::util::first_part_end, 6);
            }
            assert("6.2.0"@.take(5) =~= "6.2.0"@);
            assert("6.2.0"@ != seq!['.']);
            assert("6.2.0"@ != seq!['.', '.']);
        }
    }
    dictionary_path_for(name, version, root)
}

/// `{root}/{version}/{name}` of an installed dictionary to delete, after checking both are
/// single path segments.
pub fn installed_dictionary_dir(name: &str, version: &str, root: &str) -> (r: Result<String, PathSegmentError>)
    ensures
        r is Ok <==> is_valid_path_segment(name@) && is_valid_path_segment(version@),
        r matches Ok(p) ==> p@ == dictionary_dir(root@, version@, name@),
{
    dictionary_path_for(name, version, root)
}

/// The download address of dictionary `name` at `version`.
pub open spec fn dictionary_url(name: Seq<char>, version: Seq<char>) -> Seq<char> {
    "https://github.com/lindera/lindera/releases/download/v"@ + version + "/"@ + name + "-"@ + version
        + ".zip"@
}

/// The download address of dictionary `name` for the current `lindera` version.
pub fn dictionary_download_url(name: &str) -> (r: String)
    ensures
        r@ == dictionary_url(name@, "6.2.0"@),
{
    let version = current_version();
    let mut r = owned("https://github.com/lindera/lindera/releases/download/v");
    push_str(&mut r, version);
    push_str(&mut r, "/");
    push_str(&mut r, name);
    push_str(&mut r, "-");
    push_str(&mut r, version);
    push_str(&mut r, ".zip");
    r
}

/// The directory a dictionary archive extracts to: `{name}-{version}`.
pub fn extracted_dictionary_dir_name(name: &str) -> (r: String)
    ensures
        r@ == name@ + "-"@ + "6.2.0"@,
{
    let mut r = owned(name);
    push_str(&mut r, "-");
    push_str(&mut r, current_version());
    r
}

/// `true` when a downloaded archive of `len` bytes is too large to accept.
pub fn download_too_large(len: usize) -> (r: bool)
    ensures
        r == (len > MAX_REMOTE_ZIP_BYTES),
{
    len > MAX_REMOTE_ZIP_BYTES
}

/// A dictionary name that is not one of [`DICTIONARY_NAMES`].
#[derive(Debug)]
pub enum DictionaryNameError {
    /// Refused by `dict download`.
    UnknownDictionary(String),
    /// Refused when loading a tokenizer.
    UnknownTokenizer(String),
}

impl DictionaryNameError {
    pub open spec fn spec_message(&self) -> Seq<char> {
        match self {
            DictionaryNameError::UnknownDictionary(n) => "unknown dictionary '"@ + n@ + "'. Available: "@
                + IPADIC@ + ", "@ + KO_DIC@ + ", "@ + JIEBA@,
            DictionaryNameError::UnknownTokenizer(n) => "unknown tokenizer: "@ + n@,
        }
    }

    /// The error text.
    pub fn message(&self) -> (r: String)
        ensures
            r@ == self.spec_message(),
    {
        match self {
            DictionaryNameError::UnknownDictionary(n) => {
                let mut r = owned("unknown dictionary '");
                push_str(&mut r, n.as_str());
                push_str(&mut r, "'. Available: ");
                push_str(&mut r, IPADIC);
                push_str(&mut r, ", ");
                push_str(&mut r, KO_DIC);
                push_str(&mut r, ", ");
                push_str(&mut r, JIEBA);
                r
            },
            DictionaryNameError::UnknownTokenizer(n) => {
                let mut r = owned("unknown tokenizer: ");
                push_str(&mut r, n.as_str());
                r
            },
        }
    }
}

/// The dictionaries `dict download` fetches: the one named (if it is known), else all.
pub fn dictionaries_to_download(name: Option<&str>) -> (r: Result<Vec<String>, DictionaryNameError>)
    ensures
        match name {
            Some(n) => if is_dictionary(n@) {
                r matches Ok(v) && views(v@) == seq![n@]
            } else {
                r matches Err(DictionaryNameError::UnknownDictionary(m)) && m@ == n@
            },
            None => r matches Ok(v) && views(v@) == seq![IPADIC@, KO_DIC@, JIEBA@],
        },
{
    match name {
        Some(n) => {
            if !is_dictionary_name(n) {
                return Err(DictionaryNameError::UnknownDictionary(owned(n)));
            }
            let mut v: Vec<String> = Vec::new();
            v.push(owned(n));
            assert(views(v@) =~= seq![n@]);
            Ok(v)
        },
        None => {
            let mut v: Vec<String> = Vec::new();
            v.push(owned(IPADIC));
            v.push(owned(KO_DIC));
            v.push(owned(JIEBA));
            assert(views(v@) =~= seq![IPADIC@, KO_DIC@, JIEBA@]);
            Ok(v)
        },
    }
}

/// Refuses a tokenizer name that is not a known dictionary.
pub fn check_tokenizer_name(name: &str) -> (r: Result<(), DictionaryNameError>)
    ensures
        r is Ok <==> is_dictionary(name@),
        r matches Err(DictionaryNameError::UnknownTokenizer(m)) ==> m@ == name@,
        r matches Err(e) ==> e is UnknownTokenizer,
{
    if is_dictionary_name(name) {
        Ok(())
    } else {
        Err(DictionaryNameError::UnknownTokenizer(owned(name)))
    }
}

/// An installed dictionary.
#[derive(Debug)]
pub struct DictEntry {
    /// Name of the dictionary (e.g. `lindera-ipadic`).
    pub name: String,
    /// Version of the dictionary.
    pub version: String,
    /// Path to the dictionary directory.
    pub path: String,
}

impl DictEntry {
    pub open spec fn view_triple(&self) -> (Seq<char>, Seq<char>, Seq<char>) {
        (self.name@, self.version@, self.path@)
    }
}

/// Views of a list of dictionary entries.
pub open spec fn dict_entries_view(v: Seq<DictEntry>) -> Seq<(Seq<char>, Seq<char>, Seq<char>)> {
    v.map_values(|e: DictEntry| e.view_triple())
}

/// Sorts installed dictionaries by version, then name (stable).
pub fn sort_dict_entries(entries: &[DictEntry]) -> (r: Vec<DictEntry>)
    ensures
        crate::indexes::sorted_by_version_then_lang(dict_entries_view(entries@), dict_entries_view(r@)),
{
    let ghost ev = dict_entries_view(entries@);
    let mut keys: Vec<(String, String)> = Vec::new();
    let mut i: usize = 0;
    while i < entries.len()
        invariant
            i <= entries@.len(),
            ev == dict_entries_view(entries@),
            keys_view(keys@) == ev.take(i as int).map_values(|e: (Seq<char>, Seq<char>, Seq<char>)| crate::indexes::entry_key(e)),
        decreases entries@.len() - i,
    {
        let ghost before = keys_view(keys@);
        keys.push((entries[i].version.clone(), entries[i].name.clone()));
        proof {
            assert(keys_view(keys@) =~= before.push(crate::indexes::entry_key(ev[i as int])));
            assert(ev.take(i + 1).map_values(|e: (Seq<char>, Seq<char>, Seq<char>)| crate::indexes::entry_key(e)) =~= ev.take(i as int).map_values(|e: (Seq<char>, Seq<char>, Seq<char>)| crate::indexes::entry_key(e)).push(crate::indexes::entry_key(ev[i as int])));
        }
        i += 1;
    }
    assert(ev.take(entries@.len() as int) =~= ev);
    let p = stable_order(keys.as_slice());
    let mut out: Vec<DictEntry> = Vec::new();
    let mut j: usize = 0;
    while j < p.len()
        invariant
            j <= p@.len(),
            ev == dict_entries_view(entries@),
            p@.len() == entries@.len(),
            forall|a: int| 0 <= a < p@.len() ==> (#[trigger] p@[a]) < entries@.len(),
            out@.len() == j,
            forall|a: int| 0 <= a < j ==> #[trigger] dict_entries_view(out@)[a] == ev[p@[a] as int],
        decreases p@.len() - j,
    {
        let e = &entries[p[j]];
        let ghost before = dict_entries_view(out@);
        out.push(DictEntry { name: e.name.clone(), version: e.version.clone(), path: e.path.clone() });
        proof {
            assert(dict_entries_view(out@) =~= before.push(ev[p@[j as int] as int]));
        }
        j += 1;
    }
    proof {
        let k = ev.map_values(|e: (Seq<char>, Seq<char>, Seq<char>)| crate::indexes::entry_key(e));
        assert(k == keys_view(keys@));
        assert(crate::indexes::sorted_by_version_then_lang(ev, dict_entries_view(out@)));
    }
    out
}

/// The version directories to remove when cleaning: all but the current `lindera` version,
/// in the order found.
pub fn old_versions(found: &[String]) -> (r: Vec<String>)
    ensures
        views(r@) == stale_view(views(found@), "6.2.0"@),
{
    other_versions(found, current_version())
}


/// The dictionaries are `lindera-ipadic`, `lindera-ko-dic` and `lindera-jieba` and no others;
/// dictionary `name` at `version` is stored at `{root}/{version}/{name}` (with the root
/// `{data}/packtrans-glossary/dictionaries` by default) and downloaded from
/// `https://github.com/lindera/lindera/releases/download/v{version}/{name}-{version}.zip`.
pub proof fn lemma_dictionary_names(name: Seq<char>, version: Seq<char>, root: Seq<char>, data_dir: Seq<char>)
    ensures
        is_dictionary(name) <==> (name == "lindera-ipadic"@ || name == "lindera-ko-dic"@ || name == "lindera-jieba"@),
        IPADIC@ == "lindera-ipadic"@ && KO_DIC@ == "lindera-ko-dic"@ && JIEBA@ == "lindera-jieba"@,
        dictionary_dir(root, version, name) == joined(joined(root, version), name),
        dictionaries_root_path(data_dir) == joined(joined(data_dir, "packtrans-glossary"@), "dictionaries"@),
        dictionary_url(name, version) == "https://github.com/lindera/lindera/releases/download/v"@ + version + "/"@
            + name + "-"@ + version + ".zip"@,
{
}

} // verus!
