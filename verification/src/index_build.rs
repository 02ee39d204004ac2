//! Building an index from language files: the checks before writing, the documents each mod
//! contributes, and the counts reported at the end. Reading files and writing the index are
//! left to the caller.

use vstd::prelude::*;
use crate::builder::IndexOptions;
use crate::text::{decimal, owned, push_str, push_usize};
use crate::text_component::{pairs_view, pairs_from, translation_pairs, triples_view};
use crate::util::{is_valid_path_segment, segment_error_message, validate_path_segment, PathSegmentError};

verus! {

/// The language every index translates from.
pub const SOURCE_LANG: &'static str = "en_us";

/// One searchable document: a key of a mod with its source and target texts.
#[derive(Debug)]
pub struct IndexDoc {
    pub mod_id: String,
    pub key: String,
    pub source_lang: String,
    pub source_text: String,
    pub target_lang: String,
    pub target_text: String,
}

impl IndexDoc {
    pub open spec fn doc_view(&self) -> (Seq<char>, Seq<char>, Seq<char>, Seq<char>, Seq<char>, Seq<char>) {
        (self.mod_id@, self.key@, self.source_lang@, self.source_text@, self.target_lang@, self.target_text@)
    }
}

/// The names of a mod's source and target language files.
pub fn language_file_names(lang: &str) -> (r: (String, String))
    ensures
        r.0@ == "en_us.json"@,
        r.1@ == lang@ + ".json"@,
{
    let mut target = owned(lang);
    push_str(&mut target, ".json");
    (owned("en_us.json"), target)
}

/// The documents of mod `mod_id` for target language `lang`: one per key of the source
/// entries that the target entries also translate, in source order.
pub fn mod_documents(mod_id: &str, lang: &str, source: &[(String, String)], target: &[(String, String)]) -> (r: Vec<IndexDoc>)
    ensures
        r@.len() == pairs_from(pairs_view(source@), pairs_view(target@), 0).len(),
        forall|i: int| 0 <= i < r@.len() ==> {
            let t = #[trigger] pairs_from(pairs_view(source@), pairs_view(target@), 0)[i];
            r@[i].doc_view() == (mod_id@, t.0, SOURCE_LANG@, t.1, lang@, t.2)
        },
{
    let pairs = translation_pairs(source, target);
    let ghost tv = triples_view(pairs@);
    let mut out: Vec<IndexDoc> = Vec::new();
    let mut i: usize = 0;
    while i < pairs.len()
        invariant
            i <= pairs@.len(),
            tv == triples_view(pairs@),
            tv == pairs_from(pairs_view(source@), pairs_view(target@), 0),
            out@.len() == i,
            forall|j: int| 0 <= j < i ==> (#[trigger] out@[j]).doc_view() == (mod_id@, tv[j].0, SOURCE_LANG@, tv[j].1, lang@, tv[j].2),
        decreases pairs@.len() - i,
    {
        let (k, s, t) = &pairs[i];
        out.push(
            IndexDoc {
                mod_id: owned(mod_id),
                key: k.clone(),
                source_lang: owned(SOURCE_LANG),
                source_text: s.clone(),
                target_lang: owned(lang),
                target_text: t.clone(),
            },
        );
        i += 1;
    }
    out
}

/// What is found at the index destination before building.
#[derive(Debug, Clone, Copy, PartialEq, Eq, Structural)]
pub enum OutState {
    /// Nothing there yet.
    Absent,
    /// Something that is not a directory.
    NotDirectory,
    /// An empty directory.
    EmptyDirectory,
    /// A directory with something in it.
    NonEmptyDirectory,
}

/// Why an index is not built.
#[derive(Debug)]
pub enum IndexBuildError {
    Lang(PathSegmentError),
    /// The scan directory is missing (holds its path).
    ScanDirMissing(String),
    /// The destination is not a directory (holds its path).
    NotADirectory(String),
    /// The destination already holds something (holds its path).
    NotEmpty(String),
}

impl IndexBuildError {
    pub open spec fn spec_message(&self) -> Seq<char> {
        match self {
            IndexBuildError::Lang(e) => e.spec_message(),
            IndexBuildError::ScanDirMissing(p) => "scan dir does not exist or is not a directory: "@ + p@,
            IndexBuildError::NotADirectory(p) => "index db path already exists and is not a directory: "@ + p@,
            IndexBuildError::NotEmpty(p) => "index db already exists and is not empty: "@ + p@,
        }
    }

    /// The error text.
    pub fn message(&self) -> (r: String)
        ensures
            r@ == self.spec_message(),
    {
        match self {
            IndexBuildError::Lang(e) => e.message(),
            IndexBuildError::ScanDirMissing(p) => {
                let mut r = owned("scan dir does not exist or is not a directory: ");
                push_str(&mut r, p.as_str());
                r
            },
            IndexBuildError::NotADirectory(p) => {
                let mut r = owned("index db path already exists and is not a directory: ");
                push_str(&mut r, p.as_str());
                r
            },
            IndexBuildError::NotEmpty(p) => {
                let mut r = owned("index db already exists and is not empty: ");
                push_str(&mut r, p.as_str());
                r
            },
        }
    }
}

/// The checks before an index is built, in order: the language is a single path segment, the
/// scan directory exists, and the destination is absent or an empty directory.
pub fn check_build(options: &IndexOptions, scan_dir_is_dir: bool, out: OutState) -> (r: Result<(), IndexBuildError>)
    ensures
        !is_valid_path_segment(options.lang@) ==> (r matches Err(IndexBuildError::Lang(e))
            && e.spec_message() == segment_error_message("lang"@, options.lang@)),
        is_valid_path_segment(options.lang@) && !scan_dir_is_dir ==> (r matches Err(IndexBuildError::ScanDirMissing(p))
            && p@ == options.scan_dir@),
        is_valid_path_segment(options.lang@) && scan_dir_is_dir ==> match out {
            OutState::NotDirectory => r matches Err(IndexBuildError::NotADirectory(p)) && p@ == options.out@,
            OutState::NonEmptyDirectory => r matches Err(IndexBuildError::NotEmpty(p)) && p@ == options.out@,
            _ => r is Ok,
        },
{
    match validate_path_segment(options.lang.as_str(), "lang") {
        Ok(()) => {},
        Err(e) => {
            return Err(IndexBuildError::Lang(e));
        },
    }
    if !scan_dir_is_dir {
        return Err(IndexBuildError::ScanDirMissing(options.scan_dir.clone()));
    }
    match out {
        OutState::NotDirectory => Err(IndexBuildError::NotADirectory(options.out.clone())),
        OutState::NonEmptyDirectory => Err(IndexBuildError::NotEmpty(options.out.clone())),
        _ => Ok(()),
    }
}

/// The counts reported after building an index.
#[derive(Debug)]
pub struct IndexSummary {
    /// Mod directories scanned.
    pub total_mods: usize,
    /// Mods with both language files.
    pub lang_file_mods: usize,
    /// Mods that contributed at least one document.
    pub indexed_mods: usize,
    /// Documents written.
    pub indexed_docs: usize,
}

impl IndexSummary {
    /// Nothing scanned yet.
    pub fn new() -> (r: IndexSummary)
        ensures
            r.total_mods == 0 && r.lang_file_mods == 0 && r.indexed_mods == 0 && r.indexed_docs == 0,
    {
        IndexSummary { total_mods: 0, lang_file_mods: 0, indexed_mods: 0, indexed_docs: 0 }
    }

    /// Counts one scanned mod directory: whether it has both language files, and how many
    /// documents it contributed.
    pub fn record_mod(&mut self, has_lang_files: bool, docs: usize)
        requires
            old(self).total_mods < usize::MAX,
            old(self).lang_file_mods < usize::MAX,
            old(self).indexed_mods < usize::MAX,
            old(self).indexed_docs + docs <= usize::MAX,
        ensures
            final(self).total_mods == old(self).total_mods + 1,
            final(self).lang_file_mods == old(self).lang_file_mods + if has_lang_files { 1int } else { 0int },
            final(self).indexed_mods == old(self).indexed_mods + if has_lang_files && docs > 0 { 1int } else { 0int },
            final(self).indexed_docs == old(self).indexed_docs + if has_lang_files { docs as int } else { 0int },
    {
        self.total_mods = self.total_mods + 1;
        if has_lang_files {
            self.lang_file_mods = self.lang_file_mods + 1;
            self.indexed_docs = self.indexed_docs + docs;
            if docs > 0 {
                self.indexed_mods = self.indexed_mods + 1;
            }
        }
    }

    /// The line printed at the end.
    pub fn summary_line(&self) -> (r: String)
        ensures
            r@ == "total mods: "@ + decimal(self.total_mods as nat) + ", lang files: "@ + decimal(
                self.lang_file_mods as nat,
            ) + ", indexed "@ + decimal(self.indexed_docs as nat) + " documents from "@ + decimal(
                self.indexed_mods as nat,
            ) + " mods"@,
    {
        let mut r = owned("total mods: ");
        push_usize(&mut r, self.total_mods);
        push_str(&mut r, ", lang files: ");
        push_usize(&mut r, self.lang_file_mods);
        push_str(&mut r, ", indexed ");
        push_usize(&mut r, self.indexed_docs);
        push_str(&mut r, " documents from ");
        push_usize(&mut r, self.indexed_mods);
        push_str(&mut r, " mods");
        r
    }
}

} // verus!
