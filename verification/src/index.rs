//! Where indexes live: the data-directory root, an index root's metadata file, and the
//! per-language and per-release directories under a root.

use vstd::prelude::*;
use crate::util::{is_valid_path_segment, join_path, joined, validate_path_segment, PathSegmentError};

verus! {

/// Metadata file stored at the index root.
pub const INDEX_META_FILE: &'static str = "meta.json";

/// `{data_dir}/packtrans-glossary/indexes`.
pub open spec fn indexes_root_path(data_dir: Seq<char>) -> Seq<char> {
    joined(joined(data_dir, "packtrans-glossary"@), "indexes"@)
}

/// Returns the root directory where release-downloaded indexes are stored, under the
/// platform data directory `data_dir`.
pub fn indexes_root(data_dir: &str) -> (r: String)
    ensures
        r@ == indexes_root_path(data_dir@),
{
    let app = join_path(data_dir, "packtrans-glossary");
    join_path(app.as_str(), "indexes")
}

/// Returns `index-root/meta.json`.
pub fn index_meta_path(index_root: &str) -> (r: String)
    ensures
        r@ == joined(index_root@, INDEX_META_FILE@),
{
    join_path(index_root, INDEX_META_FILE)
}

/// Returns `base/{lang}` for a local index root passed to `--out` or `--index-dir`.
pub fn lang_index_dir(base: &str, lang: &str) -> (r: Result<String, PathSegmentError>)
    ensures
        r is Ok <==> is_valid_path_segment(lang@),
        r matches Ok(p) ==> p@ == joined(base@, lang@),
        r matches Err(e) ==> e.spec_message() == crate::util::segment_error_message("lang"@, lang@),
{
    validate_path_segment(lang, "lang")?;
    Ok(join_path(base, lang))
}

/// Returns `index-root/{version}/{lang}`.
pub fn release_index_dir(index_root: &str, version: &str, lang: &str) -> (r: Result<String, PathSegmentError>)
    ensures
        r is Ok <==> is_valid_path_segment(version@) && is_valid_path_segment(lang@),
        r matches Ok(p) ==> p@ == joined(joined(index_root@, version@), lang@),
        !is_valid_path_segment(version@) ==> (r matches Err(e) && e.spec_message()
            == crate::util::segment_error_message("release tag"@, version@)),
        is_valid_path_segment(version@) && !is_valid_path_segment(lang@) ==> (r matches Err(e)
            && e.spec_message() == crate::util::segment_error_message("lang"@, lang@)),
{
    validate_path_segment(version, "release tag")?;
    validate_path_segment(lang, "lang")?;
    let v = join_path(index_root, version);
    Ok(join_path(v.as_str(), lang))
}


/// Release indexes live under `{data}/packtrans-glossary/indexes`, with `meta.json` at that
/// root; a local index root holds the index of `lang` at `{root}/{lang}`.
pub proof fn lemma_index_locations(data_dir: Seq<char>)
    ensures
        indexes_root_path(data_dir) == joined(joined(data_dir, "packtrans-glossary"@), "indexes"@),
        INDEX_META_FILE@ == "meta.json"@,
{
}

} // verus!
