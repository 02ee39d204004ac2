use packtrans_glossary::dictionary::{
    check_tokenizer_name, current_version, dictionaries_root, dictionaries_root_or, dictionary_download_url,
    dictionary_path, download_too_large, lindera_version, extracted_dictionary_dir_name, installed_dictionary_dir, old_versions,
    sort_dict_entries, DictEntry,
};
use packtrans_glossary::index::{index_meta_path, indexes_root, lang_index_dir, release_index_dir};
use packtrans_glossary::indexes::indexes_root_or;
use packtrans_glossary::query::{
    complete_hits, is_complete_hit, map_search_failure, orient_hit, orient_hits, search_error_is_invalid_params, search_field,
    validate_http_query, validate_in_memory_search, validate_search_request, ApiError, SearchFailureKind,
    StoredDoc, TextField,
};
use packtrans_glossary::util::{join_path, sanitize_path_part, validate_path_segment};

#[test]
fn sanitize_keeps_safe_characters_and_trims() {
    assert_eq!(sanitize_path_part("Farmer's Delight"), "Farmer-s-Delight");
    assert_eq!(sanitize_path_part("..hidden.."), "hidden");
    assert_eq!(sanitize_path_part("///"), "unknown");
    assert_eq!(sanitize_path_part(""), "unknown");
    assert_eq!(sanitize_path_part("v1.2_beta"), "v1.2_beta");
    let once = sanitize_path_part("__a b__");
    assert_eq!(sanitize_path_part(&once), once);
    assert!(validate_path_segment(&sanitize_path_part("../../etc"), "x").is_ok());
}

#[test]
fn path_segment_errors_name_the_kind() {
    assert_eq!(validate_path_segment("", "lang").unwrap_err().message(), "lang must not be empty");
    assert_eq!(
        validate_path_segment("a/b", "lang").unwrap_err().message(),
        "lang contains invalid path component: a/b"
    );
    assert!(validate_path_segment("a\\b", "lang").is_err());
    assert!(validate_path_segment("zh_cn/", "lang").is_ok());
    assert!(validate_path_segment("zh_cn/.", "lang").is_ok());
    assert!(validate_path_segment("/zh_cn", "lang").is_err());
}

#[test]
fn paths_are_joined_with_one_separator() {
    assert_eq!(join_path("a", "b"), "a/b");
    assert_eq!(join_path("a/", "b"), "a/b");
    assert_eq!(join_path("", "b"), "b");
}

#[test]
fn index_locations() {
    assert_eq!(indexes_root("/data"), "/data/packtrans-glossary/indexes");
    assert_eq!(index_meta_path("/data/i"), "/data/i/meta.json");
    assert_eq!(lang_index_dir("idx", "zh_cn").unwrap(), "idx/zh_cn");
    assert!(lang_index_dir("idx", "../etc").is_err());
    assert_eq!(release_index_dir("root", "v1", "zh_cn").unwrap(), "root/v1/zh_cn");
    assert_eq!(release_index_dir("root", "..", "zh_cn").unwrap_err().message(), "release tag contains invalid path component: ..");
    assert_eq!(indexes_root_or(Some("base"), Some("/data")).as_deref(), Some("base"));
    assert_eq!(indexes_root_or(None, Some("/data")).as_deref(), Some("/data/packtrans-glossary/indexes"));
    assert_eq!(indexes_root_or(None, None), None);
}

#[test]
fn dictionary_locations() {
    assert_eq!(current_version(), "6.2.0");
    assert_eq!(dictionaries_root("/data"), "/data/packtrans-glossary/dictionaries");
    assert_eq!(dictionaries_root_or(None, Some("/d")).as_deref(), Some("/d/packtrans-glossary/dictionaries"));
    assert_eq!(dictionary_path("lindera-ipadic", "dicts").unwrap(), "dicts/6.2.0/lindera-ipadic");
    assert_eq!(
        dictionary_path("..", "dicts").unwrap_err().message(),
        "dictionary name contains invalid path component: .."
    );
    assert_eq!(installed_dictionary_dir("lindera-jieba", "1.0", "d").unwrap(), "d/1.0/lindera-jieba");
    assert_eq!(
        dictionary_download_url("lindera-ko-dic"),
        "https://github.com/lindera/lindera/releases/download/v6.2.0/lindera-ko-dic-6.2.0.zip"
    );
    assert_eq!(extracted_dictionary_dir_name("lindera-ko-dic"), "lindera-ko-dic-6.2.0");
    assert!(download_too_large(50 * 1024 * 1024 + 1));
    assert!(!download_too_large(50 * 1024 * 1024));
    assert_eq!(check_tokenizer_name("bogus").unwrap_err().message(), "unknown tokenizer: bogus");
    assert!(check_tokenizer_name("lindera-jieba").is_ok());
    assert_eq!(old_versions(&["6.1.0".to_string(), "6.2.0".to_string()]), vec!["6.1.0"]);
}

#[test]
fn installed_dictionaries_sort_by_version_then_name() {
    let e = |n: &str, v: &str| DictEntry { name: n.to_string(), version: v.to_string(), path: format!("{v}/{n}") };
    let sorted = sort_dict_entries(&[e("b", "2"), e("a", "2"), e("c", "1")]);
    let names: Vec<&str> = sorted.iter().map(|x| x.name.as_str()).collect();
    assert_eq!(names, vec!["c", "a", "b"]);
}

fn doc() -> StoredDoc {
    StoredDoc {
        mod_id: "m".to_string(),
        key: "k".to_string(),
        source_lang: "en_us".to_string(),
        source_text: "Cooking Pot".to_string(),
        target_lang: "fr_fr".to_string(),
        target_text: "Marmite".to_string(),
    }
}

#[test]
fn inverse_hits_swap_source_and_target() {
    let forward = orient_hit(doc(), false);
    assert_eq!(forward.source, "Cooking Pot");
    assert_eq!(forward.target_lang, "fr_fr");
    let inverse = orient_hit(doc(), true);
    assert_eq!(inverse.source, "Marmite");
    assert_eq!(inverse.source_lang, "fr_fr");
    assert_eq!(inverse.target, "Cooking Pot");
    assert_eq!(inverse.target_lang, "en_us");
    assert!(is_complete_hit(&inverse));
    assert_eq!(search_field(true), TextField::TargetText);
    assert_eq!(search_field(false), TextField::SourceText);
}

#[test]
fn incomplete_hits_are_recognised() {
    let mut d = doc();
    d.key = String::new();
    assert!(!is_complete_hit(&orient_hit(d, false)));
}

#[test]
fn http_query_checks() {
    assert_eq!(validate_http_query("zh_cn", "", None).unwrap_err().message(), "missing search text (`q` or `query`)");
    assert_eq!(validate_http_query("", "pot", None).unwrap_err().message(), "missing `lang`");
    assert_eq!(validate_http_query("zh_cn", "pot", Some(51)).unwrap_err().message(), "limit must be at most 50");
    assert_eq!(validate_http_query("zh_cn", "pot", Some(0)).unwrap_err().message(), "limit must be at least 1");
    assert_eq!(validate_http_query("zh_cn", "pot", None).unwrap(), 10);
    assert!(validate_search_request("../x", "pot", false, false).is_err());
    assert!(validate_search_request("ja_jp", "pot", true, true).is_err());
    assert!(validate_search_request("ja_jp", "pot", true, false).is_ok());
}

#[test]
fn in_memory_search_checks() {
    assert_eq!(validate_in_memory_search(" \t", 10).unwrap_err().message(), "query must not be empty");
    assert_eq!(validate_in_memory_search("pot", 0).unwrap_err().message(), "limit must be at least 1");
    assert!(validate_in_memory_search(" pot ", 1).is_ok());
}

#[test]
fn api_errors_map_to_status_codes() {
    assert_eq!(ApiError::bad_request("bad".to_string()).status_and_message(), (400, "bad".to_string()));
    assert_eq!(ApiError::Internal.status_and_message(), (500, "internal server error".to_string()));
}

#[test]
fn search_error_classifies_input_vs_internal() {
    assert!(search_error_is_invalid_params("lang contains invalid path component: ../etc"));
    assert!(search_error_is_invalid_params("failed to parse regex query: cook["));
    assert!(search_error_is_invalid_params("QueryParserError: SyntaxError at position 0"));
    assert!(!search_error_is_invalid_params("index directory does not exist: indexes/zh_cn"));
}

#[test]
fn other_failures_keep_their_text() {
    let (kind, text) = map_search_failure("lang must not be empty");
    assert_eq!(kind, SearchFailureKind::InvalidInput);
    assert_eq!(text, "lang must not be empty");
    let (kind, text) = map_search_failure("index directory does not exist: x");
    assert_eq!(kind, SearchFailureKind::MissingIndex);
    assert_eq!(
        text,
        "index directory does not exist: x. Install an index with: packtrans-glossary index download --lang <lang>"
    );
}

#[test]
fn current_version_matches_dependency() {
    assert_eq!(current_version(), lindera::get_version());
    assert!(!current_version().is_empty());
}

#[test]
fn exports_lindera_version_matching_dependency() {
    assert_eq!(lindera_version(), lindera::get_version());
    assert!(!lindera_version().is_empty());
}

#[test]
fn hits_keep_search_order_up_to_the_limit() {
    let mut second = doc();
    second.key = "block.farmersdelight.skillet".to_string();
    second.source_text = "Skillet".to_string();
    second.target_text = "Poêle".to_string();
    let docs = vec![doc(), second];
    let hits = orient_hits(&docs, true, 10);
    assert_eq!(hits.len(), 2);
    assert_eq!(hits[0].source, "Marmite");
    assert_eq!(hits[1].source, "Poêle");
    assert_eq!(hits[1].target, "Skillet");
    assert_eq!(hits[1].source_lang, "fr_fr");
    let first = orient_hits(&docs, false, 1);
    assert_eq!(first.len(), 1);
    assert_eq!(first[0].source, "Cooking Pot");
    assert!(orient_hits(&docs, false, 0).is_empty());
}

#[test]
fn in_memory_hits_skip_documents_with_an_empty_column() {
    let mut empty_key = doc();
    empty_key.key = String::new();
    let mut other = doc();
    other.source_text = "Skillet".to_string();
    let docs = vec![doc(), empty_key, other];
    let hits = complete_hits(&docs, true, 10);
    assert_eq!(hits.len(), 2);
    assert_eq!(hits[0].0, 0);
    assert_eq!(hits[0].1.source, "Marmite");
    assert_eq!(hits[1].0, 2);
    assert_eq!(hits[1].1.target, "Skillet");
    let first_two = complete_hits(&docs, false, 2);
    assert_eq!(first_two.len(), 1);
    assert_eq!(first_two[0].1.source, "Cooking Pot");
}
