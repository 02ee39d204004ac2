use packtrans_glossary::query::{
    classify_search_failure, map_search_failure, validate_glossary_query, validate_http_limit,
    validate_query_limit, validate_regex_query, SearchFailureKind, MAX_REGEX_QUERY_LEN,
};
use packtrans_glossary::tokenizer::INVERSE_REGEX_CJK_ERROR;

#[test]
fn mod_query_limit_defaults_and_caps() {
    assert_eq!(validate_query_limit(None).unwrap(), 10);
    assert_eq!(validate_query_limit(Some(1)).unwrap(), 1);
    assert_eq!(validate_query_limit(Some(50)).unwrap(), 50);
    assert!(validate_query_limit(Some(0)).is_err());
    assert!(validate_query_limit(Some(51)).is_err());
}

#[test]
fn query_limit_query_limit_defaults_and_caps() {
    assert_eq!(validate_query_limit(None).unwrap(), 10);
    assert_eq!(validate_query_limit(Some(1)).unwrap(), 1);
    assert_eq!(validate_query_limit(Some(50)).unwrap(), 50);
    assert!(validate_query_limit(Some(0)).is_err());
    assert!(validate_query_limit(Some(51)).is_err());
}

#[test]
fn http_limit_defaults_and_caps() {
    assert_eq!(validate_http_limit(None).unwrap(), 10);
    assert_eq!(validate_http_limit(Some(1)).unwrap(), 1);
    assert_eq!(validate_http_limit(Some(50)).unwrap(), 50);
    assert!(validate_http_limit(Some(0)).is_err());
    assert!(validate_http_limit(Some(51)).is_err());
}

#[test]
fn classify_search_failure_kinds() {
    assert_eq!(
        classify_search_failure("index directory does not exist: indexes/zh_cn"),
        SearchFailureKind::MissingIndex
    );
    assert_eq!(
        classify_search_failure("lang contains invalid path component: ../etc"),
        SearchFailureKind::InvalidInput
    );
    assert_eq!(
        classify_search_failure("failed to parse regex query: cook["),
        SearchFailureKind::InvalidInput
    );
    assert_eq!(
        classify_search_failure("disk read failed"),
        SearchFailureKind::Internal
    );
}

#[test]
fn accepts_regex_query_at_max_length() {
    let query = "a".repeat(MAX_REGEX_QUERY_LEN);
    assert!(validate_regex_query("en_us", &query, false, true).is_ok());
}

#[test]
fn rejects_regex_query_exceeding_max_length() {
    let query = "a".repeat(MAX_REGEX_QUERY_LEN + 1);
    let error = validate_regex_query("en_us", &query, false, true)
        .unwrap_err()
        .message();
    assert!(error.contains("regex query is too long"));
    assert!(error.contains(&MAX_REGEX_QUERY_LEN.to_string()));
}

#[test]
fn length_cap_does_not_apply_to_plain_queries() {
    let query = "a".repeat(MAX_REGEX_QUERY_LEN + 100);
    assert!(validate_regex_query("en_us", &query, false, false).is_ok());
}

#[test]
fn map_search_failure_classifies_missing_index() {
    let (kind, text) = map_search_failure("index directory does not exist: indexes/zh_cn");
    assert_eq!(kind, SearchFailureKind::MissingIndex);
    assert!(text.contains("index directory does not exist"));
    assert!(text.contains("index download"));
}

#[test]
fn mod_glossary_query_rejects_invalid_input() {
    let err = validate_glossary_query("", "test", None, false, false).unwrap_err();
    assert!(err.message().contains("lang"));

    let err = validate_glossary_query("zh_cn", "", None, false, false).unwrap_err();
    assert!(err.message().contains("q"));

    let err = validate_glossary_query("zh_cn", "test", Some(0), false, false).unwrap_err();
    assert!(err.message().contains("limit"));

    let err = validate_glossary_query("../etc", "test", None, false, false).unwrap_err();
    assert!(err.message().contains("lang"));
}

#[test]
fn mcp_glossary_query_rejects_invalid_input() {
    let err = validate_glossary_query("", "test", None, false, false).unwrap_err();
    assert!(err.message().contains("lang"));

    let err = validate_glossary_query("zh_cn", "", None, false, false).unwrap_err();
    assert!(err.message().contains("q"));

    let err = validate_glossary_query("zh_cn", "test", Some(0), false, false).unwrap_err();
    assert!(err.message().contains("limit"));

    let err = validate_glossary_query("../etc", "test", None, false, false).unwrap_err();
    assert!(err.message().contains("lang"));
}

#[test]
fn glossary_query_rejects_inverse_regex_for_cjk() {
    let err = validate_glossary_query("zh_cn", "test", None, true, true).unwrap_err();
    assert!(err.message().contains("regex"));
}

#[test]
fn rejects_inverse_regex_queries_for_cjk_languages() {
    let error = validate_regex_query("zh_cn", ".*", true, true).unwrap_err();
    assert!(error.message().contains(INVERSE_REGEX_CJK_ERROR));
}
