use packtrans_glossary::builder::IndexOptions;
use packtrans_glossary::cache::{dictionary_cache_key, SlotCache};
use packtrans_glossary::index_build::{
    check_build, language_file_names, mod_documents, IndexBuildError, IndexSummary, OutState,
};

#[test]
fn slot_cache_reuses_the_least_recently_used_slot() {
    let mut c = SlotCache::new(2);
    assert_eq!(c.lookup("a"), None);
    assert_eq!(c.insert("a".to_string()), (0, None));
    assert_eq!(c.insert("b".to_string()), (1, None));
    assert_eq!(c.lookup("a"), Some(0));
    assert_eq!(c.insert("c".to_string()), (1, Some(1)));
    assert_eq!(c.lookup("b"), None);
    assert_eq!(c.lookup("c"), Some(1));
    assert_eq!(c.lookup("a"), Some(0));
    assert_eq!(c.insert("d".to_string()), (1, Some(1)));
    assert_eq!(c.lookup("c"), None);
}

#[test]
fn default_lang_skips_cache() {
    assert_eq!(dictionary_cache_key("en_us", "dicts").unwrap(), None);
    assert_eq!(dictionary_cache_key("ja_jp", "dicts").unwrap().as_deref(), Some("dicts/6.2.0/lindera-ipadic"));
    assert_eq!(dictionary_cache_key("zh_tw", "dicts").unwrap().as_deref(), Some("dicts/6.2.0/lindera-jieba"));
}

fn options(lang: &str) -> IndexOptions {
    IndexOptions { scan_dir: "res".to_string(), lang: lang.to_string(), out: "out/zh_cn".to_string(), dict_path: None }
}

#[test]
fn build_checks_come_in_order() {
    assert!(matches!(check_build(&options(".."), false, OutState::NotDirectory), Err(IndexBuildError::Lang(_))));
    assert_eq!(
        check_build(&options("../zh_cn"), true, OutState::Absent).unwrap_err().message(),
        "lang contains invalid path component: ../zh_cn"
    );
    assert_eq!(check_build(&options(""), true, OutState::Absent).unwrap_err().message(), "lang must not be empty");
    assert_eq!(
        check_build(&options("zh_cn"), false, OutState::Absent).unwrap_err().message(),
        "scan dir does not exist or is not a directory: res"
    );
    assert_eq!(
        check_build(&options("zh_cn"), true, OutState::NotDirectory).unwrap_err().message(),
        "index db path already exists and is not a directory: out/zh_cn"
    );
    assert_eq!(
        check_build(&options("zh_cn"), true, OutState::NonEmptyDirectory).unwrap_err().message(),
        "index db already exists and is not empty: out/zh_cn"
    );
    assert!(check_build(&options("zh_cn"), true, OutState::EmptyDirectory).is_ok());
    assert!(check_build(&options("zh_cn"), true, OutState::Absent).is_ok());
}

#[test]
fn documents_pair_source_and_target() {
    let source = vec![("k1".to_string(), "Cooking Pot".to_string()), ("k2".to_string(), "Knife".to_string())];
    let target = vec![("k1".to_string(), "Marmite".to_string())];
    let docs = mod_documents("farmersdelight", "fr_fr", &source, &target);
    assert_eq!(docs.len(), 1);
    assert_eq!(docs[0].mod_id, "farmersdelight");
    assert_eq!(docs[0].key, "k1");
    assert_eq!(docs[0].source_lang, "en_us");
    assert_eq!(docs[0].source_text, "Cooking Pot");
    assert_eq!(docs[0].target_lang, "fr_fr");
    assert_eq!(docs[0].target_text, "Marmite");
    assert_eq!(language_file_names("fr_fr"), ("en_us.json".to_string(), "fr_fr.json".to_string()));
}

#[test]
fn summary_counts_mods_and_documents() {
    let mut s = IndexSummary::new();
    s.record_mod(false, 0);
    s.record_mod(true, 3);
    s.record_mod(true, 0);
    assert_eq!(s.summary_line(), "total mods: 3, lang files: 2, indexed 3 documents from 1 mods");
}
