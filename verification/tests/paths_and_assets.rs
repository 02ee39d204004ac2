use packtrans_glossary::indexes::{select_asset, Release, ReleaseAsset};
use packtrans_glossary::tokenizer::{target_tokenizer_name, IPADIC, JIEBA, KO_DIC};
use packtrans_glossary::util::validate_path_segment;

#[test]
fn maps_cjk_languages_to_dict_names() {
    assert_eq!(target_tokenizer_name("zh_cn"), JIEBA);
    assert_eq!(target_tokenizer_name("lzh"), JIEBA);
    assert_eq!(target_tokenizer_name("ja_jp"), IPADIC);
    assert_eq!(target_tokenizer_name("ko_kr"), KO_DIC);
    assert_eq!(target_tokenizer_name("en_us"), "default");
}

#[test]
fn validate_path_segment_rejects_dot_segments() {
    assert!(validate_path_segment(".", "name").is_err());
    assert!(validate_path_segment("..", "name").is_err());
    assert!(validate_path_segment("foo/bar", "name").is_err());
    assert!(validate_path_segment("zh_cn", "lang").is_ok());
}

#[test]
fn selects_matching_language_asset() {
    let release = Release {
        tag_name: "index-20260526".to_string(),
        assets: vec![
            ReleaseAsset {
                name: "packtrans-glossary-index-ja_jp-20260526.zip".to_string(),
                browser_download_url: "https://example.test/ja.zip".to_string(),
            },
            ReleaseAsset {
                name: "packtrans-glossary-index-zh_cn-20260526.zip".to_string(),
                browser_download_url: "https://example.test/zh.zip".to_string(),
            },
        ],
    };

    let asset = select_asset(&release, "zh_cn").unwrap();
    assert_eq!(asset.browser_download_url, "https://example.test/zh.zip");
}
