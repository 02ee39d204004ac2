use packtrans_glossary::indexes::{
    available_languages, downloaded_index_dir, fallback_to_installed, index_metadata, install_paths,
    installed_indexes, latest_installed_for_lang, release_body_too_large, release_from_json, select_asset,
    sort_index_entries, stale_versions, version_to_delete, IndexDeleteCommand, IndexDeleteError, IndexEntry,
    Release, ReleaseAsset, ReleaseParseError, ReleaseStage, ResolvePlan, last_release_check,
    release_check_meta, resolution_plan,
};
use packtrans_glossary::json::JsonValue;

fn s(text: &str) -> JsonValue {
    JsonValue::String(text.to_string())
}

fn obj(members: Vec<(&str, JsonValue)>) -> JsonValue {
    JsonValue::Object(members.into_iter().map(|(k, v)| (k.to_string(), v)).collect())
}

fn entry(lang: &str, version: &str) -> IndexEntry {
    IndexEntry { lang: lang.to_string(), version: version.to_string(), path: format!("{version}/{lang}") }
}

fn asset(name: &str) -> ReleaseAsset {
    ReleaseAsset { name: name.to_string(), browser_download_url: format!("https://example.test/{name}") }
}

#[test]
fn reads_latest_release_description() {
    let value = obj(vec![
        ("tag_name", s("index-20260526")),
        (
            "assets",
            JsonValue::Array(vec![
                obj(vec![("name", s("a.zip")), ("browser_download_url", s("https://x/a.zip"))]),
                obj(vec![("name", s("no-url.zip"))]),
            ]),
        ),
    ]);
    let release = release_from_json(&value).unwrap();
    assert_eq!(release.tag_name, "index-20260526");
    assert_eq!(release.assets.len(), 1);
    assert_eq!(release.assets[0].browser_download_url, "https://x/a.zip");
}

#[test]
fn release_description_errors() {
    assert!(matches!(release_from_json(&obj(vec![])).unwrap_err(), ReleaseParseError::MissingTagName));
    let bad = obj(vec![("tag_name", s("../x")), ("assets", JsonValue::Array(vec![]))]);
    assert_eq!(
        release_from_json(&bad).unwrap_err().message(),
        "release tag contains invalid path component: ../x"
    );
    let no_assets = obj(vec![("tag_name", s("t"))]);
    assert_eq!(
        release_from_json(&no_assets).unwrap_err().message(),
        "latest glossary index release did not include assets"
    );
    assert!(release_body_too_large(2 * 1024 * 1024 + 1));
    assert!(!release_body_too_large(2 * 1024 * 1024));
}

#[test]
fn lists_available_languages_sorted_and_once() {
    let release = Release {
        tag_name: "t".to_string(),
        assets: vec![
            asset("packtrans-glossary-index-zh_cn-20260526.zip"),
            asset("packtrans-glossary-index-ja_jp-20260526.zip"),
            asset("packtrans-glossary-index-zh_cn-20260527.zip"),
            asset("other.zip"),
        ],
    };
    assert_eq!(available_languages(&release), vec!["ja_jp", "zh_cn"]);
    let err = select_asset(&release, "ko_kr").unwrap_err();
    assert_eq!(
        err.message(),
        "release t has no index asset for ko_kr. Available languages: ja_jp, zh_cn"
    );
    let empty = Release { tag_name: "t".to_string(), assets: vec![] };
    assert_eq!(
        select_asset(&empty, "ko_kr").unwrap_err().message(),
        "release t has no index asset for ko_kr. Available languages: none"
    );
}

#[test]
fn lists_downloaded_indexes_by_version_and_language() {
    let found = vec![entry("zh_cn", "index-20260526"), entry(".zh_cn.tmp-1", "index-20260526"), entry("ja_jp", "index-20260525")];
    let installed = installed_indexes(&found);
    assert_eq!(
        installed.iter().map(|e| (e.version.as_str(), e.lang.as_str())).collect::<Vec<_>>(),
        vec![("index-20260525", "ja_jp"), ("index-20260526", "zh_cn")]
    );
    let sorted = sort_index_entries(&[entry("b", "2"), entry("a", "2"), entry("z", "1")]);
    assert_eq!(
        sorted.iter().map(|e| (e.version.as_str(), e.lang.as_str())).collect::<Vec<_>>(),
        vec![("1", "z"), ("2", "a"), ("2", "b")]
    );
}

#[test]
fn cleans_versions_except_keep_version() {
    let found = vec!["index-20260526".to_string(), "index-20260525".to_string()];
    assert_eq!(stale_versions(&found, "index-20260526").unwrap(), vec!["index-20260525"]);
    assert!(stale_versions(&found, "..").is_err());
}

#[test]
fn latest_installed_is_the_last_for_the_language() {
    let entries = vec![entry("zh_cn", "1"), entry("ja_jp", "2"), entry("zh_cn", "3")];
    assert_eq!(latest_installed_for_lang(&entries, "zh_cn").unwrap(), Some(2));
    assert_eq!(latest_installed_for_lang(&entries, "ko_kr").unwrap(), None);
    assert!(latest_installed_for_lang(&entries, "a/b").is_err());
}

#[test]
fn delete_version_defaults_to_latest_installed() {
    let entries = vec![entry("zh_cn", "1"), entry("zh_cn", "3")];
    let cmd = IndexDeleteCommand { lang: "zh_cn".to_string(), version: None };
    assert_eq!(version_to_delete(&cmd, &entries).unwrap(), "3");
    let cmd = IndexDeleteCommand { lang: "zh_cn".to_string(), version: Some("1".to_string()) };
    assert_eq!(version_to_delete(&cmd, &entries).unwrap(), "1");
    let cmd = IndexDeleteCommand { lang: "ja_jp".to_string(), version: None };
    let err = version_to_delete(&cmd, &entries).unwrap_err();
    assert!(matches!(err, IndexDeleteError::NotInstalled(_)));
    assert_eq!(err.message(), "no downloaded index installed for ja_jp");
    let cmd = IndexDeleteCommand { lang: "..".to_string(), version: None };
    assert!(matches!(version_to_delete(&cmd, &entries).unwrap_err(), IndexDeleteError::Lang(_)));
}

#[test]
fn falls_back_to_an_installed_index() {
    let entries = vec![entry("zh_cn", "index-1"), entry("zh_cn", "index-2")];
    let f = fallback_to_installed(&entries, "zh_cn", ReleaseStage::Check, "offline").unwrap();
    assert_eq!(f.index, 1);
    assert_eq!(
        f.warning,
        "warning: failed to check latest index release (offline); using installed zh_cn@index-2"
    );
    let err = fallback_to_installed(&entries, "ja_jp", ReleaseStage::Download, "404").unwrap_err();
    assert_eq!(err, "failed to download latest index release and no local index is installed");
}

#[test]
fn install_paths_for_a_release() {
    let p = install_paths("root", "index-1", "zh_cn", "packtrans-glossary-index-zh_cn-1.zip", 42);
    assert_eq!(p.version_dir, "root/.downloaded/index-1");
    assert_eq!(p.work_dir, "root/.tmp/index-1-zh_cn-42");
    assert_eq!(p.zip_path, "root/.tmp/index-1-zh_cn-42/packtrans-glossary-index-zh_cn-1.zip");
    assert_eq!(p.extract_dir, "root/.tmp/index-1-zh_cn-42/extract");
    assert_eq!(p.extracted_index_dir, "root/.tmp/index-1-zh_cn-42/extract/zh_cn");
    assert_eq!(p.temp_index_dir, "root/.downloaded/index-1/.zh_cn.tmp-42");
    assert_eq!(p.final_index_dir, "root/.downloaded/index-1/zh_cn");
    assert_eq!(downloaded_index_dir("root", "index-1", "zh_cn").unwrap(), "root/.downloaded/index-1/zh_cn");
}

#[test]
fn metadata_names_the_release_and_asset() {
    let a = asset("packtrans-glossary-index-zh_cn-1.zip");
    match index_metadata("index-1", &a) {
        JsonValue::Object(members) => {
            let pairs: Vec<(String, String)> = members
                .into_iter()
                .map(|(k, v)| match v {
                    JsonValue::String(t) => (k, t),
                    _ => panic!("not a string"),
                })
                .collect();
            assert_eq!(
                pairs,
                vec![
                    ("repository".to_string(), "packtrans/glossary-indexes".to_string()),
                    ("tag_name".to_string(), "index-1".to_string()),
                    ("asset_name".to_string(), "packtrans-glossary-index-zh_cn-1.zip".to_string()),
                    (
                        "browser_download_url".to_string(),
                        "https://example.test/packtrans-glossary-index-zh_cn-1.zip".to_string()
                    ),
                ]
            );
        }
        _ => panic!("not an object"),
    }
}

#[test]
fn release_checks_run_at_most_once_a_day() {
    let installed = vec![entry("zh_cn", "v1"), entry("ja_jp", "v1"), entry("zh_cn", "v2")];
    let day = 86400u64;
    assert!(matches!(resolution_plan(&installed, "zh_cn", None, 1000), ResolvePlan::CheckRelease));
    assert!(matches!(resolution_plan(&installed, "zh_cn", Some(1000), 1000 + day - 1), ResolvePlan::UseInstalled(2)));
    assert!(matches!(resolution_plan(&installed, "zh_cn", Some(1000), 1000 + day), ResolvePlan::CheckRelease));
    assert!(matches!(resolution_plan(&installed, "zh_cn", Some(1000), 999), ResolvePlan::CheckRelease));
    assert!(matches!(resolution_plan(&installed, "ko_kr", Some(1000), 1001), ResolvePlan::CheckRelease));
}

#[test]
fn release_check_time_is_written_and_read_back() {
    let meta = release_check_meta(1712345678);
    assert_eq!(last_release_check(&meta), Some(1712345678));
    match &meta {
        JsonValue::Object(entries) => {
            assert_eq!(entries.len(), 1);
            assert_eq!(entries[0].0, "last_release_check");
            assert!(matches!(&entries[0].1, JsonValue::Number(t) if t == "1712345678"));
        }
        other => panic!("unexpected meta {other:?}"),
    }
    let bad = JsonValue::Object(vec![("last_release_check".to_string(), s("soon"))]);
    assert_eq!(last_release_check(&bad), None);
    let negative = JsonValue::Object(vec![("last_release_check".to_string(), JsonValue::Number("-5".to_string()))]);
    assert_eq!(last_release_check(&negative), None);
    assert_eq!(last_release_check(&JsonValue::Null), None);
}
