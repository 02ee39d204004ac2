use packtrans_glossary::download::{
    asset_hashes_sliceable, asset_index_url, client_jar_url, curseforge_download_url, failures_message,
    lang_asset_tasks, latest_release_url, minecraft_paths, mod_download_paths, read_mod_list,
    select_modrinth_jar_url, version_id_chunks, versions_by_id, AssetTask, MinecraftError, ModEntry,
    ModListFileError,
};
use packtrans_glossary::json::JsonValue;

fn s(text: &str) -> JsonValue {
    JsonValue::String(text.to_string())
}

fn obj(members: Vec<(&str, JsonValue)>) -> JsonValue {
    JsonValue::Object(members.into_iter().map(|(k, v)| (k.to_string(), v)).collect())
}

fn entry(id: &str, slug: &str, version: &str) -> JsonValue {
    obj(vec![("id", s(id)), ("slug", s(slug)), ("version_id", s(version))])
}

#[test]
fn reads_mod_list_entries() {
    let list = JsonValue::Array(vec![entry("1", "jei", "100"), entry("2", "create", "200")]);
    let mods = read_mod_list(&list).unwrap();
    assert_eq!(mods.len(), 2);
    assert_eq!(mods[1].id, "2");
    assert_eq!(mods[1].slug, "create");
    assert_eq!(mods[1].version_id, "200");
}

#[test]
fn mod_list_errors_name_the_item_and_field() {
    assert_eq!(read_mod_list(&obj(vec![])).unwrap_err().message(), "mod list must be a JSON array");
    let list = JsonValue::Array(vec![
        entry("1", "jei", "100"),
        obj(vec![("id", s("2")), ("version_id", s("3"))]),
    ]);
    let err = read_mod_list(&list).unwrap_err();
    assert!(matches!(err, ModListFileError::MissingField { index: 1, .. }));
    assert_eq!(err.message(), "mod list item 1 is missing string field slug");
}

#[test]
fn curseforge_download_address() {
    let e = ModEntry { id: "238222".to_string(), slug: "jei".to_string(), version_id: "5101366".to_string() };
    assert_eq!(
        curseforge_download_url(&e),
        "https://www.curseforge.com/api/v1/mods/238222/files/5101366/download"
    );
}

#[test]
fn mod_download_paths_use_safe_names() {
    let p = mod_download_paths("modrinth", "Cool Mod!", "1.0/beta", "res", "tmp");
    assert_eq!(p.output_dir, "res/modrinth-Cool-Mod");
    assert_eq!(p.jar_path, "tmp/mods/modrinth-Cool-Mod-1.0-beta.jar");
    assert_eq!(p.extracted_dir, "tmp/mods/modrinth-Cool-Mod-1.0-beta");
}

#[test]
fn failures_are_counted_and_listed() {
    assert_eq!(failures_message("Modrinth mod(s)", &[]), None);
    let f = vec!["jei".to_string(), "create".to_string()];
    assert_eq!(
        failures_message("Modrinth mod(s)", &f).unwrap(),
        "failed to download 2 Modrinth mod(s): jei, create"
    );
}

fn file(name: &str, primary: bool, url: &str) -> JsonValue {
    obj(vec![("filename", s(name)), ("primary", JsonValue::Bool(primary)), ("url", s(url))])
}

#[test]
fn prefers_the_primary_jar() {
    let v = obj(vec![(
        "files",
        JsonValue::Array(vec![
            file("a-sources.jar", false, "u1"),
            file("a.jar", true, "u2"),
            file("a.zip", true, "u3"),
        ]),
    )]);
    assert_eq!(select_modrinth_jar_url(&v).as_deref(), Some("u2"));
    let v = obj(vec![("files", JsonValue::Array(vec![file("a.zip", true, "u3"), file("b.jar", false, "u4")]))]);
    assert_eq!(select_modrinth_jar_url(&v).as_deref(), Some("u4"));
    let v = obj(vec![("files", JsonValue::Array(vec![file("a.zip", true, "u3")]))]);
    assert_eq!(select_modrinth_jar_url(&v), None);
    assert_eq!(select_modrinth_jar_url(&obj(vec![])), None);
}

#[test]
fn version_ids_are_fetched_in_groups_of_one_hundred() {
    let ids: Vec<String> = (0..250).map(|i| i.to_string()).collect();
    let chunks = version_id_chunks(&ids);
    assert_eq!(chunks.len(), 3);
    assert_eq!(chunks[0].len(), 100);
    assert_eq!(chunks[2].len(), 50);
    assert_eq!(chunks[2][0], "200");
    assert!(version_id_chunks(&[]).is_empty());
}

#[test]
fn versions_are_found_by_id() {
    let resp = JsonValue::Array(vec![obj(vec![("id", s("a"))]), obj(vec![]), obj(vec![("id", s("b"))])]);
    assert_eq!(versions_by_id(&resp).unwrap(), vec![("a".to_string(), 0), ("b".to_string(), 2)]);
    assert_eq!(
        versions_by_id(&obj(vec![])).unwrap_err().message(),
        "Modrinth versions response must be an array"
    );
}

#[test]
fn latest_release_comes_from_the_manifest() {
    let manifest = obj(vec![
        ("latest", obj(vec![("release", s("1.21.4")), ("snapshot", s("25w01a"))])),
        (
            "versions",
            JsonValue::Array(vec![
                obj(vec![("id", s("25w01a")), ("url", s("https://x/snap.json"))]),
                obj(vec![("id", s("1.21.4"))]),
                obj(vec![("id", s("1.21.4")), ("url", s("https://x/rel.json"))]),
            ]),
        ),
    ]);
    let (release, url) = latest_release_url(&manifest).unwrap();
    assert_eq!(release, "1.21.4");
    assert_eq!(url, "https://x/rel.json");
    let err = latest_release_url(&obj(vec![])).unwrap_err();
    assert_eq!(err.message(), "Minecraft manifest missing latest.release");
    let no_url = obj(vec![("latest", obj(vec![("release", s("1.0"))])), ("versions", JsonValue::Array(vec![]))]);
    assert_eq!(
        latest_release_url(&no_url).unwrap_err().message(),
        "Minecraft manifest missing latest release metadata URL"
    );
}

#[test]
fn version_metadata_addresses() {
    let version = obj(vec![
        ("downloads", obj(vec![("client", obj(vec![("url", s("https://x/client.jar"))]))])),
        ("assetIndex", obj(vec![("url", s("https://x/index.json"))])),
    ]);
    assert_eq!(client_jar_url(&version).unwrap(), "https://x/client.jar");
    assert_eq!(asset_index_url(&version).unwrap(), "https://x/index.json");
    assert!(matches!(client_jar_url(&obj(vec![])).unwrap_err(), MinecraftError::MissingClientUrl));
    assert_eq!(
        asset_index_url(&obj(vec![])).unwrap_err().message(),
        "Minecraft version metadata missing assetIndex.url"
    );
}

#[test]
fn minecraft_paths_use_the_release() {
    let p = minecraft_paths("res", "tmp", "1.21.4");
    assert_eq!(p.output_dir, "res/minecraft");
    assert_eq!(p.en_us_path, "res/minecraft/en_us.json");
    assert_eq!(p.client_jar, "tmp/minecraft/client-1.21.4.jar");
}

#[test]
fn language_assets_are_planned_in_index_order() {
    let index = obj(vec![(
        "objects",
        obj(vec![
            ("icons/icon.png", obj(vec![("hash", s("ff00"))])),
            ("minecraft/lang/de_de.json", obj(vec![("hash", s("ab12cd"))])),
            ("minecraft/lang/en_us.json", obj(vec![("hash", s("0011"))])),
            ("minecraft/lang/fr_fr.json", obj(vec![])),
            ("minecraft/lang/xx_xx.json", obj(vec![("hash", s("a"))])),
        ]),
    )]);
    assert!(asset_hashes_sliceable(&index, true));
    let tasks = lang_asset_tasks(&index, true).unwrap();
    assert_eq!(tasks.len(), 4);
    match &tasks[0] {
        AssetTask::Fetch { key, file_name, url } => {
            assert_eq!(key, "minecraft/lang/de_de.json");
            assert_eq!(file_name, "de_de.json");
            assert_eq!(url, "https://resources.download.minecraft.net/ab/ab12cd");
        }
        other => panic!("unexpected {other:?}"),
    }
    assert!(matches!(tasks[1], AssetTask::Skip));
    assert_eq!(tasks[2].warning().unwrap(), "warning: Minecraft asset minecraft/lang/fr_fr.json is missing hash");
    assert_eq!(tasks[3].warning().unwrap(), "warning: Minecraft asset minecraft/lang/xx_xx.json has invalid hash a");
    assert_eq!(tasks[0].warning(), None);
    let without_en = lang_asset_tasks(&index, false).unwrap();
    assert!(matches!(without_en[1], AssetTask::Fetch { .. }));
    assert_eq!(
        lang_asset_tasks(&obj(vec![]), true).unwrap_err().message(),
        "Minecraft asset index missing objects"
    );
}

#[test]
fn hashes_cut_inside_a_character_are_detected() {
    let index = obj(vec![("objects", obj(vec![("minecraft/lang/a.json", obj(vec![("hash", s("aé"))]))]))]);
    assert!(!asset_hashes_sliceable(&index, true));
    let ok = obj(vec![("objects", obj(vec![("minecraft/lang/a.json", obj(vec![("hash", s("éa"))]))]))]);
    assert!(asset_hashes_sliceable(&ok, true));
    let tasks = lang_asset_tasks(&ok, true).unwrap();
    assert!(matches!(&tasks[0], AssetTask::Fetch { url, .. } if url == "https://resources.download.minecraft.net/é/éa"));
}
