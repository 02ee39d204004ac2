use packtrans_glossary::builder::{CreateModListCommand, Platform};
use packtrans_glossary::json::JsonValue;
use packtrans_glossary::modlist::{create_mod_list, ModListError, ModListSource, ModListStep};
use packtrans_glossary::number::integer_text;

fn s(text: &str) -> JsonValue {
    JsonValue::String(text.to_string())
}

fn num(text: &str) -> JsonValue {
    JsonValue::Number(text.to_string())
}

fn obj(members: Vec<(&str, JsonValue)>) -> JsonValue {
    JsonValue::Object(members.into_iter().map(|(k, v)| (k.to_string(), v)).collect())
}

fn modrinth_hit(i: usize) -> JsonValue {
    obj(vec![
        ("project_id", s(&format!("id{i}"))),
        ("slug", s(&format!("slug{i}"))),
        ("title", s(&format!("Mod {i}"))),
        ("latest_version", s(&format!("v{i}"))),
    ])
}

fn cmd(platform: Platform, count: usize) -> CreateModListCommand {
    CreateModListCommand { platform, output: "mods.json".to_string(), count }
}

#[test]
fn minecraft_has_no_mod_list() {
    let err = create_mod_list(&cmd(Platform::Minecraft, 10)).unwrap_err();
    assert_eq!(err.message(), "create-mod-list does not support the minecraft platform");
}

#[test]
fn curseforge_count_must_be_in_range() {
    let err = create_mod_list(&cmd(Platform::Curseforge, 0)).unwrap_err();
    assert!(matches!(err, ModListError::CountZero(0)));
    assert_eq!(err.message(), "fetch_curseforge_mod_list: count must be > 0, got 0");
    let err = create_mod_list(&cmd(Platform::Curseforge, 10001)).unwrap_err();
    assert_eq!(
        err.message(),
        "fetch_curseforge_mod_list: count must be <= 10000 (CurseForge API: index + pageSize cannot exceed 10000), got 10001"
    );
    assert!(create_mod_list(&cmd(Platform::Curseforge, 10000)).is_ok());
}

#[test]
fn modrinth_pages_until_count_is_reached() {
    let mut fetch = create_mod_list(&cmd(Platform::Modrinth, 150)).unwrap();
    assert_eq!(fetch.source, ModListSource::Modrinth);
    match fetch.next_step() {
        ModListStep::Fetch(url) => assert_eq!(
            url,
            "https://api.modrinth.com/v2/search?facets=%5B%5B%22project_type%3Amod%22%5D%5D&index=downloads&limit=100&offset=0"
        ),
        other => panic!("unexpected {other:?}"),
    }
    let page = obj(vec![("hits", JsonValue::Array((0..100).map(modrinth_hit).collect()))]);
    fetch.accept_page(&page).unwrap();
    assert_eq!(fetch.mods.len(), 100);
    assert_eq!(fetch.offset, 100);
    assert!(!fetch.finished);
    match fetch.next_step() {
        ModListStep::Fetch(url) => assert!(url.ends_with("&offset=100")),
        other => panic!("unexpected {other:?}"),
    }
    let page = obj(vec![("hits", JsonValue::Array((100..200).map(modrinth_hit).collect()))]);
    fetch.accept_page(&page).unwrap();
    assert_eq!(fetch.mods.len(), 150);
    assert!(fetch.finished);
    assert_eq!(fetch.mods[149].slug, "slug149");
    assert_eq!(fetch.mods[0].name, "Mod 0");
    assert_eq!(fetch.mods[0].version_id, "v0");
    assert!(matches!(fetch.next_step(), ModListStep::Finished));
}

#[test]
fn incomplete_results_are_skipped_and_short_pages_end_the_list() {
    let mut fetch = create_mod_list(&cmd(Platform::Modrinth, 10)).unwrap();
    let page = obj(vec![(
        "hits",
        JsonValue::Array(vec![modrinth_hit(1), obj(vec![("slug", s("no-id"))]), modrinth_hit(2)]),
    )]);
    fetch.accept_page(&page).unwrap();
    assert_eq!(fetch.mods.len(), 2);
    assert_eq!(fetch.mods[1].id, "id2");
    assert!(fetch.finished);
}

#[test]
fn page_without_results_is_refused() {
    let mut fetch = create_mod_list(&cmd(Platform::Modrinth, 10)).unwrap();
    let err = fetch.accept_page(&obj(vec![("other", JsonValue::Null)])).unwrap_err();
    assert_eq!(err.message(), "missing hits array in response");
    assert_eq!(fetch.mods.len(), 0);
    let mut cf = create_mod_list(&cmd(Platform::Curseforge, 10)).unwrap();
    let err = cf.accept_page(&JsonValue::Array(vec![])).unwrap_err();
    assert_eq!(err.message(), "missing data array in CurseForge response");
}

#[test]
fn curseforge_ids_are_integers_in_decimal() {
    let mut fetch = create_mod_list(&cmd(Platform::Curseforge, 3)).unwrap();
    match fetch.next_step() {
        ModListStep::Fetch(url) => assert_eq!(
            url,
            "https://api.curseforge.com/v1/mods/search?gameId=432&sortField=6&sortOrder=desc&pageSize=50&index=0"
        ),
        other => panic!("unexpected {other:?}"),
    }
    let item = |id: JsonValue, file: JsonValue| {
        obj(vec![("id", id), ("slug", s("jei")), ("name", s("JEI")), ("mainFileId", file)])
    };
    let page = obj(vec![(
        "data",
        JsonValue::Array(vec![
            item(num("238222"), num("5101366")),
            item(num("1.5"), num("7")),
            item(s("12"), num("7")),
            item(num("-3"), num("9223372036854775807")),
            item(num("9223372036854775808"), num("1")),
        ]),
    )]);
    fetch.accept_page(&page).unwrap();
    assert_eq!(fetch.mods.len(), 2);
    assert_eq!(fetch.mods[0].id, "238222");
    assert_eq!(fetch.mods[0].version_id, "5101366");
    assert_eq!(fetch.mods[1].id, "-3");
    assert_eq!(fetch.mods[1].version_id, "9223372036854775807");
    assert!(fetch.finished);
}

#[test]
fn curseforge_stops_at_its_last_page() {
    let mut fetch = create_mod_list(&cmd(Platform::Curseforge, 10000)).unwrap();
    fetch.offset = 9960;
    match fetch.next_step() {
        ModListStep::CapReached(w) => assert_eq!(
            w,
            "warning: CurseForge pagination cap reached (offset 9960 + page_size 50 > 10000); stopping with 0 mod(s) (requested 10000)."
        ),
        other => panic!("unexpected {other:?}"),
    }
    fetch.offset = 9950;
    assert!(matches!(fetch.next_step(), ModListStep::Fetch(_)));
}

#[test]
fn integer_text_reads_i64_numbers() {
    assert_eq!(integer_text(&num("42")).as_deref(), Some("42"));
    assert_eq!(integer_text(&num("-42")).as_deref(), Some("-42"));
    assert_eq!(integer_text(&num("-9223372036854775808")).as_deref(), Some("-9223372036854775808"));
    assert_eq!(integer_text(&num("-0")).as_deref(), Some("0"));
    assert_eq!(integer_text(&num("007")).as_deref(), Some("7"));
    assert_eq!(integer_text(&num("9223372036854775808")), None);
    assert_eq!(integer_text(&num("99999999999999999999999")), None);
    assert_eq!(integer_text(&num("1e3")), None);
    assert_eq!(integer_text(&num("")), None);
    assert_eq!(integer_text(&num("-")), None);
    assert_eq!(integer_text(&s("42")), None);
}
