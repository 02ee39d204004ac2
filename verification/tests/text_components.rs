use packtrans_glossary::json::JsonValue;
use packtrans_glossary::slots::substitute_slots;
use packtrans_glossary::text_component::{
    flatten_language_value, language_entries, strip_utf8_bom, translation_pairs,
};

fn s(text: &str) -> JsonValue {
    JsonValue::String(text.to_string())
}

fn num(text: &str) -> JsonValue {
    JsonValue::Number(text.to_string())
}

fn obj(members: Vec<(&str, JsonValue)>) -> JsonValue {
    JsonValue::Object(members.into_iter().map(|(k, v)| (k.to_string(), v)).collect())
}

fn lang(members: Vec<(&str, JsonValue)>) -> Vec<(String, JsonValue)> {
    members.into_iter().map(|(k, v)| (k.to_string(), v)).collect()
}

fn flat(value: &JsonValue, translations: &[(String, JsonValue)]) -> Option<String> {
    flatten_language_value(value, translations)
}

#[test]
fn string_shorthand() {
    let lang = lang(vec![]);
    assert_eq!(flat(&s("hello"), &lang).as_deref(), Some("hello"));
}

#[test]
fn array_concatenates_components() {
    let lang = lang(vec![]);
    let value = JsonValue::Array(vec![
        obj(vec![("text", s("Press ")), ("color", s("gray"))]),
        obj(vec![("index", num("0")), ("color", s("white"))]),
        s(" to open"),
    ]);
    assert_eq!(flat(&value, &lang).as_deref(), Some("Press {} to open"));
}

#[test]
fn text_with_extra() {
    let lang = lang(vec![]);
    let value = obj(vec![("text", s("A")), ("extra", JsonValue::Array(vec![obj(vec![("text", s("B"))])]))]);
    assert_eq!(flat(&value, &lang).as_deref(), Some("AB"));
}

#[test]
fn translate_missing_key_uses_key_as_text() {
    let lang = lang(vec![]);
    let value = obj(vec![("translate", s("gui.done"))]);
    assert_eq!(flat(&value, &lang).as_deref(), Some("gui.done"));
}

#[test]
fn translate_substitutes_positional_and_indexed_slots() {
    let lang = lang(vec![("greet", s("Hello %s and %2$s"))]);
    let value = obj(vec![
        ("translate", s("greet")),
        ("with", JsonValue::Array(vec![obj(vec![("text", s("Alex"))]), obj(vec![("text", s("Bob"))])])),
    ]);
    assert_eq!(flat(&value, &lang).as_deref(), Some("Hello Alex and Bob"));
}

#[test]
fn translate_substitutes_plain_with_strings() {
    let lang = lang(vec![]);
    let value = obj(vec![("translate", s("Hello %s")), ("with", JsonValue::Array(vec![s("Steve")]))]);
    assert_eq!(flat(&value, &lang).as_deref(), Some("Hello Steve"));
}

#[test]
fn translate_uses_fallback_key() {
    let lang = lang(vec![("fallback.key", s("Fallback text"))]);
    let value = obj(vec![("translate", s("missing.key")), ("fallback", s("fallback.key"))]);
    assert_eq!(flat(&value, &lang).as_deref(), Some("Fallback text"));
}

#[test]
fn keybind_uses_identifier() {
    let lang = lang(vec![]);
    let value = obj(vec![("keybind", s("key.inventory"))]);
    assert_eq!(flat(&value, &lang).as_deref(), Some("{keybind:key.inventory}"));
}

#[test]
fn selector_displays_selector() {
    let lang = lang(vec![]);
    let value = obj(vec![("selector", s("@p"))]);
    assert_eq!(flat(&value, &lang).as_deref(), Some("@p"));
}

#[test]
fn score_and_nbt_are_empty() {
    let lang = lang(vec![]);
    let score = obj(vec![("score", obj(vec![("name", s("*")), ("objective", s("obj"))]))]);
    assert_eq!(flat(&score, &lang).as_deref(), Some(""));
    let nbt = obj(vec![("nbt", s("foo")), ("entity", s("@s"))]);
    assert_eq!(flat(&nbt, &lang).as_deref(), Some(""));
}

#[test]
fn empty_text_object_is_empty() {
    let lang = lang(vec![]);
    let value = obj(vec![("italic", JsonValue::Bool(false)), ("text", s(""))]);
    assert_eq!(flat(&value, &lang).as_deref(), Some(""));
}

#[test]
fn load_language_file_strips_utf8_bom() {
    let mut content = vec![0xEFu8, 0xBB, 0xBF];
    content.extend_from_slice(br#"{"item.example":"value"}"#);
    let stripped = strip_utf8_bom(&content);
    assert_eq!(stripped, br#"{"item.example":"value"}"#);
    let raw = lang(vec![("item.example", s("value"))]);
    let entries = language_entries(&raw);
    assert_eq!(entries, vec![("item.example".to_string(), "value".to_string())]);
}

#[test]
fn load_language_file_flattens_minecraft_text_components() {
    let raw = lang(vec![
        ("item.plain", s("Hello")),
        (
            "item.things.ender_pouch.tooltip",
            JsonValue::Array(vec![
                obj(vec![("text", s("Press ")), ("color", s("gray"))]),
                obj(vec![("index", num("0")), ("color", s("white"))]),
                s(" to open ender Chest inventory"),
            ]),
        ),
    ]);
    let entries = language_entries(&raw);
    assert_eq!(entries[0], ("item.plain".to_string(), "Hello".to_string()));
    assert_eq!(
        entries[1],
        (
            "item.things.ender_pouch.tooltip".to_string(),
            "Press {} to open ender Chest inventory".to_string()
        )
    );
}

#[test]
fn bom_is_kept_only_when_absent() {
    assert_eq!(strip_utf8_bom(b"{}"), b"{}");
    assert_eq!(strip_utf8_bom(&[0xEF, 0xBB]), &[0xEF, 0xBB]);
}

#[test]
fn language_entries_drop_empty_texts() {
    let raw = lang(vec![("a", s("")), ("b", s("B")), ("c", JsonValue::Null)]);
    let entries = language_entries(&raw);
    assert_eq!(entries, vec![("b".to_string(), "B".to_string())]);
}

#[test]
fn translation_pairs_follow_source_order() {
    let source = vec![
        ("k1".to_string(), "One".to_string()),
        ("k2".to_string(), "Two".to_string()),
        ("k3".to_string(), "Three".to_string()),
    ];
    let target = vec![("k3".to_string(), "Trois".to_string()), ("k1".to_string(), "Un".to_string())];
    let pairs = translation_pairs(&source, &target);
    assert_eq!(
        pairs,
        vec![
            ("k1".to_string(), "One".to_string(), "Un".to_string()),
            ("k3".to_string(), "Three".to_string(), "Trois".to_string()),
        ]
    );
}

#[test]
fn translation_lookup_uses_component_values() {
    let lang = lang(vec![("inner", obj(vec![("text", s("Inner"))]))]);
    let value = obj(vec![("translate", s("inner"))]);
    assert_eq!(flat(&value, &lang).as_deref(), Some("Inner"));
}

#[test]
fn translations_that_come_back_to_themselves_have_no_text() {
    let raw = lang(vec![
        ("loop", obj(vec![("translate", s("loop"))])),
        ("ping", obj(vec![("translate", s("pong"))])),
        ("pong", JsonValue::Array(vec![s("x"), obj(vec![("translate", s("ping"))])])),
        ("ok", s("Fine")),
    ]);
    assert_eq!(flat(&raw[0].1, &raw), None);
    assert_eq!(flat(&raw[1].1, &raw), None);
    assert_eq!(language_entries(&raw), vec![("ok".to_string(), "Fine".to_string())]);
}

#[test]
fn long_chains_of_translations_are_followed_to_the_end() {
    let n = 200;
    let mut members: Vec<(String, JsonValue)> = (0..n)
        .map(|i| (format!("k{i}"), obj(vec![("translate", s(&format!("k{}", i + 1)))])))
        .collect();
    members.push((format!("k{n}"), obj(vec![("text", s("End"))])));
    assert_eq!(flat(&members[0].1, &members).as_deref(), Some("End"));
    assert_eq!(language_entries(&members).len(), n + 1);
}

#[test]
fn chains_of_component_translations_flatten() {
    let raw = lang(vec![
        ("a", obj(vec![("translate", s("b"))])),
        ("b", obj(vec![("translate", s("c"))])),
        ("c", obj(vec![("text", s("Deep"))])),
    ]);
    assert_eq!(flat(&raw[0].1, &raw).as_deref(), Some("Deep"));
    assert_eq!(
        language_entries(&raw),
        vec![("a".to_string(), "Deep".to_string()), ("b".to_string(), "Deep".to_string()), ("c".to_string(), "Deep".to_string())]
    );
}

#[test]
fn text_that_starts_no_slot_is_kept() {
    let none: Vec<String> = vec![];
    assert_eq!(substitute_slots("10% off", &none).as_deref(), Some("10% off"));
    assert_eq!(substitute_slots("100%", &none).as_deref(), Some("100%"));
    assert_eq!(substitute_slots("%5x and %2$d", &none).as_deref(), Some("%5x and %2$d"));
    assert_eq!(substitute_slots("50%% of %s", &["all".to_string()]).as_deref(), Some("50% of all"));
    let args = vec!["A".to_string(), "B".to_string()];
    assert_eq!(substitute_slots("%2$s-%s-%1s-%0$s-%3$s", &args).as_deref(), Some("B-A-A--"));
    assert_eq!(substitute_slots("%99999999999999999999999s", &args), None);
    assert_eq!(substitute_slots("%99999999999999999999999x", &args).as_deref(), Some("%99999999999999999999999x"));
}
