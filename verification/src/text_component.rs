//! Flattens Minecraft Java Edition text components to plain strings for indexing.
//!
//! A language-file value is a plain string, an array of components or an object component
//! (`text`, `translate`, `score`, `selector`, `keybind`, `nbt`, `object`). `translate` looks the
//! key up in the same language file; when that value is itself a component it is flattened
//! in turn. A chain of such lookups that comes back to a translation already on it would never
//! end: that value gets no text, and every finite chain is followed to its end.

use vstd::prelude::*;
use crate::json::{
    contains_key, count, count_entries, count_parts, get, get_array, get_str, get_string, has_key, is_first_key,
    lemma_count_part, lemma_obj_get_count, obj_get, JsonValue,
};
use crate::slots::{apply_slots, has_no_slots, lemma_format_without_slots_unchanged, substitute_slots};
use crate::text::{concat, concat_strings, owned, push_str, str_eq, views};

verus! {

/// How an object component supplies its content.
#[derive(Debug, Clone, Copy, PartialEq, Eq, Structural)]
pub enum ContentType {
    Text,
    Translate,
    Score,
    Selector,
    Keybind,
    Nbt,
    Object,
    Unknown,
}

/// The content type named by an explicit `type` member.
pub open spec fn content_type_named(name: Seq<char>) -> Option<ContentType> {
    if name == "text"@ {
        Some(ContentType::Text)
    } else if name == "translatable"@ {
        Some(ContentType::Translate)
    } else if name == "score"@ {
        Some(ContentType::Score)
    } else if name == "selector"@ {
        Some(ContentType::Selector)
    } else if name == "keybind"@ {
        Some(ContentType::Keybind)
    } else if name == "nbt"@ {
        Some(ContentType::Nbt)
    } else if name == "object"@ {
        Some(ContentType::Object)
    } else {
        None
    }
}

/// The content type implied by which members are present, in the wiki's precedence order.
pub open spec fn implicit_content_type(obj: Seq<(String, JsonValue)>) -> ContentType {
    if has_key(obj, "text"@) {
        ContentType::Text
    } else if has_key(obj, "translate"@) {
        ContentType::Translate
    } else if has_key(obj, "score"@) {
        ContentType::Score
    } else if has_key(obj, "selector"@) {
        ContentType::Selector
    } else if has_key(obj, "keybind"@) {
        ContentType::Keybind
    } else if has_key(obj, "nbt"@) {
        ContentType::Nbt
    } else if has_key(obj, "object"@) || has_key(obj, "sprite"@) || has_key(obj, "player"@) {
        ContentType::Object
    } else {
        ContentType::Unknown
    }
}

/// An explicit, recognised `type` wins; otherwise the implicit order decides.
pub open spec fn content_type(obj: Seq<(String, JsonValue)>) -> ContentType {
    match get_str(obj, "type"@) {
        Some(t) => match content_type_named(t) {
            Some(ct) => ct,
            None => implicit_content_type(obj),
        },
        None => implicit_content_type(obj),
    }
}

pub open spec fn keybind_text(id: Seq<char>) -> Seq<char> {
    "{keybind:"@ + id + "}"@
}

/// Text of an `object` component: `[sprite]`, `[player]`, or nothing.
pub open spec fn sprite_text(obj: Seq<(String, JsonValue)>) -> Seq<char> {
    match obj_get(obj, "sprite"@) {
        Some(JsonValue::String(s)) => "["@ + s@ + "]"@,
        _ => if get_str(obj, "object"@) == Some("player"@) {
            "[player]"@
        } else {
            Seq::empty()
        },
    }
}

/// Flattens `v` while the translations in `path` are being looked up (the chain of nested
/// lookups that led here).
///
/// `None`: a lookup came back to a translation on its own chain (which would never end), or a
/// translation slot number overflowed. `Some(None)`: the value
/// has no text (null, boolean, number, or an object without content). `Some(Some(t))`: text `t`.
pub open spec fn flatten(v: JsonValue, tr: Seq<(String, JsonValue)>, path: Seq<Seq<char>>) -> Option<
    Option<Seq<char>>,
>
    decreases unvisited(tr, path), count(v), 0nat, 0nat,
{
    match v {
        JsonValue::String(t) => Some(Some(t@)),
        JsonValue::Array(parts) => match flatten_list(parts@, tr, path, 0) {
            Some(texts) => Some(Some(concat(texts))),
            None => None,
        },
        JsonValue::Object(obj) => flatten_object(obj@, tr, path),
        _ => Some(None),
    }
}

/// The texts of `parts[i..]` that have one, in order.
pub open spec fn flatten_list(parts: Seq<JsonValue>, tr: Seq<(String, JsonValue)>, path: Seq<Seq<char>>, i: int) -> Option<
    Seq<Seq<char>>,
>
    decreases unvisited(tr, path), count_parts(parts), 1nat, parts.len() - i,
{
    if i < 0 || i >= parts.len() {
        Some(Seq::empty())
    } else {
        proof {
            lemma_count_part(parts, i);
        }
        match flatten(parts[i], tr, path) {
            None => None,
            Some(first) => match flatten_list(parts, tr, path, i + 1) {
                None => None,
                Some(rest) => match first {
                    Some(t) => Some(seq![t] + rest),
                    None => Some(rest),
                },
            },
        }
    }
}

/// An object component: its content followed by the texts of its `extra` array.
pub open spec fn flatten_object(obj: Seq<(String, JsonValue)>, tr: Seq<(String, JsonValue)>, path: Seq<Seq<char>>) -> Option<
    Option<Seq<char>>,
>
    decreases unvisited(tr, path), count_entries(obj), 3nat, 0nat,
{
    match flatten_content(obj, tr, path) {
        None => None,
        Some(None) => Some(None),
        Some(Some(content)) => match obj_get(obj, "extra"@) {
            Some(JsonValue::Array(extra)) => {
                proof {
                    lemma_obj_get_count(obj, "extra"@);
                }
                match flatten_list(extra@, tr, path, 0) {
                    Some(texts) => Some(Some(content + concat(texts))),
                    None => None,
                }
            },
            _ => Some(Some(content)),
        },
    }
}

/// The content of an object component, before its `extra` siblings.
pub open spec fn flatten_content(obj: Seq<(String, JsonValue)>, tr: Seq<(String, JsonValue)>, path: Seq<Seq<char>>) -> Option<
    Option<Seq<char>>,
>
    decreases unvisited(tr, path), count_entries(obj), 2nat, 0nat,
{
    match content_type(obj) {
        ContentType::Text => Some(
            Some(
                match get_str(obj, "text"@) {
                    Some(t) => t,
                    None => Seq::empty(),
                },
            ),
        ),
        ContentType::Translate => translated(obj, tr, path),
        ContentType::Score => Some(Some(Seq::empty())),
        ContentType::Selector => Some(get_str(obj, "selector"@)),
        ContentType::Keybind => Some(
            match get_str(obj, "keybind"@) {
                Some(id) => Some(keybind_text(id)),
                None => None,
            },
        ),
        ContentType::Nbt => Some(Some(Seq::empty())),
        ContentType::Object => Some(Some(sprite_text(obj))),
        ContentType::Unknown => Some(
            if has_key(obj, "index"@) {
                Some("{}"@)
            } else {
                None
            },
        ),
    }
}

/// The translation of `key`: a string value as it is, a component value flattened with `key`
/// added to the chain (`None` when `key` is already on it), `Some(None)` when the key is
/// missing.
pub open spec fn lookup(key: Seq<char>, tr: Seq<(String, JsonValue)>, path: Seq<Seq<char>>) -> Option<
    Option<Seq<char>>,
>
    decreases unvisited(tr, path), 0nat, 0nat, 0nat,
{
    match obj_get(tr, key) {
        None => Some(None),
        Some(JsonValue::String(t)) => Some(Some(t@)),
        Some(other) => if path.contains(key) {
            None
        } else {
            proof {
                lemma_unvisited_push_found(tr, path, key);
            }
            flatten(other, tr, path.push(key))
        },
    }
}

/// A `translate` component: the translation of `translate` (else of `fallback`, else the key
/// itself) with its slots filled by the texts of `with`.
pub open spec fn translated(obj: Seq<(String, JsonValue)>, tr: Seq<(String, JsonValue)>, path: Seq<Seq<char>>) -> Option<
    Option<Seq<char>>,
>
    decreases unvisited(tr, path), count_entries(obj), 1nat, 0nat,
{
    match get_str(obj, "translate"@) {
        None => Some(None),
        Some(key) => match lookup(key, tr, path) {
            None => None,
            Some(found) => {
                let format_found = match found {
                    Some(f) => Some(Some(f)),
                    None => match get_str(obj, "fallback"@) {
                        Some(fallback) => lookup(fallback, tr, path),
                        None => Some(None),
                    },
                };
                match format_found {
                    None => None,
                    Some(format_opt) => {
                        let format = match format_opt {
                            Some(f) => f,
                            None => key,
                        };
                        let args = match obj_get(obj, "with"@) {
                            Some(JsonValue::Array(with)) => {
                                proof {
                                    lemma_obj_get_count(obj, "with"@);
                                }
                                flatten_list(with@, tr, path, 0)
                            },
                            _ => Some(Seq::empty()),
                        };
                        match args {
                            None => None,
                            Some(args) => match apply_slots(format, args) {
                                Some(out) => Some(Some(out)),
                                None => None,
                            },
                        }
                    },
                }
            },
        },
    }
}


/// View of an exec flattening result.
pub open spec fn text_view(r: Option<Option<String>>) -> Option<Option<Seq<char>>> {
    match r {
        None => None,
        Some(None) => Some(None),
        Some(Some(t)) => Some(Some(t@)),
    }
}

/// View of an exec list of texts.
pub open spec fn texts_view(r: Option<Vec<String>>) -> Option<Seq<Seq<char>>> {
    match r {
        None => None,
        Some(v) => Some(views(v@)),
    }
}

fn content_type_from_name(name: &str) -> (r: Option<ContentType>)
    ensures
        r == content_type_named(name@),
{
    if str_eq(name, "text") {
        Some(ContentType::Text)
    } else if str_eq(name, "translatable") {
        Some(ContentType::Translate)
    } else if str_eq(name, "score") {
        Some(ContentType::Score)
    } else if str_eq(name, "selector") {
        Some(ContentType::Selector)
    } else if str_eq(name, "keybind") {
        Some(ContentType::Keybind)
    } else if str_eq(name, "nbt") {
        Some(ContentType::Nbt)
    } else if str_eq(name, "object") {
        Some(ContentType::Object)
    } else {
        None
    }
}

fn implicit_type(obj: &[(String, JsonValue)]) -> (r: ContentType)
    ensures
        r == implicit_content_type(obj@),
{
    if contains_key(obj, "text") {
        ContentType::Text
    } else if contains_key(obj, "translate") {
        ContentType::Translate
    } else if contains_key(obj, "score") {
        ContentType::Score
    } else if contains_key(obj, "selector") {
        ContentType::Selector
    } else if contains_key(obj, "keybind") {
        ContentType::Keybind
    } else if contains_key(obj, "nbt") {
        ContentType::Nbt
    } else if contains_key(obj, "object") || contains_key(obj, "sprite") || contains_key(
        obj,
        "player",
    ) {
        ContentType::Object
    } else {
        ContentType::Unknown
    }
}

/// Content type from explicit `type` or implicit member order.
pub fn detect_content_type(obj: &[(String, JsonValue)]) -> (r: ContentType)
    ensures
        r == content_type(obj@),
{
    match get_string(obj, "type") {
        Some(t) => match content_type_from_name(t.as_str()) {
            Some(ct) => ct,
            None => implicit_type(obj),
        },
        None => implicit_type(obj),
    }
}

fn flatten_object_sprite(obj: &[(String, JsonValue)]) -> (r: String)
    ensures
        r@ == sprite_text(obj@),
{
    match get(obj, "sprite") {
        Some(JsonValue::String(sprite)) => {
            let mut r = String::new();
            push_str(&mut r, "[");
            push_str(&mut r, sprite.as_str());
            push_str(&mut r, "]");
            r
        },
        _ => {
            let is_player = match get_string(obj, "object") {
                Some(o) => str_eq(o.as_str(), "player"),
                None => false,
            };
            if is_player {
                let mut r = String::new();
                push_str(&mut r, "[player]");
                r
            } else {
                String::new()
            }
        },
    }
}

fn flatten_component(v: &JsonValue, tr: &[(String, JsonValue)], path: &[String]) -> (r: Option<
    Option<String>,
>)
    ensures
        text_view(r) == flatten(*v, tr@, views(path@)),
    decreases unvisited(tr@, views(path@)), count(*v), 0nat, 0nat,
{
    match v {
        JsonValue::String(t) => Some(Some(t.clone())),
        JsonValue::Array(parts) => match flatten_items(parts.as_slice(), tr, path) {
            Some(texts) => Some(Some(concat_strings(&texts))),
            None => None,
        },
        JsonValue::Object(obj) => flatten_object_component(obj.as_slice(), tr, path),
        _ => Some(None),
    }
}

fn flatten_items(parts: &[JsonValue], tr: &[(String, JsonValue)], path: &[String]) -> (r: Option<
    Vec<String>,
>)
    ensures
        texts_view(r) == flatten_list(parts@, tr@, views(path@), 0),
    decreases unvisited(tr@, views(path@)), count_parts(parts@), 1nat, 0nat,
{
    let ghost whole = flatten_list(parts@, tr@, views(path@), 0);
    let mut out: Vec<String> = Vec::new();
    let mut i: usize = 0;
    assert(views(out@) + whole.unwrap() =~= whole.unwrap());
    while i < parts.len()
        invariant
            i <= parts@.len(),
            whole == flatten_list(parts@, tr@, views(path@), 0),
            match flatten_list(parts@, tr@, views(path@), i as int) {
                Some(rest) => whole == Some(views(out@) + rest),
                None => whole is None,
            },
        decreases parts@.len() - i,
    {
        proof {
            lemma_count_part(parts@, i as int);
        }
        match flatten_component(&parts[i], tr, path) {
            None => {
                return None;
            },
            Some(None) => {},
            Some(Some(t)) => {
                proof {
                    if let Some(rest) = flatten_list(parts@, tr@, views(path@), i + 1) {
                        assert(views(out@) + (seq![t@] + rest) =~= views(out@.push(t)) + rest);
                    }
                }
                out.push(t);
            },
        }
        i += 1;
    }
    assert(views(out@) + seq![] =~= views(out@));
    Some(out)
}

fn flatten_object_component(obj: &[(String, JsonValue)], tr: &[(String, JsonValue)], path: &[String]) -> (r:
    Option<Option<String>>)
    ensures
        text_view(r) == flatten_object(obj@, tr@, views(path@)),
    decreases unvisited(tr@, views(path@)), count_entries(obj@), 3nat, 0nat,
{
    let content = match flatten_object_content(obj, tr, path) {
        None => {
            return None;
        },
        Some(None) => {
            return Some(None);
        },
        Some(Some(c)) => c,
    };
    match get(obj, "extra") {
        Some(JsonValue::Array(extra)) => {
            proof {
                lemma_obj_get_count(obj@, "extra"@);
            }
            match flatten_items(extra.as_slice(), tr, path) {
                Some(texts) => {
                    let mut out = content;
                    let tail = concat_strings(&texts);
                    push_str(&mut out, tail.as_str());
                    Some(Some(out))
                },
                None => None,
            }
        },
        _ => Some(Some(content)),
    }
}

fn flatten_object_content(obj: &[(String, JsonValue)], tr: &[(String, JsonValue)], path: &[String]) -> (r:
    Option<Option<String>>)
    ensures
        text_view(r) == flatten_content(obj@, tr@, views(path@)),
    decreases unvisited(tr@, views(path@)), count_entries(obj@), 2nat, 0nat,
{
    match detect_content_type(obj) {
        ContentType::Text => Some(
            Some(
                match get_string(obj, "text") {
                    Some(t) => t.clone(),
                    None => String::new(),
                },
            ),
        ),
        ContentType::Translate => flatten_translate(obj, tr, path),
        ContentType::Score => Some(Some(String::new())),
        ContentType::Selector => match get_string(obj, "selector") {
            Some(t) => Some(Some(t.clone())),
            None => Some(None),
        },
        ContentType::Keybind => match get_string(obj, "keybind") {
            Some(id) => {
                let mut r = String::new();
                push_str(&mut r, "{keybind:");
                push_str(&mut r, id.as_str());
                push_str(&mut r, "}");
                Some(Some(r))
            },
            None => Some(None),
        },
        ContentType::Nbt => Some(Some(String::new())),
        ContentType::Object => Some(Some(flatten_object_sprite(obj))),
        ContentType::Unknown => if contains_key(obj, "index") {
            let mut r = String::new();
            push_str(&mut r, "{}");
            Some(Some(r))
        } else {
            Some(None)
        },
    }
}

fn lookup_translation(key: &str, tr: &[(String, JsonValue)], path: &[String]) -> (r: Option<
    Option<String>,
>)
    ensures
        text_view(r) == lookup(key@, tr@, views(path@)),
    decreases unvisited(tr@, views(path@)), 0nat, 0nat, 0nat,
{
    match get(tr, key) {
        None => Some(None),
        Some(JsonValue::String(t)) => Some(Some(t.clone())),
        Some(other) => if path_contains(path, key) {
            None
        } else {
            let longer = extended_path(path, key);
            proof {
                lemma_unvisited_push_found(tr@, views(path@), key@);
            }
            flatten_component(other, tr, longer.as_slice())
        },
    }
}

fn flatten_translate(obj: &[(String, JsonValue)], tr: &[(String, JsonValue)], path: &[String]) -> (r:
    Option<Option<String>>)
    ensures
        text_view(r) == translated(obj@, tr@, views(path@)),
    decreases unvisited(tr@, views(path@)), count_entries(obj@), 1nat, 0nat,
{
    let key = match get_string(obj, "translate") {
        None => {
            return Some(None);
        },
        Some(k) => k,
    };
    let found = match lookup_translation(key.as_str(), tr, path) {
        None => {
            return None;
        },
        Some(f) => f,
    };
    let format_found = match found {
        Some(f) => Some(Some(f)),
        None => match get_string(obj, "fallback") {
            Some(fallback) => lookup_translation(fallback.as_str(), tr, path),
            None => Some(None),
        },
    };
    let format = match format_found {
        None => {
            return None;
        },
        Some(Some(f)) => f,
        Some(None) => key.clone(),
    };
    let args = match get(obj, "with") {
        Some(JsonValue::Array(with)) => {
            proof {
                lemma_obj_get_count(obj@, "with"@);
            }
            flatten_items(with.as_slice(), tr, path)
        },
        _ => {
            let none: Vec<String> = Vec::new();
            assert(views(none@) =~= Seq::<Seq<char>>::empty());
            Some(none)
        },
    };
    let args = match args {
        None => {
            return None;
        },
        Some(a) => a,
    };
    match substitute_slots(format.as_str(), args.as_slice()) {
        Some(out) => Some(Some(out)),
        None => None,
    }
}

/// The number of entries of `tr` whose key is not on `path`: how many more translations a
/// chain of nested lookups can still add before it must come back to one already on it.
pub open spec fn unvisited(tr: Seq<(String, JsonValue)>, path: Seq<Seq<char>>) -> nat
    decreases tr.len(),
{
    if tr.len() == 0 {
        0
    } else {
        unvisited(tr.drop_last(), path) + if path.contains(tr.last().0@) { 0nat } else { 1nat }
    }
}

/// Adding a key to the chain never adds entries left to visit.
pub proof fn lemma_unvisited_push(tr: Seq<(String, JsonValue)>, path: Seq<Seq<char>>, key: Seq<char>)
    ensures
        unvisited(tr, path.push(key)) <= unvisited(tr, path),
        !path.contains(key) && (exists|i: int| 0 <= i < tr.len() && (#[trigger] tr[i]).0@ == key)
            ==> unvisited(tr, path.push(key)) < unvisited(tr, path),
    decreases tr.len(),
{
    if tr.len() > 0 {
        let rest = tr.drop_last();
        lemma_unvisited_push(rest, path, key);
        let x = tr.last().0@;
        let longer = path.push(key);
        if path.contains(x) {
            let w = choose|w: int| 0 <= w < path.len() && path[w] == x;
            assert(longer[w] == x);
        }
        if x == key {
            assert(longer[path.len() as int] == x);
        }
        if longer.contains(x) && x != key {
            let w = choose|w: int| 0 <= w < longer.len() && longer[w] == x;
            assert(w < path.len());
            assert(path[w] == x);
        }
        if !path.contains(key) && (exists|i: int| 0 <= i < tr.len() && (#[trigger] tr[i]).0@ == key) {
            let i = choose|i: int| 0 <= i < tr.len() && (#[trigger] tr[i]).0@ == key;
            if i < rest.len() {
                assert(rest[i] == tr[i]);
            }
        }
    }
}

/// Looking up a key that the file holds and that is not yet on the chain leaves fewer entries
/// for the chain to add.
pub proof fn lemma_unvisited_push_found(tr: Seq<(String, JsonValue)>, path: Seq<Seq<char>>, key: Seq<char>)
    requires
        obj_get(tr, key) is Some,
        !path.contains(key),
    ensures
        unvisited(tr, path.push(key)) < unvisited(tr, path),
{
    let i = choose|i: int| is_first_key(tr, key, i);
    assert(is_first_key(tr, key, i));
    assert(tr[i].0@ == key);
    lemma_unvisited_push(tr, path, key);
}

/// `true` when `key` is on the chain `path`.
fn path_contains(path: &[String], key: &str) -> (r: bool)
    ensures
        r == views(path@).contains(key@),
{
    let mut i: usize = 0;
    while i < path.len()
        invariant
            i <= path@.len(),
            forall|j: int| 0 <= j < i ==> (#[trigger] views(path@)[j]) != key@,
        decreases path@.len() - i,
    {
        if str_eq(path[i].as_str(), key) {
            assert(views(path@)[i as int] == key@);
            return true;
        }
        i += 1;
    }
    false
}

/// The chain `path` with `key` added.
fn extended_path(path: &[String], key: &str) -> (r: Vec<String>)
    ensures
        views(r@) == views(path@).push(key@),
{
    let mut out: Vec<String> = Vec::new();
    let mut i: usize = 0;
    while i < path.len()
        invariant
            i <= path@.len(),
            views(out@) == views(path@).take(i as int),
        decreases path@.len() - i,
    {
        let ghost before = out@;
        let item = owned(path[i].as_str());
        out.push(item);
        assert(out@ =~= before.push(item));
        assert(views(out@) =~= views(before).push(item@));
        assert(views(path@)[i as int] == path@[i as int]@);
        assert(views(out@) =~= views(path@).take(i + 1));
        i += 1;
    }
    let ghost before = out@;
    let last = owned(key);
    out.push(last);
    assert(out@ =~= before.push(last));
    assert(views(out@) =~= views(before).push(last@));
    assert(views(path@).take(path@.len() as int) =~= views(path@));
    assert(views(out@) =~= views(path@).push(key@));
    out
}

/// The text of a language-file value: `None` when it has none, when its translations lead
/// back to one already being looked up, or when a slot number overflows.
pub open spec fn flattened(v: JsonValue, tr: Seq<(String, JsonValue)>) -> Option<Seq<char>> {
    match flatten(v, tr, Seq::empty()) {
        Some(t) => t,
        None => None,
    }
}

/// `true` when `obj` is a `translate` component for `key` with no `with` arguments and no
/// `extra` siblings.
pub open spec fn is_bare_translate(obj: Seq<(String, JsonValue)>, key: Seq<char>) -> bool {
    &&& content_type(obj) == ContentType::Translate
    &&& get_str(obj, "translate"@) == Some(key)
    &&& obj_get(obj, "with"@) is None
    &&& obj_get(obj, "extra"@) is None
}

/// `true` when `tr` translates `key` to the plain text `text`.
pub open spec fn translates_to(tr: Seq<(String, JsonValue)>, key: Seq<char>, text: Seq<char>) -> bool {
    obj_get(tr, key) matches Some(JsonValue::String(s)) && s@ == text
}

/// A `translate` component whose key the file translates gets that translation, whatever its
/// `fallback` says; a missing key with a translated `fallback` gets the fallback's translation;
/// with neither translated, the key itself is the text (each text free of slots here, so that
/// it comes out as it is).
pub proof fn lemma_translate_prefers_key(
    v: JsonValue,
    tr: Seq<(String, JsonValue)>,
    key: Seq<char>,
    text: Seq<char>,
    fallback: Seq<char>,
    fallback_text: Seq<char>,
)
    requires
        v matches JsonValue::Object(obj) && is_bare_translate(obj@, key),
    ensures
        translates_to(tr, key, text) && has_no_slots(text) ==> flattened(v, tr) == Some(text),
        ({
            let obj = v->Object_0@;
            obj_get(tr, key) is None && get_str(obj, "fallback"@) == Some(fallback) && translates_to(
                tr,
                fallback,
                fallback_text,
            ) && has_no_slots(fallback_text) ==> flattened(v, tr) == Some(fallback_text)
        }),
        ({
            let obj = v->Object_0@;
            obj_get(tr, key) is None && (get_str(obj, "fallback"@) is None || (get_str(obj, "fallback"@)
                == Some(fallback) && obj_get(tr, fallback) is None)) && has_no_slots(key) ==> flattened(
                v,
                tr,
            ) == Some(key)
        }),
{
    let obj = v->Object_0@;
    let path = Seq::<Seq<char>>::empty();
    let none = Seq::<Seq<char>>::empty();
    if has_no_slots(text) {
        lemma_format_without_slots_unchanged(text, none);
    }
    if has_no_slots(fallback_text) {
        lemma_format_without_slots_unchanged(fallback_text, none);
    }
    if has_no_slots(key) {
        lemma_format_without_slots_unchanged(key, none);
    }
    assert(flatten(v, tr, path) == flatten_object(obj, tr, path));
    assert(flatten_content(obj, tr, path) == translated(obj, tr, path));
}

/// Flattens a language-file value (plain string or text component) to searchable text.
pub fn flatten_language_value(value: &JsonValue, translations: &[(String, JsonValue)]) -> (r:
    Option<String>)
    ensures
        match r {
            Some(t) => flattened(*value, translations@) == Some(t@),
            None => flattened(*value, translations@) is None,
        },
{
    let start: Vec<String> = Vec::new();
    assert(views(start@) =~= Seq::<Seq<char>>::empty());
    match flatten_component(value, translations, start.as_slice()) {
        Some(t) => t,
        None => None,
    }
}

/// View of a list of key/text pairs.
pub open spec fn pairs_view(v: Seq<(String, String)>) -> Seq<(Seq<char>, Seq<char>)> {
    v.map_values(|p: (String, String)| (p.0@, p.1@))
}

/// The searchable entries of a language file from member `i` on: each key whose value
/// flattens to a non-empty text, with that text, in file order.
pub open spec fn entries_from(raw: Seq<(String, JsonValue)>, i: int) -> Seq<(Seq<char>, Seq<char>)>
    decreases raw.len() - i,
{
    if i < 0 || i >= raw.len() {
        Seq::empty()
    } else {
        let here = match flattened(raw[i].1, raw) {
            Some(t) => if t.len() > 0 {
                seq![(raw[i].0@, t)]
            } else {
                Seq::empty()
            },
            None => Seq::empty(),
        };
        here + entries_from(raw, i + 1)
    }
}

/// The searchable entries of a language file (see [`entries_from`]).
pub open spec fn searchable_entries(raw: Seq<(String, JsonValue)>) -> Seq<(Seq<char>, Seq<char>)> {
    entries_from(raw, 0)
}

/// Flattens every value of a parsed language file, keeping the keys whose text is non-empty.
pub fn language_entries(raw: &[(String, JsonValue)]) -> (r: Vec<(String, String)>)
    ensures
        pairs_view(r@) == searchable_entries(raw@),
{
    let mut out: Vec<(String, String)> = Vec::new();
    let mut i: usize = 0;
    assert(pairs_view(out@) + entries_from(raw@, 0) =~= entries_from(raw@, 0));
    while i < raw.len()
        invariant
            i <= raw@.len(),
            pairs_view(out@) + entries_from(raw@, i as int) == entries_from(raw@, 0),
        decreases raw@.len() - i,
    {
        let text = flatten_language_value(&raw[i].1, raw);
        match text {
            Some(t) => {
                if !t.as_str().is_empty() {
                    let ghost before = pairs_view(out@);
                    out.push((raw[i].0.clone(), t));
                    assert(pairs_view(out@) =~= before.push((raw@[i as int].0@, t@)));
                    assert(before + entries_from(raw@, i as int) =~= pairs_view(out@)
                        + entries_from(raw@, i + 1));
                } else {
                    assert(entries_from(raw@, i as int) =~= entries_from(raw@, i + 1));
                }
            },
            None => {
                assert(entries_from(raw@, i as int) =~= entries_from(raw@, i + 1));
            },
        }
        i += 1;
    }
    assert(pairs_view(out@) + entries_from(raw@, i as int) =~= pairs_view(out@));
    out
}

/// Position of the first pair with key `key`.
pub open spec fn pair_index(pairs: Seq<(Seq<char>, Seq<char>)>, key: Seq<char>) -> Option<int> {
    if exists|i: int| 0 <= i < pairs.len() && pairs[i].0 == key && forall|j: int| 0 <= j < i ==> (#[trigger] pairs[j]).0 != key {
        Some(choose|i: int| 0 <= i < pairs.len() && pairs[i].0 == key && forall|j: int| 0 <= j < i ==> (#[trigger] pairs[j]).0 != key)
    } else {
        None
    }
}

/// The target entry paired with a key is the first one with that key; none is paired only
/// when the target has no entry with the key.
pub proof fn lemma_pair_index(pairs: Seq<(Seq<char>, Seq<char>)>, key: Seq<char>)
    ensures
        pair_index(pairs, key) matches Some(j) ==> 0 <= j < pairs.len() && pairs[j].0 == key
            && forall|m: int| 0 <= m < j ==> (#[trigger] pairs[m]).0 != key,
        pair_index(pairs, key) is None ==> forall|m: int| 0 <= m < pairs.len() ==> (#[trigger] pairs[m]).0 != key,
{
    if pair_index(pairs, key) is None {
        assert forall|m: int| 0 <= m < pairs.len() implies (#[trigger] pairs[m]).0 != key by {
            if pairs[m].0 == key {
                lemma_some_pair_index(pairs, key, m);
            }
        }
    }
}

proof fn lemma_some_pair_index(pairs: Seq<(Seq<char>, Seq<char>)>, key: Seq<char>, m: int)
    requires
        0 <= m < pairs.len(),
        pairs[m].0 == key,
    ensures
        exists|i: int| 0 <= i < pairs.len() && pairs[i].0 == key && forall|j: int| 0 <= j < i ==> (#[trigger] pairs[j]).0 != key,
    decreases m,
{
    if exists|k: int| 0 <= k < m && (#[trigger] pairs[k]).0 == key {
        let k = choose|k: int| 0 <= k < m && (#[trigger] pairs[k]).0 == key;
        lemma_some_pair_index(pairs, key, k);
    } else {
        assert(forall|j: int| 0 <= j < m ==> (#[trigger] pairs[j]).0 != key);
    }
}

/// View of a list of key/source/target triples.
pub open spec fn triples_view(v: Seq<(String, String, String)>) -> Seq<(Seq<char>, Seq<char>, Seq<char>)> {
    v.map_values(|t: (String, String, String)| (t.0@, t.1@, t.2@))
}

/// The documents of one mod from source entry `i` on: each source key that the target file
/// also translates, with both texts, in source order.
pub open spec fn pairs_from(
    source: Seq<(Seq<char>, Seq<char>)>,
    target: Seq<(Seq<char>, Seq<char>)>,
    i: int,
) -> Seq<(Seq<char>, Seq<char>, Seq<char>)>
    decreases source.len() - i,
{
    if i < 0 || i >= source.len() {
        Seq::empty()
    } else {
        let here = match pair_index(target, source[i].0) {
            Some(j) => seq![(source[i].0, source[i].1, target[j].1)],
            None => Seq::empty(),
        };
        here + pairs_from(source, target, i + 1)
    }
}

/// The document that source entry `i` gives, when the target file translates its key.
pub open spec fn entry_triple(
    source: Seq<(Seq<char>, Seq<char>)>,
    target: Seq<(Seq<char>, Seq<char>)>,
    i: int,
) -> Option<(Seq<char>, Seq<char>, Seq<char>)> {
    match pair_index(target, source[i].0) {
        Some(j) => Some((source[i].0, source[i].1, target[j].1)),
        None => None,
    }
}

/// Every pair produced from entry `from` on comes from a source entry at or after `from`
/// whose key the target translates, with the target's first text for that key; and every
/// such source entry produces its pair.
pub proof fn lemma_pairs_are_translated_entries(
    source: Seq<(Seq<char>, Seq<char>)>,
    target: Seq<(Seq<char>, Seq<char>)>,
    from: int,
)
    requires
        0 <= from,
    ensures
        forall|k: int| #![trigger pairs_from(source, target, from)[k]]
            0 <= k < pairs_from(source, target, from).len() ==> exists|i: int|
            from <= i < source.len() && #[trigger] entry_triple(source, target, i) == Some(
                pairs_from(source, target, from)[k],
            ),
        forall|i: int| from <= i < source.len() && (#[trigger] entry_triple(source, target, i)) is Some
            ==> exists|k: int| 0 <= k < pairs_from(source, target, from).len()
                && pairs_from(source, target, from)[k] == entry_triple(source, target, i)->0,
    decreases source.len() - from,
{
    if from < source.len() {
        lemma_pairs_are_translated_entries(source, target, from + 1);
        let here: Seq<(Seq<char>, Seq<char>, Seq<char>)> = match pair_index(target, source[from].0) {
            Some(j) => seq![(source[from].0, source[from].1, target[j].1)],
            None => Seq::empty(),
        };
        let rest = pairs_from(source, target, from + 1);
        let all = pairs_from(source, target, from);
        assert(all == here + rest);
        assert forall|k: int| #![trigger all[k]] 0 <= k < all.len() implies exists|i: int|
            from <= i < source.len() && #[trigger] entry_triple(source, target, i) == Some(all[k]) by {
            if k < here.len() {
                assert(entry_triple(source, target, from) == Some(all[k]));
            } else {
                assert(all[k] == rest[k - here.len()]);
                let i = choose|i: int| from + 1 <= i < source.len() && #[trigger] entry_triple(source, target, i) == Some(rest[k - here.len()]);
                assert(entry_triple(source, target, i) == Some(all[k]));
            }
        }
        assert forall|i: int| from <= i < source.len() && (#[trigger] entry_triple(source, target, i)) is Some
            implies exists|k: int| 0 <= k < all.len() && all[k] == entry_triple(source, target, i)->0 by {
            if i == from {
                assert(all[0] == entry_triple(source, target, i)->0);
            } else {
                let k = choose|k: int| 0 <= k < rest.len() && rest[k] == entry_triple(source, target, i)->0;
                assert(all[k + here.len()] == rest[k]);
            }
        }
    }
}

fn find_pair(pairs: &[(String, String)], key: &str) -> (r: Option<usize>)
    ensures
        match r {
            Some(i) => pair_index(pairs_view(pairs@), key@) == Some(i as int),
            None => pair_index(pairs_view(pairs@), key@) is None,
        },
{
    let ghost p = pairs_view(pairs@);
    let mut i: usize = 0;
    while i < pairs.len()
        invariant
            i <= pairs@.len(),
            p == pairs_view(pairs@),
            p.len() == pairs@.len(),
            forall|j: int| 0 <= j < i ==> (#[trigger] p[j]).0 != key@,
        decreases pairs@.len() - i,
    {
        if str_eq(pairs[i].0.as_str(), key) {
            assert(p[i as int].0 == key@);
            let ghost w = choose|k: int| 0 <= k < p.len() && p[k].0 == key@ && forall|j: int| 0 <= j < k ==> (#[trigger] p[j]).0 != key@;
            assert(w == i) by {
                if w < i {
                    assert(p[w].0 != key@);
                } else if w > i {
                    assert(p[i as int].0 != key@);
                }
            }
            return Some(i);
        }
        i += 1;
    }
    None
}

/// Pairs each source entry with the target entry of the same key (source order), dropping
/// keys that the target file does not translate.
pub fn translation_pairs(source: &[(String, String)], target: &[(String, String)]) -> (r: Vec<(String, String, String)>)
    ensures
        triples_view(r@) == pairs_from(pairs_view(source@), pairs_view(target@), 0),
{
    let ghost s = pairs_view(source@);
    let ghost t = pairs_view(target@);
    let mut out: Vec<(String, String, String)> = Vec::new();
    let mut i: usize = 0;
    assert(triples_view(out@) + pairs_from(s, t, 0) =~= pairs_from(s, t, 0));
    while i < source.len()
        invariant
            i <= source@.len(),
            s == pairs_view(source@),
            t == pairs_view(target@),
            triples_view(out@) + pairs_from(s, t, i as int) == pairs_from(s, t, 0),
        decreases source@.len() - i,
    {
        match find_pair(target, source[i].0.as_str()) {
            Some(j) => {
                let ghost before = triples_view(out@);
                out.push((source[i].0.clone(), source[i].1.clone(), target[j].1.clone()));
                assert(triples_view(out@) =~= before.push((s[i as int].0, s[i as int].1, t[j as int].1)));
                assert(before + pairs_from(s, t, i as int) =~= triples_view(out@) + pairs_from(s, t, i + 1));
            },
            None => {
                assert(pairs_from(s, t, i as int) =~= pairs_from(s, t, i + 1));
            },
        }
        i += 1;
    }
    assert(triples_view(out@) + pairs_from(s, t, i as int) =~= triples_view(out@));
    out
}

/// `true` when `bytes` starts with the UTF-8 byte order mark.
pub open spec fn has_utf8_bom(bytes: Seq<u8>) -> bool {
    bytes.len() >= 3 && bytes[0] == 0xEF && bytes[1] == 0xBB && bytes[2] == 0xBF
}

/// Drops a leading UTF-8 byte order mark.
pub fn strip_utf8_bom(bytes: &[u8]) -> (r: &[u8])
    ensures
        r@ == if has_utf8_bom(bytes@) { bytes@.skip(3) } else { bytes@ },
{
    if bytes.len() >= 3 && bytes[0] == 0xEF && bytes[1] == 0xBB && bytes[2] == 0xBF {
        let r = &bytes[3..bytes.len()];
        assert(r@ =~= bytes@.skip(3));
        r
    } else {
        bytes
    }
}


/// `true` when `obj` names no content type that is recognised by its `type` member.
pub open spec fn no_recognised_type(obj: Seq<(String, JsonValue)>) -> bool {
    match get_str(obj, "type"@) {
        None => true,
        Some(n) => n != "text"@ && n != "translatable"@ && n != "score"@ && n != "selector"@
            && n != "keybind"@ && n != "nbt"@ && n != "object"@,
    }
}

/// How an object component's kind is chosen: a recognised `type` member decides; otherwise the
/// first member present among `text`, `translate`, `score`, `selector`, `keybind`, `nbt`, and
/// `object` / `sprite` / `player` decides, and with none of them the kind is unknown.
pub proof fn lemma_content_type_rules(obj: Seq<(String, JsonValue)>)
    ensures
        get_str(obj, "type"@) == Some("text"@) ==> content_type(obj) == ContentType::Text,
        get_str(obj, "type"@) == Some("translatable"@) ==> content_type(obj) == ContentType::Translate,
        get_str(obj, "type"@) == Some("score"@) ==> content_type(obj) == ContentType::Score,
        get_str(obj, "type"@) == Some("selector"@) ==> content_type(obj) == ContentType::Selector,
        get_str(obj, "type"@) == Some("keybind"@) ==> content_type(obj) == ContentType::Keybind,
        get_str(obj, "type"@) == Some("nbt"@) ==> content_type(obj) == ContentType::Nbt,
        get_str(obj, "type"@) == Some("object"@) ==> content_type(obj) == ContentType::Object,
        no_recognised_type(obj) ==> {
            &&& has_key(obj, "text"@) ==> content_type(obj) == ContentType::Text
            &&& !has_key(obj, "text"@) && has_key(obj, "translate"@) ==> content_type(obj) == ContentType::Translate
            &&& !has_key(obj, "text"@) && !has_key(obj, "translate"@) && has_key(obj, "score"@)
                ==> content_type(obj) == ContentType::Score
            &&& !has_key(obj, "text"@) && !has_key(obj, "translate"@) && !has_key(obj, "score"@)
                && has_key(obj, "selector"@) ==> content_type(obj) == ContentType::Selector
            &&& !has_key(obj, "text"@) && !has_key(obj, "translate"@) && !has_key(obj, "score"@)
                && !has_key(obj, "selector"@) && has_key(obj, "keybind"@) ==> content_type(obj)
                == ContentType::Keybind
            &&& !has_key(obj, "text"@) && !has_key(obj, "translate"@) && !has_key(obj, "score"@)
                && !has_key(obj, "selector"@) && !has_key(obj, "keybind"@) && has_key(obj, "nbt"@)
                ==> content_type(obj) == ContentType::Nbt
            &&& !has_key(obj, "text"@) && !has_key(obj, "translate"@) && !has_key(obj, "score"@)
                && !has_key(obj, "selector"@) && !has_key(obj, "keybind"@) && !has_key(obj, "nbt"@)
                && (has_key(obj, "object"@) || has_key(obj, "sprite"@) || has_key(obj, "player"@))
                ==> content_type(obj) == ContentType::Object
            &&& !has_key(obj, "text"@) && !has_key(obj, "translate"@) && !has_key(obj, "score"@)
                && !has_key(obj, "selector"@) && !has_key(obj, "keybind"@) && !has_key(obj, "nbt"@)
                && !has_key(obj, "object"@) && !has_key(obj, "sprite"@) && !has_key(obj, "player"@)
                ==> content_type(obj) == ContentType::Unknown
        },
{
    reveal_strlit("text");
    reveal_strlit("translatable");
    reveal_strlit("score");
    reveal_strlit("selector");
    reveal_strlit("keybind");
    reveal_strlit("nbt");
    reveal_strlit("object");
    let names = seq!["text"@, "translatable"@, "score"@, "selector"@, "keybind"@, "nbt"@, "object"@];
    assert("text"@ != "translatable"@ && "text"@ != "score"@ && "text"@ != "selector"@ && "text"@ != "keybind"@
        && "text"@ != "nbt"@ && "text"@ != "object"@) by {
        assert("text"@[0] != "translatable"@[1]);
        assert("text"@.len() != "translatable"@.len());
        assert("text"@[0] != "score"@[0]);
        assert("text"@[0] != "selector"@[0]);
        assert("text"@[0] != "keybind"@[0]);
        assert("text"@[0] != "nbt"@[0]);
        assert("text"@[0] != "object"@[0]);
    }
    assert("translatable"@ != "score"@ && "translatable"@ != "selector"@ && "translatable"@ != "keybind"@
        && "translatable"@ != "nbt"@ && "translatable"@ != "object"@) by {
        assert("translatable"@[0] != "score"@[0]);
        assert("translatable"@[0] != "selector"@[0]);
        assert("translatable"@[0] != "keybind"@[0]);
        assert("translatable"@[0] != "nbt"@[0]);
        assert("translatable"@[0] != "object"@[0]);
    }
    assert("score"@ != "selector"@ && "score"@ != "keybind"@ && "score"@ != "nbt"@ && "score"@ != "object"@) by {
        assert("score"@.len() != "selector"@.len());
        assert("score"@[0] != "keybind"@[0]);
        assert("score"@[0] != "nbt"@[0]);
        assert("score"@[0] != "object"@[0]);
    }
    assert("selector"@ != "keybind"@ && "selector"@ != "nbt"@ && "selector"@ != "object"@) by {
        assert("selector"@[0] != "keybind"@[0]);
        assert("selector"@[0] != "nbt"@[0]);
        assert("selector"@[0] != "object"@[0]);
    }
    assert("keybind"@ != "nbt"@ && "keybind"@ != "object"@) by {
        assert("keybind"@[0] != "nbt"@[0]);
        assert("keybind"@[0] != "object"@[0]);
    }
    assert("nbt"@ != "object"@) by {
        assert("nbt"@[0] != "object"@[0]);
    }
}

/// `true` when every part is a plain string.
pub open spec fn all_strings(parts: Seq<JsonValue>) -> bool {
    forall|k: int| 0 <= k < parts.len() ==> (#[trigger] parts[k]) is String
}

/// The texts of `parts[i..]` when every part is a plain string.
pub open spec fn string_parts(parts: Seq<JsonValue>, i: int) -> Seq<Seq<char>>
    decreases parts.len() - i,
{
    if i < 0 || i >= parts.len() {
        Seq::empty()
    } else {
        seq![parts[i]->String_0@] + string_parts(parts, i + 1)
    }
}

proof fn lemma_string_list(parts: Seq<JsonValue>, tr: Seq<(String, JsonValue)>, path: Seq<Seq<char>>, i: int)
    requires
        0 <= i,
        all_strings(parts),
    ensures
        flatten_list(parts, tr, path, i) == Some(string_parts(parts, i)),
    decreases parts.len() - i,
{
    if i < parts.len() {
        lemma_string_list(parts, tr, path, i + 1);
        assert(parts[i] is String);
        let t = parts[i]->String_0@;
        assert(flatten(parts[i], tr, path) == Some(Some(t)));
        assert(string_parts(parts, i) == seq![t] + string_parts(parts, i + 1));
    }
}

/// Plain values: a string is its own text; `null`, booleans and numbers have none. An array
/// of strings is their concatenation, in order.
pub proof fn lemma_flatten_plain_values(v: JsonValue, tr: Seq<(String, JsonValue)>)
    ensures
        v matches JsonValue::String(t) ==> flattened(v, tr) == Some(t@),
        (v is Null || v is Bool || v is Number) ==> flattened(v, tr) is None,
        (v is Array && all_strings(v->Array_0@)) ==> flattened(v, tr) == Some(concat(string_parts(v->Array_0@, 0))),
{
    if v is Array {
        let parts = v->Array_0@;
        if all_strings(parts) {
            lemma_string_list(parts, tr, Seq::empty(), 0);
        }
    }
}

/// The text of an object component by its kind, when it has no `extra` siblings: a `text`
/// component its `text` (empty when that is not a string); a `keybind` component
/// `{keybind:ID}`; a `selector` component its selector; `score` and `nbt` components the empty
/// text; a component of unknown kind `{}` when it has an `index` member and no text otherwise.
/// With an `extra` array of strings, those strings follow the content.
pub proof fn lemma_flatten_components(v: JsonValue, tr: Seq<(String, JsonValue)>, extra: Seq<JsonValue>)
    requires
        v is Object,
    ensures
        ({
            let obj = v->Object_0@;
            obj_get(obj, "extra"@) is None ==> {
                &&& content_type(obj) == ContentType::Text ==> flattened(v, tr) == Some(
                    match get_str(obj, "text"@) { Some(t) => t, None => Seq::empty() },
                )
                &&& content_type(obj) == ContentType::Keybind ==> flattened(v, tr) == match get_str(
                    obj,
                    "keybind"@,
                ) {
                    Some(id) => Some("{keybind:"@ + id + "}"@),
                    None => None,
                }
                &&& content_type(obj) == ContentType::Selector ==> flattened(v, tr) == get_str(obj, "selector"@)
                &&& (content_type(obj) == ContentType::Score || content_type(obj) == ContentType::Nbt)
                    ==> flattened(v, tr) == Some(Seq::<char>::empty())
                &&& content_type(obj) == ContentType::Unknown ==> flattened(v, tr) == if has_key(obj, "index"@) {
                    Some("{}"@)
                } else {
                    None
                }
            }
        }),
        ({
            let obj = v->Object_0@;
            content_type(obj) == ContentType::Text && get_array(obj, "extra"@) == Some(extra) && all_strings(extra)
                ==> flattened(v, tr) == Some(
                match get_str(obj, "text"@) { Some(t) => t, None => Seq::empty() } + concat(string_parts(extra, 0)),
            )
        }),
{
    let obj = v->Object_0@;
    let path = Seq::<Seq<char>>::empty();
    assert(flatten(v, tr, path) == flatten_object(obj, tr, path));
    if all_strings(extra) {
        lemma_string_list(extra, tr, path, 0);
    }
}


/// A `translate` component whose key the file translates to `text`, with `with` arguments that
/// are plain strings and no `extra`, is `text` with its slots filled by those strings.
pub proof fn lemma_translate_fills_slots(
    v: JsonValue,
    tr: Seq<(String, JsonValue)>,
    key: Seq<char>,
    text: Seq<char>,
    with: Seq<JsonValue>,
)
    requires
        v is Object,
        content_type(v->Object_0@) == ContentType::Translate,
        get_str(v->Object_0@, "translate"@) == Some(key),
        get_array(v->Object_0@, "with"@) == Some(with),
        all_strings(with),
        obj_get(v->Object_0@, "extra"@) is None,
        translates_to(tr, key, text),
    ensures
        flattened(v, tr) == apply_slots(text, string_parts(with, 0)),
{
    let obj = v->Object_0@;
    let path = Seq::<Seq<char>>::empty();
    lemma_string_list(with, tr, path, 0);
    assert(flatten(v, tr, path) == flatten_object(obj, tr, path));
    assert(flatten_content(obj, tr, path) == translated(obj, tr, path));
}


/// The searchable entries of a language file are exactly its keys whose value flattens to a
/// non-empty text, each with that text: every entry comes from a member at or after `from`
/// with that key and text, and every such member gives an entry.
pub proof fn lemma_entries_are_flattened_members(raw: Seq<(String, JsonValue)>, from: int)
    requires
        0 <= from,
    ensures
        forall|k: int| #![trigger entries_from(raw, from)[k]]
            0 <= k < entries_from(raw, from).len() ==> exists|i: int|
                from <= i < raw.len() && (#[trigger] raw[i]).0@ == entries_from(raw, from)[k].0
                && flattened(raw[i].1, raw) == Some(entries_from(raw, from)[k].1)
                && entries_from(raw, from)[k].1.len() > 0,
        forall|i: int| from <= i < raw.len() && (#[trigger] flattened(raw[i].1, raw)) is Some && flattened(raw[i].1, raw)->0.len() > 0
            ==> exists|k: int| 0 <= k < entries_from(raw, from).len()
                && entries_from(raw, from)[k] == (raw[i].0@, flattened(raw[i].1, raw)->0),
    decreases raw.len() - from,
{
    if from < raw.len() {
        lemma_entries_are_flattened_members(raw, from + 1);
        let here: Seq<(Seq<char>, Seq<char>)> = match flattened(raw[from].1, raw) {
            Some(t) => if t.len() > 0 { seq![(raw[from].0@, t)] } else { Seq::empty() },
            None => Seq::empty(),
        };
        let rest = entries_from(raw, from + 1);
        let all = entries_from(raw, from);
        assert(all == here + rest);
        assert forall|k: int| #![trigger all[k]] 0 <= k < all.len() implies exists|i: int|
            from <= i < raw.len() && (#[trigger] raw[i]).0@ == all[k].0 && flattened(raw[i].1, raw) == Some(all[k].1)
            && all[k].1.len() > 0 by {
            if k < here.len() {
                assert(raw[from].0@ == all[k].0);
            } else {
                assert(all[k] == rest[k - here.len()]);
                let i = choose|i: int| from + 1 <= i < raw.len() && (#[trigger] raw[i]).0@ == rest[k - here.len()].0
                    && flattened(raw[i].1, raw) == Some(rest[k - here.len()].1) && rest[k - here.len()].1.len() > 0;
                assert(raw[i].0@ == all[k].0);
            }
        }
        assert forall|i: int| from <= i < raw.len() && (#[trigger] flattened(raw[i].1, raw)) is Some && flattened(raw[i].1, raw)->0.len() > 0
            implies exists|k: int| 0 <= k < all.len() && all[k] == (raw[i].0@, flattened(raw[i].1, raw)->0) by {
            if i == from {
                assert(all[0] == (raw[i].0@, flattened(raw[i].1, raw)->0));
            } else {
                let k = choose|k: int| 0 <= k < rest.len() && rest[k] == (raw[i].0@, flattened(raw[i].1, raw)->0);
                assert(all[k + here.len()] == rest[k]);
            }
        }
    }
}

} // verus!
