//! Release-downloaded indexes: choosing a release asset for a language, the languages a
//! release offers, where downloads are installed, and the ordering and clean-up of what is
//! installed.

use vstd::prelude::*;
use crate::order::{chars_le, is_stable_order, lemma_chars_le_refl, keys_view, pair_le, sorted_unique, stable_order, strictly_increasing, has_text};
use crate::text::{
    chars_of, ends_with, has_prefix, has_suffix, join_strings, join_with, owned, push_str,
    push_usize, decimal, starts_with, str_eq, string_of, views,
};
use crate::util::{is_valid_path_segment, join_path, joined, validate_path_segment, PathSegmentError};
use crate::json::{get_member, is_first_key, member, member_array, member_elements, member_str, member_string, JsonValue};
use crate::number::{lemma_u64_number_round_trip, u64_number, u64_of, u64_value};

verus! {

/// Directory under the index root that holds release downloads.
pub const DOWNLOADED_INDEXES_DIR: &'static str = ".downloaded";
/// File written next to an installed index describing where it came from.
pub const INDEX_METADATA_FILE: &'static str = ".packtrans-glossary-index.json";
/// Name prefix of index assets.
pub const INDEX_ASSET_PREFIX: &'static str = "packtrans-glossary-index-";

/// A downloadable file of a release.
#[derive(Debug)]
pub struct ReleaseAsset {
    pub name: String,
    pub browser_download_url: String,
}

/// A release of the glossary index repository.
#[derive(Debug)]
pub struct Release {
    pub tag_name: String,
    pub assets: Vec<ReleaseAsset>,
}

/// An installed release index.
#[derive(Debug)]
pub struct IndexEntry {
    pub lang: String,
    pub version: String,
    pub path: String,
}

impl IndexEntry {
    pub open spec fn view_triple(&self) -> (Seq<char>, Seq<char>, Seq<char>) {
        (self.lang@, self.version@, self.path@)
    }
}

/// Views of a list of index entries.
pub open spec fn entries_view(v: Seq<IndexEntry>) -> Seq<(Seq<char>, Seq<char>, Seq<char>)> {
    v.map_values(|e: IndexEntry| e.view_triple())
}

/// `root` when given, else the default root under the data directory (if there is one).
pub open spec fn root_or(base: Option<Seq<char>>, data_dir: Option<Seq<char>>) -> Option<Seq<char>> {
    match base {
        Some(b) => Some(b),
        None => match data_dir {
            Some(d) => Some(crate::index::indexes_root_path(d)),
            None => None,
        },
    }
}

/// The index root: `base` when given, else `{data_dir}/packtrans-glossary/indexes`; `None`
/// when neither is known.
pub fn indexes_root_or(base: Option<&str>, data_dir: Option<&str>) -> (r: Option<String>)
    ensures
        match r {
            Some(p) => root_or(opt_view(base), opt_view(data_dir)) == Some(p@),
            None => root_or(opt_view(base), opt_view(data_dir)) is None,
        },
{
    match base {
        Some(b) => Some(owned(b)),
        None => match data_dir {
            Some(d) => Some(crate::index::indexes_root(d)),
            None => None,
        },
    }
}

pub open spec fn opt_view(o: Option<&str>) -> Option<Seq<char>> {
    match o {
        Some(s) => Some(s@),
        None => None,
    }
}

/// `{root}/.downloaded`.
pub fn downloaded_indexes_root(root: &str) -> (r: String)
    ensures
        r@ == joined(root@, DOWNLOADED_INDEXES_DIR@),
{
    join_path(root, DOWNLOADED_INDEXES_DIR)
}

/// `{root}/.downloaded/{version}/{lang}`, after checking both are single path segments.
pub fn downloaded_index_dir(root: &str, version: &str, lang: &str) -> (r: Result<String, PathSegmentError>)
    ensures
        r is Ok <==> is_valid_path_segment(version@) && is_valid_path_segment(lang@),
        r matches Ok(p) ==> p@ == joined(joined(joined(root@, DOWNLOADED_INDEXES_DIR@), version@), lang@),
{
    validate_path_segment(version, "release tag")?;
    validate_path_segment(lang, "lang")?;
    let d = downloaded_indexes_root(root);
    let v = join_path(d.as_str(), version);
    Ok(join_path(v.as_str(), lang))
}

/// The name prefix of `lang`'s index asset.
pub open spec fn asset_prefix(lang: Seq<char>) -> Seq<char> {
    INDEX_ASSET_PREFIX@ + lang + "-"@
}

/// `true` when `name` is an index asset for `lang`.
pub open spec fn is_asset_for(name: Seq<char>, lang: Seq<char>) -> bool {
    has_prefix(name, asset_prefix(lang)) && has_suffix(name, ".zip"@)
}

/// `true` when `i` is the first asset of `assets` for `lang`.
pub open spec fn is_first_asset(assets: Seq<ReleaseAsset>, lang: Seq<char>, i: int) -> bool {
    &&& 0 <= i < assets.len()
    &&& is_asset_for(assets[i].name@, lang)
    &&& forall|j: int| 0 <= j < i ==> !is_asset_for(#[trigger] assets[j].name@, lang)
}

/// Position of the last `-` in `s`.
pub open spec fn last_dash(s: Seq<char>) -> Option<int> {
    if exists|i: int| 0 <= i < s.len() && s[i] == '-' && forall|j: int| i < j < s.len() ==> #[trigger] s[j] != '-' {
        Some(choose|i: int| 0 <= i < s.len() && s[i] == '-' && forall|j: int| i < j < s.len() ==> #[trigger] s[j] != '-')
    } else {
        None
    }
}

/// The language an asset name announces: what lies between the prefix and the last `-`.
pub open spec fn asset_language(name: Seq<char>) -> Option<Seq<char>> {
    if has_prefix(name, INDEX_ASSET_PREFIX@) {
        let rest = name.skip(INDEX_ASSET_PREFIX@.len() as int);
        match last_dash(rest) {
            Some(i) => Some(rest.take(i)),
            None => None,
        }
    } else {
        None
    }
}

/// `true` when some asset of `assets` announces `lang`.
pub open spec fn offers_language(assets: Seq<ReleaseAsset>, lang: Seq<char>) -> bool {
    exists|i: int| 0 <= i < assets.len() && asset_language(#[trigger] assets[i].name@) == Some(lang)
}

/// Index assets are named `packtrans-glossary-index-{lang}-{version}.zip`: such a name is an
/// asset for `lang`, and a name `packtrans-glossary-index-{lang}-{version}` announces `lang`
/// when the version has no `-`. A name without the prefix announces nothing.
pub proof fn lemma_asset_names(name: Seq<char>, lang: Seq<char>, version: Seq<char>)
    ensures
        is_asset_for("packtrans-glossary-index-"@ + lang + "-"@ + version + ".zip"@, lang),
        (forall|k: int| 0 <= k < version.len() ==> version[k] != '-') ==> asset_language(
            "packtrans-glossary-index-"@ + lang + "-"@ + version,
        ) == Some(lang),
        !has_prefix(name, "packtrans-glossary-index-"@) ==> asset_language(name) is None,
{
    let p = "packtrans-glossary-index-"@;
    let pre = p + lang + "-"@;
    let full = pre + version + ".zip"@;
    assert(full.take(pre.len() as int) =~= pre);
    assert(full.skip(full.len() - ".zip"@.len()) =~= ".zip"@);
    assert(asset_prefix(lang) == pre);
    let n = pre + version;
    if forall|k: int| 0 <= k < version.len() ==> version[k] != '-' {
        reveal_strlit("-");
        assert(n.take(p.len() as int) =~= p);
        let rest = n.skip(p.len() as int);
        assert(rest =~= lang + "-"@ + version);
        let d = lang.len() as int;
        assert(rest[d] == '-');
        assert forall|j: int| d < j < rest.len() implies #[trigger] rest[j] != '-' by {
            assert(rest[j] == version[j - d - 1]);
        }
        let w = choose|w: int| 0 <= w < rest.len() && rest[w] == '-' && forall|j: int| w < j < rest.len() ==> #[trigger] rest[j] != '-';
        assert(w == d) by {
            if w < d {
                assert(rest[d] == '-');
            }
        }
        assert(rest.take(d) =~= lang);
    }
}

fn last_dash_index(s: &[char]) -> (r: Option<usize>)
    ensures
        match r {
            Some(i) => last_dash(s@) == Some(i as int),
            None => last_dash(s@) is None,
        },
{
    let mut i: usize = s.len();
    while i > 0
        invariant
            i <= s@.len(),
            forall|j: int| i <= j < s@.len() ==> #[trigger] s@[j] != '-',
        decreases i,
    {
        if s[i - 1] == '-' {
            let k = i - 1;
            proof {
                let w = choose|w: int| 0 <= w < s@.len() && s@[w] == '-' && forall|j: int| w < j < s@.len() ==> #[trigger] s@[j] != '-';
                assert(w == k) by {
                    if w < k {
                        assert(s@[k as int] == '-');
                    }
                }
            }
            return Some(k);
        }
        i -= 1;
    }
    None
}

/// The language an asset name announces, if it is an index asset name.
pub fn language_of_asset(name: &str) -> (r: Option<String>)
    ensures
        match r {
            Some(l) => asset_language(name@) == Some(l@),
            None => asset_language(name@) is None,
        },
{
    if !starts_with(name, INDEX_ASSET_PREFIX) {
        return None;
    }
    let n = chars_of(name);
    let p = chars_of(INDEX_ASSET_PREFIX);
    let rest = &n.as_slice()[p.len()..n.len()];
    assert(rest@ =~= name@.skip(INDEX_ASSET_PREFIX@.len() as int));
    match last_dash_index(rest) {
        Some(i) => {
            let lang = &rest[0..i];
            assert(lang@ =~= rest@.take(i as int));
            Some(string_of(lang))
        },
        None => None,
    }
}

/// The languages a release has index assets for, sorted and without duplicates.
pub fn available_languages(release: &Release) -> (r: Vec<String>)
    ensures
        strictly_increasing(views(r@)),
        forall|l: Seq<char>| has_text(views(r@), l) <==> offers_language(release.assets@, l),
{
    let mut langs: Vec<String> = Vec::new();
    let mut i: usize = 0;
    while i < release.assets.len()
        invariant
            i <= release.assets@.len(),
            forall|l: Seq<char>| has_text(views(langs@), l) <==> exists|k: int| 0 <= k < i && asset_language(#[trigger] release.assets@[k].name@) == Some(l),
        decreases release.assets@.len() - i,
    {
        let ghost before = views(langs@);
        match language_of_asset(release.assets[i].name.as_str()) {
            Some(l) => {
                langs.push(l);
                proof {
                    let now = views(langs@);
                    assert(now =~= before.push(l@));
                    assert forall|x: Seq<char>| has_text(now, x) <==> exists|k: int| 0 <= k < i + 1 && asset_language(#[trigger] release.assets@[k].name@) == Some(x) by {
                        if has_text(now, x) {
                            let m = choose|m: int| 0 <= m < now.len() && now[m] == x;
                            if m < before.len() {
                                assert(before[m] == x);
                                assert(has_text(before, x));
                            } else {
                                assert(asset_language(release.assets@[i as int].name@) == Some(x));
                            }
                        }
                        if exists|k: int| 0 <= k < i + 1 && asset_language(#[trigger] release.assets@[k].name@) == Some(x) {
                            let k = choose|k: int| 0 <= k < i + 1 && asset_language(#[trigger] release.assets@[k].name@) == Some(x);
                            if k == i {
                                assert(now[before.len() as int] == x);
                            } else {
                                assert(has_text(before, x));
                                let m = choose|m: int| 0 <= m < before.len() && before[m] == x;
                                assert(now[m] == x);
                            }
                        }
                    }
                }
            },
            None => {},
        }
        i += 1;
    }
    sorted_unique(langs.as_slice())
}

/// Why no asset could be selected.
#[derive(Debug)]
pub enum SelectAssetError {
    InvalidLang(PathSegmentError),
    /// The release has no asset for the language; `available` lists the languages it has.
    NoAsset { tag: String, lang: String, available: Vec<String> },
}

impl SelectAssetError {
    pub open spec fn spec_message(&self) -> Seq<char> {
        match self {
            SelectAssetError::InvalidLang(e) => e.spec_message(),
            SelectAssetError::NoAsset { tag, lang, available } => "release "@ + tag@ + " has no index asset for "@
                + lang@ + ". Available languages: "@ + if available@.len() == 0 {
                "none"@
            } else {
                join_with(views(available@), ", "@)
            },
        }
    }

    /// The error text.
    pub fn message(&self) -> (r: String)
        ensures
            r@ == self.spec_message(),
    {
        match self {
            SelectAssetError::InvalidLang(e) => e.message(),
            SelectAssetError::NoAsset { tag, lang, available } => {
                let mut r = owned("release ");
                push_str(&mut r, tag.as_str());
                push_str(&mut r, " has no index asset for ");
                push_str(&mut r, lang.as_str());
                push_str(&mut r, ". Available languages: ");
                if available.len() == 0 {
                    push_str(&mut r, "none");
                } else {
                    let joined = join_strings(available.as_slice(), ", ");
                    push_str(&mut r, joined.as_str());
                }
                r
            },
        }
    }
}

/// Chooses the first asset of `release` named `packtrans-glossary-index-{lang}-…zip`.
pub fn select_asset<'a>(release: &'a Release, lang: &str) -> (r: Result<&'a ReleaseAsset, SelectAssetError>)
    ensures
        !is_valid_path_segment(lang@) ==> r matches Err(SelectAssetError::InvalidLang(_)),
        is_valid_path_segment(lang@) ==> match r {
            Ok(a) => exists|i: int| is_first_asset(release.assets@, lang@, i) && release.assets@[i] == *a,
            Err(SelectAssetError::NoAsset { tag, lang: l, available }) => {
                &&& forall|i: int| 0 <= i < release.assets@.len() ==> !is_asset_for(#[trigger] release.assets@[i].name@, lang@)
                &&& tag@ == release.tag_name@
                &&& l@ == lang@
                &&& strictly_increasing(views(available@))
                &&& forall|x: Seq<char>| has_text(views(available@), x) <==> offers_language(release.assets@, x)
            },
            Err(_) => false,
        },
{
    match validate_path_segment(lang, "lang") {
        Ok(()) => {},
        Err(e) => {
            return Err(SelectAssetError::InvalidLang(e));
        },
    }
    let mut prefix = owned(INDEX_ASSET_PREFIX);
    push_str(&mut prefix, lang);
    push_str(&mut prefix, "-");
    let mut i: usize = 0;
    while i < release.assets.len()
        invariant
            i <= release.assets@.len(),
            prefix@ == asset_prefix(lang@),
            is_valid_path_segment(lang@),
            forall|j: int| 0 <= j < i ==> !is_asset_for(#[trigger] release.assets@[j].name@, lang@),
        decreases release.assets@.len() - i,
    {
        let name = release.assets[i].name.as_str();
        if starts_with(name, prefix.as_str()) && ends_with(name, ".zip") {
            assert(is_first_asset(release.assets@, lang@, i as int));
            return Ok(&release.assets[i]);
        }
        i += 1;
    }
    Err(SelectAssetError::NoAsset {
        tag: release.tag_name.clone(),
        lang: owned(lang),
        available: available_languages(release),
    })
}


/// The sort key of an entry: version, then language.
pub open spec fn entry_key(e: (Seq<char>, Seq<char>, Seq<char>)) -> (Seq<char>, Seq<char>) {
    (e.1, e.0)
}

/// `r` is `entries` sorted stably by version, then language.
pub open spec fn sorted_by_version_then_lang(
    entries: Seq<(Seq<char>, Seq<char>, Seq<char>)>,
    r: Seq<(Seq<char>, Seq<char>, Seq<char>)>,
) -> bool {
    exists|p: Seq<usize>|
        is_stable_order(entries.map_values(|e: (Seq<char>, Seq<char>, Seq<char>)| entry_key(e)), p)
            && r.len() == p.len() && forall|i: int| 0 <= i < r.len() ==> #[trigger] r[i] == entries[p[i] as int]
}

/// A list sorted by version, then language, holds the same entries (each position of the input
/// used once), with versions in increasing order and, within one version, languages in
/// increasing order.
pub proof fn lemma_sorted_entries(
    entries: Seq<(Seq<char>, Seq<char>, Seq<char>)>,
    r: Seq<(Seq<char>, Seq<char>, Seq<char>)>,
)
    requires
        sorted_by_version_then_lang(entries, r),
    ensures
        r.len() == entries.len(),
        forall|i: int| 0 <= i < r.len() ==> entries.contains(#[trigger] r[i]),
        forall|i: int, j: int| 0 <= i < j < r.len() ==> chars_le((#[trigger] r[i]).1, (#[trigger] r[j]).1),
        forall|i: int, j: int| 0 <= i < j < r.len() && (#[trigger] r[i]).1 == (#[trigger] r[j]).1
            ==> chars_le(r[i].0, r[j].0),
{
    let keys = entries.map_values(|e: (Seq<char>, Seq<char>, Seq<char>)| entry_key(e));
    let p = choose|p: Seq<usize>| is_stable_order(keys, p) && r.len() == p.len()
        && forall|i: int| 0 <= i < r.len() ==> #[trigger] r[i] == entries[p[i] as int];
    assert forall|i: int| 0 <= i < r.len() implies entries.contains(#[trigger] r[i]) by {
        assert(r[i] == entries[p[i] as int]);
        assert(p[i] < keys.len());
    }
    assert forall|i: int, j: int| 0 <= i < j < r.len() implies chars_le((#[trigger] r[i]).1, (#[trigger] r[j]).1) by {
        assert(p[i] < keys.len() && p[j] < keys.len());
        assert(pair_le(keys[p[i] as int], keys[p[j] as int]));
        assert(r[i] == entries[p[i] as int]);
        assert(r[j] == entries[p[j] as int]);
        assert(keys[p[i] as int] == entry_key(entries[p[i] as int]));
        assert(keys[p[j] as int] == entry_key(entries[p[j] as int]));
        lemma_chars_le_refl(r[i].1);
    }
    assert forall|i: int, j: int| 0 <= i < j < r.len() && (#[trigger] r[i]).1 == (#[trigger] r[j]).1
        implies chars_le(r[i].0, r[j].0) by {
        assert(p[i] < keys.len() && p[j] < keys.len());
        assert(pair_le(keys[p[i] as int], keys[p[j] as int]));
        assert(r[i] == entries[p[i] as int]);
        assert(r[j] == entries[p[j] as int]);
        assert(keys[p[i] as int] == entry_key(entries[p[i] as int]));
        assert(keys[p[j] as int] == entry_key(entries[p[j] as int]));
    }
}

/// Sorts entries by version, then language (stable).
pub fn sort_index_entries(entries: &[IndexEntry]) -> (r: Vec<IndexEntry>)
    ensures
        sorted_by_version_then_lang(entries_view(entries@), entries_view(r@)),
{
    let ghost ev = entries_view(entries@);
    let mut keys: Vec<(String, String)> = Vec::new();
    let mut i: usize = 0;
    while i < entries.len()
        invariant
            i <= entries@.len(),
            ev == entries_view(entries@),
            keys_view(keys@) == ev.take(i as int).map_values(|e: (Seq<char>, Seq<char>, Seq<char>)| entry_key(e)),
        decreases entries@.len() - i,
    {
        let ghost before = keys_view(keys@);
        keys.push((entries[i].version.clone(), entries[i].lang.clone()));
        proof {
            assert(keys_view(keys@) =~= before.push(entry_key(ev[i as int])));
            assert(ev.take(i + 1).map_values(|e: (Seq<char>, Seq<char>, Seq<char>)| entry_key(e)) =~= ev.take(i as int).map_values(|e: (Seq<char>, Seq<char>, Seq<char>)| entry_key(e)).push(entry_key(ev[i as int])));
        }
        i += 1;
    }
    assert(ev.take(entries@.len() as int) =~= ev);
    let p = stable_order(keys.as_slice());
    let mut out: Vec<IndexEntry> = Vec::new();
    let mut j: usize = 0;
    while j < p.len()
        invariant
            j <= p@.len(),
            ev == entries_view(entries@),
            p@.len() == entries@.len(),
            forall|a: int| 0 <= a < p@.len() ==> (#[trigger] p@[a]) < entries@.len(),
            out@.len() == j,
            forall|a: int| 0 <= a < j ==> #[trigger] entries_view(out@)[a] == ev[p@[a] as int],
        decreases p@.len() - j,
    {
        let e = &entries[p[j]];
        let ghost before = entries_view(out@);
        out.push(IndexEntry { lang: e.lang.clone(), version: e.version.clone(), path: e.path.clone() });
        proof {
            assert(entries_view(out@) =~= before.push(ev[p@[j as int] as int]));
        }
        j += 1;
    }
    proof {
        let k = ev.map_values(|e: (Seq<char>, Seq<char>, Seq<char>)| entry_key(e));
        assert(k == keys_view(keys@));
        assert(sorted_by_version_then_lang(ev, entries_view(out@)));
    }
    out
}

/// The installed indexes among the directories found under `.downloaded/{version}/`: those
/// whose language directory does not start with `.` (in-progress installs), sorted by
/// version, then language.
pub open spec fn installed_view(found: Seq<(Seq<char>, Seq<char>, Seq<char>)>) -> Seq<(Seq<char>, Seq<char>, Seq<char>)> {
    found.filter(|e: (Seq<char>, Seq<char>, Seq<char>)| !has_prefix(e.0, "."@))
}

/// The installed indexes keep exactly the entries whose language directory does not start with
/// `.`.
pub proof fn lemma_installed_entries(found: Seq<(Seq<char>, Seq<char>, Seq<char>)>, e: (Seq<char>, Seq<char>, Seq<char>))
    ensures
        installed_view(found).contains(e) <==> found.contains(e) && !has_prefix(e.0, "."@),
{
    let pred = |x: (Seq<char>, Seq<char>, Seq<char>)| !has_prefix(x.0, "."@);
    if installed_view(found).contains(e) {
        let k = choose|k: int| 0 <= k < installed_view(found).len() && installed_view(found)[k] == e;
        found.lemma_filter_pred(pred, k);
        found.lemma_filter_contains_rev(pred, installed_view(found)[k]);
    }
    if found.contains(e) && !has_prefix(e.0, "."@) {
        let k = choose|k: int| 0 <= k < found.len() && found[k] == e;
        found.lemma_filter_contains(pred, k);
    }
}

/// Keeps the real installs among `found` and sorts them by version, then language.
pub fn installed_indexes(found: &[IndexEntry]) -> (r: Vec<IndexEntry>)
    ensures
        sorted_by_version_then_lang(installed_view(entries_view(found@)), entries_view(r@)),
{
    let ghost fv = entries_view(found@);
    let mut kept: Vec<IndexEntry> = Vec::new();
    let mut i: usize = 0;
    while i < found.len()
        invariant
            i <= found@.len(),
            fv == entries_view(found@),
            entries_view(kept@) == installed_view(fv.take(i as int)),
        decreases found@.len() - i,
    {
        let e = &found[i];
        proof {
            assert(fv.take(i + 1).drop_last() =~= fv.take(i as int));
            reveal_with_fuel(Seq::filter, 1);
        }
        if !starts_with(e.lang.as_str(), ".") {
            let ghost before = entries_view(kept@);
            kept.push(IndexEntry { lang: e.lang.clone(), version: e.version.clone(), path: e.path.clone() });
            assert(entries_view(kept@) =~= before.push(fv[i as int]));
        }
        i += 1;
    }
    assert(fv.take(found@.len() as int) =~= fv);
    sort_index_entries(kept.as_slice())
}

/// Position of the last entry for `lang`.
pub open spec fn last_for_lang(entries: Seq<(Seq<char>, Seq<char>, Seq<char>)>, lang: Seq<char>) -> Option<int> {
    if exists|i: int| 0 <= i < entries.len() && entries[i].0 == lang && forall|j: int| i < j < entries.len() ==> (#[trigger] entries[j]).0 != lang {
        Some(choose|i: int| 0 <= i < entries.len() && entries[i].0 == lang && forall|j: int| i < j < entries.len() ==> (#[trigger] entries[j]).0 != lang)
    } else {
        None
    }
}

/// The latest entry for a language is the last one with that language: nothing after it has
/// the language, and with none, no entry has it.
pub proof fn lemma_last_for_lang(entries: Seq<(Seq<char>, Seq<char>, Seq<char>)>, lang: Seq<char>)
    ensures
        last_for_lang(entries, lang) matches Some(i) ==> 0 <= i < entries.len() && entries[i].0 == lang
            && forall|j: int| i < j < entries.len() ==> (#[trigger] entries[j]).0 != lang,
        last_for_lang(entries, lang) is None ==> forall|j: int| 0 <= j < entries.len() ==> (#[trigger] entries[j]).0 != lang,
{
    if last_for_lang(entries, lang) is None {
        assert forall|j: int| 0 <= j < entries.len() implies (#[trigger] entries[j]).0 != lang by {
            if entries[j].0 == lang {
                lemma_some_last_for_lang(entries, lang, j);
            }
        }
    }
}

proof fn lemma_some_last_for_lang(entries: Seq<(Seq<char>, Seq<char>, Seq<char>)>, lang: Seq<char>, j: int)
    requires
        0 <= j < entries.len(),
        entries[j].0 == lang,
    ensures
        exists|i: int| 0 <= i < entries.len() && entries[i].0 == lang && forall|m: int| i < m < entries.len()
            ==> (#[trigger] entries[m]).0 != lang,
    decreases entries.len() - j,
{
    if exists|m: int| j < m < entries.len() && (#[trigger] entries[m]).0 == lang {
        let m = choose|m: int| j < m < entries.len() && (#[trigger] entries[m]).0 == lang;
        lemma_some_last_for_lang(entries, lang, m);
    } else {
        assert(forall|m: int| j < m < entries.len() ==> (#[trigger] entries[m]).0 != lang);
    }
}

/// The latest installed entry for `lang` in a list sorted by version: the last one with that
/// language.
pub fn latest_installed_for_lang(entries: &[IndexEntry], lang: &str) -> (r: Result<Option<usize>, PathSegmentError>)
    ensures
        r is Err <==> !is_valid_path_segment(lang@),
        r matches Ok(Some(i)) ==> last_for_lang(entries_view(entries@), lang@) == Some(i as int),
        r matches Ok(None) ==> last_for_lang(entries_view(entries@), lang@) is None,
{
    validate_path_segment(lang, "lang")?;
    let ghost ev = entries_view(entries@);
    let mut i: usize = entries.len();
    while i > 0
        invariant
            i <= entries@.len(),
            ev == entries_view(entries@),
            is_valid_path_segment(lang@),
            forall|j: int| i <= j < ev.len() ==> (#[trigger] ev[j]).0 != lang@,
        decreases i,
    {
        if str_eq(entries[i - 1].lang.as_str(), lang) {
            let k = i - 1;
            proof {
                assert(ev[k as int].0 == lang@);
                let w = choose|w: int| 0 <= w < ev.len() && ev[w].0 == lang@ && forall|j: int| w < j < ev.len() ==> (#[trigger] ev[j]).0 != lang@;
                assert(w == k) by {
                    if w < k {
                        assert(ev[k as int].0 != lang@);
                    }
                }
            }
            return Ok(Some(k));
        }
        i -= 1;
    }
    Ok(None)
}

/// The versions among `found` other than `keep`, in the order found.
pub open spec fn stale_view(found: Seq<Seq<char>>, keep: Seq<char>) -> Seq<Seq<char>> {
    found.filter(|v: Seq<char>| v != keep)
}

/// The versions to remove are exactly the versions found other than the one kept.
pub proof fn lemma_stale_versions(found: Seq<Seq<char>>, keep: Seq<char>, x: Seq<char>)
    ensures
        stale_view(found, keep).contains(x) <==> found.contains(x) && x != keep,
        !stale_view(found, keep).contains(keep),
    decreases found.len(),
{
    if found.len() > 0 {
        let rest = found.drop_last();
        let last = found.last();
        lemma_stale_versions(rest, keep, x);
        reveal(Seq::filter);
        let r = stale_view(rest, keep);
        let all = stale_view(found, keep);
        assert(all == if last != keep { r.push(last) } else { r });
        if all.contains(x) {
            let k = choose|k: int| 0 <= k < all.len() && all[k] == x;
            if k < r.len() {
                assert(r[k] == x);
                let m = choose|m: int| 0 <= m < rest.len() && rest[m] == x;
                assert(found[m] == x);
            } else {
                assert(found[found.len() - 1] == x);
            }
        }
        if found.contains(x) && x != keep {
            let m = choose|m: int| 0 <= m < found.len() && found[m] == x;
            if m < rest.len() {
                assert(rest[m] == x);
                let k = choose|k: int| 0 <= k < r.len() && r[k] == x;
                assert(all[k] == x);
            } else {
                assert(all[all.len() - 1] == x);
            }
        }
        if all.contains(keep) {
            let k = choose|k: int| 0 <= k < all.len() && all[k] == keep;
            if k < r.len() {
                assert(r[k] == keep);
            }
        }
    }
}

/// The version directories to remove when keeping only `keep` (in the order found), after
/// checking that `keep` is a single path segment.
pub fn stale_versions(found: &[String], keep: &str) -> (r: Result<Vec<String>, PathSegmentError>)
    ensures
        r is Err <==> !is_valid_path_segment(keep@),
        r matches Ok(v) ==> views(v@) == stale_view(views(found@), keep@),
{
    validate_path_segment(keep, "release tag")?;
    Ok(other_versions(found, keep))
}

/// The entries of `found` that differ from `keep`, in order.
pub fn other_versions(found: &[String], keep: &str) -> (r: Vec<String>)
    ensures
        views(r@) == stale_view(views(found@), keep@),
{
    let ghost fv = views(found@);
    let mut out: Vec<String> = Vec::new();
    let mut i: usize = 0;
    while i < found.len()
        invariant
            i <= found@.len(),
            fv == views(found@),
            views(out@) == stale_view(fv.take(i as int), keep@),
        decreases found@.len() - i,
    {
        proof {
            assert(fv.take(i + 1).drop_last() =~= fv.take(i as int));
            reveal_with_fuel(Seq::filter, 1);
        }
        if !str_eq(found[i].as_str(), keep) {
            let ghost before = views(out@);
            out.push(found[i].clone());
            assert(views(out@) =~= before.push(fv[i as int]));
        }
        i += 1;
    }
    assert(fv.take(found@.len() as int) =~= fv);
    out
}

/// `r` is `v` sorted (stably) in increasing order.
pub open spec fn sorted_strings(v: Seq<Seq<char>>, r: Seq<Seq<char>>) -> bool {
    exists|p: Seq<usize>|
        is_stable_order(v.map_values(|s: Seq<char>| (s, Seq::<char>::empty())), p)
            && r.len() == p.len() && forall|i: int| 0 <= i < r.len() ==> #[trigger] r[i] == v[p[i] as int]
}

/// Sorts strings in increasing order.
pub fn sort_strings(v: &[String]) -> (r: Vec<String>)
    ensures
        sorted_strings(views(v@), views(r@)),
{
    let ghost vv = views(v@);
    let mut keys: Vec<(String, String)> = Vec::new();
    let mut i: usize = 0;
    while i < v.len()
        invariant
            i <= v@.len(),
            vv == views(v@),
            keys_view(keys@) == vv.take(i as int).map_values(|s: Seq<char>| (s, Seq::<char>::empty())),
        decreases v@.len() - i,
    {
        let ghost before = keys_view(keys@);
        keys.push((v[i].clone(), String::new()));
        proof {
            assert(keys_view(keys@) =~= before.push((vv[i as int], Seq::<char>::empty())));
            assert(vv.take(i + 1).map_values(|s: Seq<char>| (s, Seq::<char>::empty())) =~= vv.take(i as int).map_values(|s: Seq<char>| (s, Seq::<char>::empty())).push((vv[i as int], Seq::<char>::empty())));
        }
        i += 1;
    }
    assert(vv.take(v@.len() as int) =~= vv);
    let p = stable_order(keys.as_slice());
    let mut out: Vec<String> = Vec::new();
    let mut j: usize = 0;
    while j < p.len()
        invariant
            j <= p@.len(),
            vv == views(v@),
            p@.len() == v@.len(),
            forall|a: int| 0 <= a < p@.len() ==> (#[trigger] p@[a]) < v@.len(),
            out@.len() == j,
            forall|a: int| 0 <= a < j ==> #[trigger] views(out@)[a] == vv[p@[a] as int],
        decreases p@.len() - j,
    {
        let ghost before = views(out@);
        out.push(v[p[j]].clone());
        proof {
            assert(views(out@) =~= before.push(vv[p@[j as int] as int]));
        }
        j += 1;
    }
    proof {
        assert(sorted_strings(vv, views(out@)));
    }
    out
}
/// `index download --lang L` and `index upgrade --lang L`.
#[derive(Debug)]
pub struct IndexDownloadCommand {
    pub lang: String,
}

/// `index delete --lang L [--version V]`.
#[derive(Debug)]
pub struct IndexDeleteCommand {
    pub lang: String,
    /// The release to delete; the latest installed one for the language when absent.
    pub version: Option<String>,
}

/// `index clean [--keep-version V]`.
#[derive(Debug)]
pub struct IndexCleanCommand {
    /// The release to keep; the latest published release when absent.
    pub keep_version: Option<String>,
}

/// The `index` subcommands.
#[derive(Debug)]
pub enum IndexCommand {
    Download(IndexDownloadCommand),
    Upgrade(IndexDownloadCommand),
    Ls,
    Delete(IndexDeleteCommand),
    Clean(IndexCleanCommand),
}

/// Why `index delete` cannot name a release to delete.
#[derive(Debug)]
pub enum IndexDeleteError {
    /// The language is not a single path segment.
    Lang(PathSegmentError),
    /// No version was given and nothing is installed for the language (holds it).
    NotInstalled(String),
}

impl IndexDeleteError {
    pub open spec fn spec_message(&self) -> Seq<char> {
        match self {
            IndexDeleteError::Lang(e) => e.spec_message(),
            IndexDeleteError::NotInstalled(lang) => "no downloaded index installed for "@ + lang@,
        }
    }

    /// The error text.
    pub fn message(&self) -> (r: String)
        ensures
            r@ == self.spec_message(),
    {
        match self {
            IndexDeleteError::Lang(e) => e.message(),
            IndexDeleteError::NotInstalled(lang) => {
                let mut r = owned("no downloaded index installed for ");
                push_str(&mut r, lang.as_str());
                r
            },
        }
    }
}

/// The release `index delete` removes: the one given, else the latest installed for the
/// language among `installed` (sorted by version).
pub fn version_to_delete(cmd: &IndexDeleteCommand, installed: &[IndexEntry]) -> (r: Result<String, IndexDeleteError>)
    ensures
        !is_valid_path_segment(cmd.lang@) ==> r matches Err(IndexDeleteError::Lang(_)),
        is_valid_path_segment(cmd.lang@) ==> match cmd.version {
            Some(v) => r matches Ok(x) && x@ == v@,
            None => match last_for_lang(entries_view(installed@), cmd.lang@) {
                Some(i) => r matches Ok(x) && x@ == installed@[i].version@,
                None => r matches Err(IndexDeleteError::NotInstalled(l)) && l@ == cmd.lang@,
            },
        },
{
    match validate_path_segment(cmd.lang.as_str(), "lang") {
        Ok(()) => {},
        Err(e) => {
            return Err(IndexDeleteError::Lang(e));
        },
    }
    match &cmd.version {
        Some(v) => Ok(v.clone()),
        None => match latest_installed_for_lang(installed, cmd.lang.as_str()) {
            Ok(Some(i)) => Ok(installed[i].version.clone()),
            Ok(None) => Err(IndexDeleteError::NotInstalled(cmd.lang.clone())),
            Err(e) => Err(IndexDeleteError::Lang(e)),
        },
    }
}

/// Largest latest-release response read.
pub const MAX_RELEASE_BODY_BYTES: usize = 2097152;

/// `true` when a latest-release response of `len` bytes is refused as too large.
pub fn release_body_too_large(len: usize) -> (r: bool)
    ensures
        r == (len > MAX_RELEASE_BODY_BYTES),
{
    len > MAX_RELEASE_BODY_BYTES
}

/// A latest-release description that cannot be used.
#[derive(Debug)]
pub enum ReleaseParseError {
    MissingTagName,
    /// The tag is not a single path segment.
    BadTag(PathSegmentError),
    MissingAssets,
}

impl ReleaseParseError {
    pub open spec fn spec_message(&self) -> Seq<char> {
        match self {
            ReleaseParseError::MissingTagName => "latest glossary index release did not include tag_name"@,
            ReleaseParseError::BadTag(e) => e.spec_message(),
            ReleaseParseError::MissingAssets => "latest glossary index release did not include assets"@,
        }
    }

    /// The error text.
    pub fn message(&self) -> (r: String)
        ensures
            r@ == self.spec_message(),
    {
        match self {
            ReleaseParseError::MissingTagName => owned("latest glossary index release did not include tag_name"),
            ReleaseParseError::BadTag(e) => e.message(),
            ReleaseParseError::MissingAssets => owned("latest glossary index release did not include assets"),
        }
    }
}

/// The asset described by a JSON value: its `name` and `browser_download_url`, when both are
/// strings.
pub open spec fn asset_of(v: JsonValue) -> Option<(Seq<char>, Seq<char>)> {
    match (member_str(v, "name"@), member_str(v, "browser_download_url"@)) {
        (Some(n), Some(u)) => Some((n, u)),
        _ => None,
    }
}

/// A release asset's name is its `name` member and its download address its
/// `browser_download_url` member; without both there is no asset.
pub proof fn lemma_asset_fields(v: JsonValue)
    ensures
        asset_of(v) matches Some(a) ==> member_str(v, "name"@) == Some(a.0)
            && member_str(v, "browser_download_url"@) == Some(a.1),
        asset_of(v) is None <==> (member_str(v, "name"@) is None || member_str(v, "browser_download_url"@) is None),
{
}

/// The assets described by a list of JSON values, skipping those that are incomplete.
pub open spec fn assets_of(parts: Seq<JsonValue>) -> Seq<(Seq<char>, Seq<char>)>
    decreases parts.len(),
{
    if parts.len() == 0 {
        Seq::empty()
    } else {
        let rest = assets_of(parts.drop_last());
        match asset_of(parts.last()) {
            Some(a) => rest.push(a),
            None => rest,
        }
    }
}

/// Views of release assets as (name, download address).
pub open spec fn assets_view(v: Seq<ReleaseAsset>) -> Seq<(Seq<char>, Seq<char>)> {
    v.map_values(|a: ReleaseAsset| (a.name@, a.browser_download_url@))
}

/// Reads a latest-release description: its `tag_name` (a string that must be a single path
/// segment) and the complete entries of its `assets` array, in order.
pub fn release_from_json(value: &JsonValue) -> (r: Result<Release, ReleaseParseError>)
    ensures
        member_str(*value, "tag_name"@) is None ==> r matches Err(ReleaseParseError::MissingTagName),
        member_str(*value, "tag_name"@) matches Some(t) ==> {
            if !is_valid_path_segment(t) {
                r matches Err(ReleaseParseError::BadTag(e)) && e.spec_message()
                    == crate::util::segment_error_message("release tag"@, t)
            } else {
                match member_array(*value, "assets"@) {
                    None => r matches Err(ReleaseParseError::MissingAssets),
                    Some(parts) => r matches Ok(rel) && rel.tag_name@ == t
                        && assets_view(rel.assets@) == assets_of(parts),
                }
            }
        },
{
    let tag = match member_string(value, "tag_name") {
        Some(t) => t,
        None => {
            return Err(ReleaseParseError::MissingTagName);
        },
    };
    match validate_path_segment(tag.as_str(), "release tag") {
        Ok(()) => {},
        Err(e) => {
            return Err(ReleaseParseError::BadTag(e));
        },
    }
    let parts = match member_elements(value, "assets") {
        Some(a) => a,
        None => {
            return Err(ReleaseParseError::MissingAssets);
        },
    };
    let mut assets: Vec<ReleaseAsset> = Vec::new();
    let mut i: usize = 0;
    while i < parts.len()
        invariant
            i <= parts@.len(),
            assets_view(assets@) == assets_of(parts@.take(i as int)),
        decreases parts@.len() - i,
    {
        let part = &parts[i];
        proof {
            assert(parts@.take(i + 1).drop_last() =~= parts@.take(i as int));
            assert(parts@.take(i + 1).last() == parts@[i as int]);
        }
        match (member_string(part, "name"), member_string(part, "browser_download_url")) {
            (Some(n), Some(u)) => {
                let ghost before = assets_view(assets@);
                assets.push(ReleaseAsset { name: n.clone(), browser_download_url: u.clone() });
                assert(assets_view(assets@) =~= before.push((n@, u@)));
            },
            _ => {},
        }
        i += 1;
    }
    assert(parts@.take(parts@.len() as int) =~= parts@);
    Ok(Release { tag_name: tag.clone(), assets })
}

/// The description written next to an installed index: where it came from.
pub open spec fn metadata_view(tag: Seq<char>, asset_name: Seq<char>, url: Seq<char>) -> Seq<(Seq<char>, Seq<char>)> {
    seq![
        ("repository"@, "packtrans/glossary-indexes"@),
        ("tag_name"@, tag),
        ("asset_name"@, asset_name),
        ("browser_download_url"@, url),
    ]
}

/// The string members of a JSON object, as (key, text) pairs; `None` when some member is not
/// a string.
pub open spec fn string_members(entries: Seq<(String, JsonValue)>) -> Option<Seq<(Seq<char>, Seq<char>)>>
    decreases entries.len(),
{
    if entries.len() == 0 {
        Some(Seq::empty())
    } else {
        match (string_members(entries.drop_last()), entries.last().1) {
            (Some(rest), JsonValue::String(s)) => Some(rest.push((entries.last().0@, s@))),
            _ => None,
        }
    }
}

/// The JSON object written to [`INDEX_METADATA_FILE`] for an index installed from `asset` of
/// the release tagged `tag`.
pub fn index_metadata(tag: &str, asset: &ReleaseAsset) -> (r: JsonValue)
    ensures
        r matches JsonValue::Object(entries) && string_members(entries@)
            == Some(metadata_view(tag@, asset.name@, asset.browser_download_url@)),
{
    let mut entries: Vec<(String, JsonValue)> = Vec::new();
    entries.push((owned("repository"), JsonValue::String(owned("packtrans/glossary-indexes"))));
    entries.push((owned("tag_name"), JsonValue::String(owned(tag))));
    entries.push((owned("asset_name"), JsonValue::String(asset.name.clone())));
    entries.push((owned("browser_download_url"), JsonValue::String(asset.browser_download_url.clone())));
    proof {
        let e = entries@;
        assert(e.drop_last().drop_last().drop_last().drop_last() =~= Seq::<(String, JsonValue)>::empty());
        assert(e.drop_last().drop_last().drop_last().last() == e[0]);
        assert(e.drop_last().drop_last().last() == e[1]);
        assert(e.drop_last().last() == e[2]);
        reveal_with_fuel(string_members, 5);
        assert(string_members(e) =~= Some(metadata_view(tag@, asset.name@, asset.browser_download_url@)));
    }
    JsonValue::Object(entries)
}

/// Where an install of `lang` from the release `tag` works, for process `pid`.
#[derive(Debug)]
pub struct InstallPaths {
    /// `{root}/.downloaded/{tag}`.
    pub version_dir: String,
    /// `{root}/.tmp/{tag}-{lang}-{pid}`: scratch space, removed afterwards.
    pub work_dir: String,
    /// The downloaded archive, in the scratch space.
    pub zip_path: String,
    /// Where the archive is unpacked.
    pub extract_dir: String,
    /// The language directory the archive must hold.
    pub extracted_index_dir: String,
    /// `{version_dir}/.{lang}.tmp-{pid}`: the index before it is moved into place.
    pub temp_index_dir: String,
    /// `{version_dir}/{lang}`: the installed index.
    pub final_index_dir: String,
}

/// The scratch directory name of an install.
pub open spec fn work_name(tag: Seq<char>, lang: Seq<char>, pid: u32) -> Seq<char> {
    tag + "-"@ + lang + "-"@ + decimal(pid as nat)
}

/// The paths an install of `lang` from the asset `asset_name` of release `tag` uses, under
/// the index root `root`, for process `pid`.
pub fn install_paths(root: &str, tag: &str, lang: &str, asset_name: &str, pid: u32) -> (r: InstallPaths)
    ensures
        r.version_dir@ == joined(joined(root@, DOWNLOADED_INDEXES_DIR@), tag@),
        r.work_dir@ == joined(joined(root@, ".tmp"@), work_name(tag@, lang@, pid)),
        r.zip_path@ == joined(r.work_dir@, asset_name@),
        r.extract_dir@ == joined(r.work_dir@, "extract"@),
        r.extracted_index_dir@ == joined(r.extract_dir@, lang@),
        r.temp_index_dir@ == joined(r.version_dir@, "."@ + lang@ + ".tmp-"@ + decimal(pid as nat)),
        r.final_index_dir@ == joined(r.version_dir@, lang@),
{
    let downloaded = downloaded_indexes_root(root);
    let version_dir = join_path(downloaded.as_str(), tag);
    let mut name = owned(tag);
    push_str(&mut name, "-");
    push_str(&mut name, lang);
    push_str(&mut name, "-");
    push_usize(&mut name, pid as usize);
    let tmp = join_path(root, ".tmp");
    let work_dir = join_path(tmp.as_str(), name.as_str());
    let zip_path = join_path(work_dir.as_str(), asset_name);
    let extract_dir = join_path(work_dir.as_str(), "extract");
    let extracted_index_dir = join_path(extract_dir.as_str(), lang);
    let mut temp_name = owned(".");
    push_str(&mut temp_name, lang);
    push_str(&mut temp_name, ".tmp-");
    push_usize(&mut temp_name, pid as usize);
    let temp_index_dir = join_path(version_dir.as_str(), temp_name.as_str());
    let final_index_dir = join_path(version_dir.as_str(), lang);
    InstallPaths { version_dir, work_dir, zip_path, extract_dir, extracted_index_dir, temp_index_dir, final_index_dir }
}

/// The step of index resolution that failed.
#[derive(Debug, Clone, Copy, PartialEq, Eq, Structural)]
pub enum ReleaseStage {
    /// Finding the latest release.
    Check,
    /// Downloading and installing its index.
    Download,
}

/// The words naming a failed step in messages.
pub open spec fn stage_words(stage: ReleaseStage) -> Seq<char> {
    match stage {
        ReleaseStage::Check => "check"@,
        ReleaseStage::Download => "download"@,
    }
}

/// An installed index used in place of the latest release.
#[derive(Debug)]
pub struct Fallback {
    /// Position of the installed index in the list it was chosen from.
    pub index: usize,
    /// The warning to print.
    pub warning: String,
}

/// When a step of getting the latest release index for `lang` failed with message `failure`,
/// falls back to the latest installed index for `lang` among `installed` (sorted by version),
/// with a warning; with none installed, returns the message that explains the failure.
pub fn fallback_to_installed(installed: &[IndexEntry], lang: &str, stage: ReleaseStage, failure: &str) -> (r: Result<Fallback, String>)
    requires
        is_valid_path_segment(lang@),
    ensures
        match last_for_lang(entries_view(installed@), lang@) {
            Some(i) => r matches Ok(f) && f.index == i && f.warning@ == "warning: failed to "@
                + stage_words(stage) + " latest index release ("@ + failure@ + "); using installed "@
                + installed@[i].lang@ + "@"@ + installed@[i].version@,
            None => r matches Err(m) && m@ == "failed to "@ + stage_words(stage)
                + " latest index release and no local index is installed"@,
        },
{
    let words = match stage {
        ReleaseStage::Check => "check",
        ReleaseStage::Download => "download",
    };
    match latest_installed_for_lang(installed, lang) {
        Ok(Some(i)) => {
            let mut w = owned("warning: failed to ");
            push_str(&mut w, words);
            push_str(&mut w, " latest index release (");
            push_str(&mut w, failure);
            push_str(&mut w, "); using installed ");
            push_str(&mut w, installed[i].lang.as_str());
            push_str(&mut w, "@");
            push_str(&mut w, installed[i].version.as_str());
            Ok(Fallback { index: i, warning: w })
        },
        _ => {
            let mut m = owned("failed to ");
            push_str(&mut m, words);
            push_str(&mut m, " latest index release and no local index is installed");
            Err(m)
        },
    }
}


/// Seconds that must pass between two checks for the latest release.
pub const RELEASE_CHECK_INTERVAL_SECS: u64 = 86400;

/// The member of the index root's `meta.json` holding when the latest release was last checked
/// (seconds since the Unix epoch).
pub const LAST_RELEASE_CHECK_KEY: &'static str = "last_release_check";

/// When `meta` records the last check for the latest release.
pub open spec fn last_check_of(meta: JsonValue) -> Option<nat> {
    match member(meta, LAST_RELEASE_CHECK_KEY@) {
        Some(v) => u64_value(v),
        None => None,
    }
}

/// `true` when a check for the latest release is due at `now`: none was recorded, the clock
/// went back, or a whole interval has passed since the last one.
pub open spec fn release_check_due(last: Option<nat>, now: nat) -> bool {
    match last {
        None => true,
        Some(t) => now < t || now - t >= RELEASE_CHECK_INTERVAL_SECS,
    }
}

/// The time of the last release check recorded in the index root's `meta.json`.
pub fn last_release_check(meta: &JsonValue) -> (r: Option<u64>)
    ensures
        match r {
            Some(t) => last_check_of(*meta) == Some(t as nat),
            None => last_check_of(*meta) is None,
        },
{
    match get_member(meta, LAST_RELEASE_CHECK_KEY) {
        Some(v) => u64_of(v),
        None => None,
    }
}

/// The index root's `meta.json` recording a release check at `now`.
pub fn release_check_meta(now: u64) -> (r: JsonValue)
    ensures
        last_check_of(r) == Some(now as nat),
{
    let mut entries: Vec<(String, JsonValue)> = Vec::new();
    let v = u64_number(now);
    proof {
        lemma_u64_number_round_trip(now, v);
    }
    entries.push((owned(LAST_RELEASE_CHECK_KEY), v));
    let ghost e = entries@;
    let r = JsonValue::Object(entries);
    proof {
        assert(e.len() == 1);
        assert(is_first_key(e, LAST_RELEASE_CHECK_KEY@, 0));
        let i = choose|i: int| is_first_key(e, LAST_RELEASE_CHECK_KEY@, i);
        assert(i == 0);
        assert(member(r, LAST_RELEASE_CHECK_KEY@) == Some(v));
    }
    r
}

/// How a query finds its release index when no local index is given.
#[derive(Debug)]
pub enum ResolvePlan {
    /// Use this installed index (position in the list given) without checking for a release.
    UseInstalled(usize),
    /// Check for the latest release, and download it if needed.
    CheckRelease,
}

/// Decides whether resolving the index of `lang` checks for the latest release: at most once per
/// interval, when an index of `lang` is installed (`installed` sorted by version), the latest of
/// them is used instead.
pub fn resolution_plan(installed: &[IndexEntry], lang: &str, last_check: Option<u64>, now: u64) -> (r: ResolvePlan)
    requires
        is_valid_path_segment(lang@),
    ensures
        match last_for_lang(entries_view(installed@), lang@) {
            Some(i) => if release_check_due(
                match last_check { Some(t) => Some(t as nat), None => None },
                now as nat,
            ) {
                r is CheckRelease
            } else {
                r matches ResolvePlan::UseInstalled(j) && j == i
            },
            None => r is CheckRelease,
        },
{
    let due = match last_check {
        None => true,
        Some(t) => now < t || now - t >= RELEASE_CHECK_INTERVAL_SECS,
    };
    if due {
        return ResolvePlan::CheckRelease;
    }
    match latest_installed_for_lang(installed, lang) {
        Ok(Some(i)) => ResolvePlan::UseInstalled(i),
        _ => ResolvePlan::CheckRelease,
    }
}


/// A release check is due when none was recorded, when the clock reads earlier than the last
/// one, or once 86400 seconds (a day) have passed since it; within a day of the last check it
/// is not due. The last check is read from the `last_release_check` member, a non-negative
/// integer.
pub proof fn lemma_release_check_rules(last: nat, now: nat, meta: JsonValue)
    ensures
        release_check_due(None, now),
        now < last ==> release_check_due(Some(last), now),
        now >= last + 86400 ==> release_check_due(Some(last), now),
        last <= now < last + 86400 ==> !release_check_due(Some(last), now),
        last_check_of(meta) == match member(meta, "last_release_check"@) {
            Some(v) => u64_value(v),
            None => None,
        },
{
}


/// An install of `lang` from release `tag` by process `pid` works in `.tmp/{tag}-{lang}-{pid}`
/// under the index root, and an index asset name starts `packtrans-glossary-index-{lang}-`.
pub proof fn lemma_install_names(tag: Seq<char>, lang: Seq<char>, pid: u32)
    ensures
        work_name(tag, lang, pid) == tag + "-"@ + lang + "-"@ + decimal(pid as nat),
        asset_prefix(lang) == "packtrans-glossary-index-"@ + lang + "-"@,
        DOWNLOADED_INDEXES_DIR@ == ".downloaded"@,
{
}

} // verus!
