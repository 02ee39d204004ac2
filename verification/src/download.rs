//! Downloading mod language files: reading a mod list, where each download goes, which file
//! of a Modrinth version to fetch, and what Minecraft's launcher metadata points to. The
//! transfers themselves are left to the caller.

use vstd::prelude::*;
use crate::builder::{DownloadCommand, Platform};
use crate::json::{get_member, member, member_array, member_elements, member_str, member_string, JsonValue};
use crate::text::{decimal, ends_with, has_prefix, has_suffix, join_strings, join_with, owned, push_str, push_usize, str_eq, views};
use crate::util::{join_path, joined, sanitize_path_part, sanitized};

verus! {

/// One entry of a mod list file.
#[derive(Debug)]
pub struct ModEntry {
    pub id: String,
    pub slug: String,
    pub version_id: String,
}

impl ModEntry {
    pub open spec fn view3(&self) -> (Seq<char>, Seq<char>, Seq<char>) {
        (self.id@, self.slug@, self.version_id@)
    }
}

/// A mod list file that cannot be used.
#[derive(Debug)]
pub enum ModListFileError {
    /// The file is not a JSON array.
    NotArray,
    /// Item `index` lacks the string field `field`.
    MissingField { index: usize, field: String },
}

impl ModListFileError {
    pub open spec fn spec_message(&self) -> Seq<char> {
        match self {
            ModListFileError::NotArray => "mod list must be a JSON array"@,
            ModListFileError::MissingField { index, field } => "mod list item "@ + decimal(*index as nat)
                + " is missing string field "@ + field@,
        }
    }

    /// The error text.
    pub fn message(&self) -> (r: String)
        ensures
            r@ == self.spec_message(),
    {
        match self {
            ModListFileError::NotArray => owned("mod list must be a JSON array"),
            ModListFileError::MissingField { index, field } => {
                let mut r = owned("mod list item ");
                push_usize(&mut r, *index);
                push_str(&mut r, " is missing string field ");
                push_str(&mut r, field.as_str());
                r
            },
        }
    }
}

/// The first of the fields `id`, `slug`, `version_id` that item `v` lacks as a string.
pub open spec fn missing_field(v: JsonValue) -> Option<Seq<char>> {
    if member_str(v, "id"@) is None {
        Some("id"@)
    } else if member_str(v, "slug"@) is None {
        Some("slug"@)
    } else if member_str(v, "version_id"@) is None {
        Some("version_id"@)
    } else {
        None
    }
}

/// The entry an item describes.
pub open spec fn entry_fields(v: JsonValue) -> (Seq<char>, Seq<char>, Seq<char>) {
    (member_str(v, "id"@).unwrap(), member_str(v, "slug"@).unwrap(), member_str(v, "version_id"@).unwrap())
}

/// Reads a mod list: a JSON array whose items each have the string fields `id`, `slug` and
/// `version_id`. The first incomplete item (and the first field it lacks) is reported.
pub fn read_mod_list(json: &JsonValue) -> (r: Result<Vec<ModEntry>, ModListFileError>)
    ensures
        !(json is Array) ==> r matches Err(ModListFileError::NotArray),
        json matches JsonValue::Array(items) ==> match r {
            Ok(v) => v@.len() == items@.len() && forall|j: int| 0 <= j < items@.len() ==> {
                &&& missing_field(#[trigger] items@[j]) is None
                &&& v@[j].view3() == entry_fields(items@[j])
            },
            Err(ModListFileError::MissingField { index, field }) => {
                &&& index < items@.len()
                &&& missing_field(items@[index as int]) == Some(field@)
                &&& forall|j: int| 0 <= j < index ==> missing_field(#[trigger] items@[j]) is None
            },
            Err(ModListFileError::NotArray) => false,
        },
{
    let items = match json {
        JsonValue::Array(items) => items,
        _ => {
            return Err(ModListFileError::NotArray);
        },
    };
    let mut mods: Vec<ModEntry> = Vec::new();
    let mut i: usize = 0;
    while i < items.len()
        invariant
            i <= items@.len(),
            json matches JsonValue::Array(a) && a@ == items@,
            mods@.len() == i,
            forall|j: int| 0 <= j < i ==> {
                &&& missing_field(#[trigger] items@[j]) is None
                &&& mods@[j].view3() == entry_fields(items@[j])
            },
        decreases items@.len() - i,
    {
        let item = &items[i];
        let id = match member_string(item, "id") {
            Some(s) => s,
            None => {
                return Err(ModListFileError::MissingField { index: i, field: owned("id") });
            },
        };
        let slug = match member_string(item, "slug") {
            Some(s) => s,
            None => {
                return Err(ModListFileError::MissingField { index: i, field: owned("slug") });
            },
        };
        let version_id = match member_string(item, "version_id") {
            Some(s) => s,
            None => {
                return Err(ModListFileError::MissingField { index: i, field: owned("version_id") });
            },
        };
        mods.push(ModEntry { id: id.clone(), slug: slug.clone(), version_id: version_id.clone() });
        i += 1;
    }
    Ok(mods)
}

/// What a `download` command fetches, with the temporary directory resolved.
#[derive(Debug)]
pub enum DownloadPlan {
    Curseforge { list_file: String, output: String, temp_path: String },
    Modrinth { list_file: String, output: String, temp_path: String },
    Minecraft { output: String, temp_path: String },
}

/// A `download` command that cannot run.
#[derive(Debug)]
pub enum DownloadError {
    /// CurseForge and Modrinth downloads need a mod list; holds the platform's name.
    MissingListFile(String),
}

impl DownloadError {
    pub open spec fn spec_message(&self) -> Seq<char> {
        match self {
            DownloadError::MissingListFile(p) => "--list-file is required for "@ + p@ + " downloads"@,
        }
    }

    /// The error text.
    pub fn message(&self) -> (r: String)
        ensures
            r@ == self.spec_message(),
    {
        match self {
            DownloadError::MissingListFile(p) => {
                let mut r = owned("--list-file is required for ");
                push_str(&mut r, p.as_str());
                push_str(&mut r, " downloads");
                r
            },
        }
    }
}

/// The temporary directory of a download: the one given, else `packtrans-glossary` under the
/// system's temporary directory `system_temp`.
pub open spec fn temp_dir_for(temp_path: Option<String>, system_temp: Seq<char>) -> Seq<char> {
    match temp_path {
        Some(t) => t@,
        None => joined(system_temp, "packtrans-glossary"@),
    }
}

/// Resolves a `download` command: its temporary directory (given, else under `system_temp`)
/// and, for CurseForge and Modrinth, its mod list file, which must be given.
pub fn download(cmd: DownloadCommand, system_temp: &str) -> (r: Result<DownloadPlan, DownloadError>)
    ensures
        match cmd.platform {
            Platform::Curseforge => match cmd.list_file {
                Some(f) => r matches Ok(DownloadPlan::Curseforge { list_file, output, temp_path })
                    && list_file@ == f@ && output@ == cmd.output@ && temp_path@ == temp_dir_for(cmd.temp_path, system_temp@),
                None => r matches Err(DownloadError::MissingListFile(p)) && p@ == "curseforge"@,
            },
            Platform::Modrinth => match cmd.list_file {
                Some(f) => r matches Ok(DownloadPlan::Modrinth { list_file, output, temp_path })
                    && list_file@ == f@ && output@ == cmd.output@ && temp_path@ == temp_dir_for(cmd.temp_path, system_temp@),
                None => r matches Err(DownloadError::MissingListFile(p)) && p@ == "modrinth"@,
            },
            Platform::Minecraft => r matches Ok(DownloadPlan::Minecraft { output, temp_path })
                && output@ == cmd.output@ && temp_path@ == temp_dir_for(cmd.temp_path, system_temp@),
        },
{
    let temp_path = match cmd.temp_path {
        Some(t) => t,
        None => join_path(system_temp, "packtrans-glossary"),
    };
    match cmd.platform {
        Platform::Curseforge => match cmd.list_file {
            Some(f) => Ok(DownloadPlan::Curseforge { list_file: f, output: cmd.output, temp_path }),
            None => Err(DownloadError::MissingListFile(owned("curseforge"))),
        },
        Platform::Modrinth => match cmd.list_file {
            Some(f) => Ok(DownloadPlan::Modrinth { list_file: f, output: cmd.output, temp_path }),
            None => Err(DownloadError::MissingListFile(owned("modrinth"))),
        },
        Platform::Minecraft => Ok(DownloadPlan::Minecraft { output: cmd.output, temp_path }),
    }
}

/// The address of a CurseForge mod file.
pub open spec fn curseforge_file_url(id: Seq<char>, version_id: Seq<char>) -> Seq<char> {
    "https://www.curseforge.com/api/v1/mods/"@ + id + "/files/"@ + version_id + "/download"@
}

/// The address a CurseForge mod of the list is downloaded from.
pub fn curseforge_download_url(entry: &ModEntry) -> (r: String)
    ensures
        r@ == curseforge_file_url(entry.id@, entry.version_id@),
{
    let mut r = owned("https://www.curseforge.com/api/v1/mods/");
    push_str(&mut r, entry.id.as_str());
    push_str(&mut r, "/files/");
    push_str(&mut r, entry.version_id.as_str());
    push_str(&mut r, "/download");
    r
}

/// Where a mod jar download puts its files.
#[derive(Debug)]
pub struct ModDownloadPaths {
    /// The cached jar: `{temp}/mods/{platform}-{slug}-{version}.jar`.
    pub jar_path: String,
    /// Where the jar is unpacked: `{temp}/mods/{platform}-{slug}-{version}`.
    pub extracted_dir: String,
    /// Where its language files go: `{output}/{platform}-{slug}`.
    pub output_dir: String,
}

/// The cache key of a mod jar.
pub open spec fn cache_key(platform: Seq<char>, slug: Seq<char>, version_id: Seq<char>) -> Seq<char> {
    platform + "-"@ + sanitized(slug) + "-"@ + sanitized(version_id)
}

/// The paths of a mod jar download from `platform`, with the slug and version made safe as
/// path parts.
pub fn mod_download_paths(platform: &str, slug: &str, version_id: &str, output: &str, temp_path: &str) -> (r: ModDownloadPaths)
    ensures
        r.jar_path@ == joined(joined(temp_path@, "mods"@), cache_key(platform@, slug@, version_id@) + ".jar"@),
        r.extracted_dir@ == joined(joined(temp_path@, "mods"@), cache_key(platform@, slug@, version_id@)),
        r.output_dir@ == joined(output@, platform@ + "-"@ + sanitized(slug@)),
{
    let slug = sanitize_path_part(slug);
    let version_id = sanitize_path_part(version_id);
    let temp_mods = join_path(temp_path, "mods");
    let mut key = owned(platform);
    push_str(&mut key, "-");
    push_str(&mut key, slug.as_str());
    push_str(&mut key, "-");
    push_str(&mut key, version_id.as_str());
    let mut jar_name = key.clone();
    assert(jar_name@ == key@);
    push_str(&mut jar_name, ".jar");
    let jar_path = join_path(temp_mods.as_str(), jar_name.as_str());
    let extracted_dir = join_path(temp_mods.as_str(), key.as_str());
    let mut out_name = owned(platform);
    push_str(&mut out_name, "-");
    push_str(&mut out_name, slug.as_str());
    let output_dir = join_path(output, out_name.as_str());
    ModDownloadPaths { jar_path, extracted_dir, output_dir }
}

/// The error reported after a download run in which the items `failures` failed; `what`
/// names the kind of item (e.g. `CurseForge mod(s)`).
pub open spec fn failures_text(what: Seq<char>, failures: Seq<Seq<char>>) -> Seq<char> {
    "failed to download "@ + decimal(failures.len()) + " "@ + what + ": "@ + join_with(failures, ", "@)
}

/// The error of a download run: `None` when nothing failed.
pub fn failures_message(what: &str, failures: &[String]) -> (r: Option<String>)
    ensures
        failures@.len() == 0 ==> r is None,
        failures@.len() > 0 ==> (r matches Some(m) && m@ == failures_text(what@, views(failures@))),
{
    if failures.len() == 0 {
        return None;
    }
    let mut r = owned("failed to download ");
    push_usize(&mut r, failures.len());
    push_str(&mut r, " ");
    push_str(&mut r, what);
    push_str(&mut r, ": ");
    let joined_names = join_strings(failures, ", ");
    push_str(&mut r, joined_names.as_str());
    assert(views(failures@).len() == failures@.len());
    Some(r)
}

/// `true` when file `f` of a Modrinth version is a jar (its `filename` ends with `.jar`).
pub open spec fn is_jar(f: JsonValue) -> bool {
    member_str(f, "filename"@) matches Some(n) && has_suffix(n, ".jar"@)
}

/// `true` when file `f` is a jar marked `primary`.
pub open spec fn is_primary_jar(f: JsonValue) -> bool {
    member(f, "primary"@) == Some(JsonValue::Bool(true)) && is_jar(f)
}

/// The file condition searched for: a primary jar, or any jar.
pub open spec fn jar_wanted(f: JsonValue, primary: bool) -> bool {
    if primary { is_primary_jar(f) } else { is_jar(f) }
}

/// `true` when `i` is the first file meeting the condition.
pub open spec fn is_first_jar(files: Seq<JsonValue>, primary: bool, i: int) -> bool {
    &&& 0 <= i < files.len()
    &&& jar_wanted(files[i], primary)
    &&& forall|j: int| 0 <= j < i ==> !jar_wanted(#[trigger] files[j], primary)
}

/// Position of the first file meeting the condition.
pub open spec fn first_jar(files: Seq<JsonValue>, primary: bool) -> Option<int> {
    if exists|i: int| is_first_jar(files, primary, i) {
        Some(choose|i: int| is_first_jar(files, primary, i))
    } else {
        None
    }
}

/// The address to download a Modrinth version from: the `url` of its first primary jar,
/// else of its first jar.
pub open spec fn modrinth_jar_url(version: JsonValue) -> Option<Seq<char>> {
    match member_array(version, "files"@) {
        None => None,
        Some(files) => {
            let chosen = match first_jar(files, true) {
                Some(i) => Some(i),
                None => first_jar(files, false),
            };
            match chosen {
                Some(i) => member_str(files[i], "url"@),
                None => None,
            }
        },
    }
}

fn is_jar_file(f: &JsonValue) -> (r: bool)
    ensures
        r == is_jar(*f),
{
    match member_string(f, "filename") {
        Some(n) => ends_with(n.as_str(), ".jar"),
        None => false,
    }
}

fn find_jar(files: &Vec<JsonValue>, primary: bool) -> (r: Option<usize>)
    ensures
        match r {
            Some(i) => first_jar(files@, primary) == Some(i as int),
            None => first_jar(files@, primary) is None,
        },
{
    let mut i: usize = 0;
    while i < files.len()
        invariant
            i <= files@.len(),
            forall|j: int| 0 <= j < i ==> !jar_wanted(#[trigger] files@[j], primary),
        decreases files@.len() - i,
    {
        let f = &files[i];
        let wanted = if primary {
            let marked = match get_member(f, "primary") {
                Some(JsonValue::Bool(b)) => *b,
                _ => false,
            };
            marked && is_jar_file(f)
        } else {
            is_jar_file(f)
        };
        if wanted {
            assert(is_first_jar(files@, primary, i as int));
            assert forall|k: int| is_first_jar(files@, primary, k) implies k == i by {
                if k > i {
                    assert(jar_wanted(files@[i as int], primary));
                }
            }
            return Some(i);
        }
        i += 1;
    }
    None
}

/// Picks the jar to download from a Modrinth version's metadata: its first primary jar, else
/// its first jar; returns that file's `url`.
pub fn select_modrinth_jar_url(version: &JsonValue) -> (r: Option<String>)
    ensures
        match r {
            Some(u) => modrinth_jar_url(*version) == Some(u@),
            None => modrinth_jar_url(*version) is None,
        },
{
    let files = match member_elements(version, "files") {
        Some(f) => f,
        None => {
            return None;
        },
    };
    let chosen = match find_jar(files, true) {
        Some(i) => Some(i),
        None => find_jar(files, false),
    };
    match chosen {
        Some(i) => match member_string(&files[i], "url") {
            Some(u) => Some(u.clone()),
            None => None,
        },
        None => None,
    }
}

/// Version ids sent per Modrinth metadata request.
pub const MODRINTH_VERSION_CHUNK_SIZE: usize = 100;

/// Splits version ids into the groups fetched together: runs of
/// [`MODRINTH_VERSION_CHUNK_SIZE`], the last one possibly shorter.
pub fn version_id_chunks(ids: &[String]) -> (r: Vec<Vec<String>>)
    ensures
        r@.len() * MODRINTH_VERSION_CHUNK_SIZE >= ids@.len(),
        r@.len() * MODRINTH_VERSION_CHUNK_SIZE < ids@.len() + MODRINTH_VERSION_CHUNK_SIZE,
        forall|k: int| 0 <= k < r@.len() ==> views((#[trigger] r@[k])@) == views(ids@).subrange(
            k * 100,
            if k * 100 + 100 <= ids@.len() { k * 100 + 100 } else { ids@.len() as int },
        ),
{
    let mut out: Vec<Vec<String>> = Vec::new();
    let mut start: usize = 0;
    while start < ids.len()
        invariant
            start <= ids@.len(),
            start == out@.len() * 100 || (start == ids@.len() && out@.len() * 100 >= ids@.len()
                && out@.len() * 100 < ids@.len() + 100),
            forall|k: int| 0 <= k < out@.len() ==> views((#[trigger] out@[k])@) == views(ids@).subrange(
                k * 100,
                if k * 100 + 100 <= ids@.len() { k * 100 + 100 } else { ids@.len() as int },
            ),
        decreases ids@.len() - start,
    {
        let end: usize = if ids.len() - start >= 100 { start + 100 } else { ids.len() };
        let mut chunk: Vec<String> = Vec::new();
        let mut j: usize = start;
        while j < end
            invariant
                start <= j <= end <= ids@.len(),
                views(chunk@) == views(ids@).subrange(start as int, j as int),
            decreases end - j,
        {
            let ghost before = views(chunk@);
            chunk.push(ids[j].clone());
            assert(views(chunk@) =~= before.push(ids@[j as int]@));
            assert(views(chunk@) =~= views(ids@).subrange(start as int, j + 1));
            j += 1;
        }
        let ghost k = out@.len() as int;
        assert(start == k * 100);
        out.push(chunk);
        assert(views(out@[k]@) == views(ids@).subrange(
            k * 100,
            if k * 100 + 100 <= ids@.len() { k * 100 + 100 } else { ids@.len() as int },
        ));
        start = end;
    }
    out
}

/// A Modrinth versions response that cannot be used.
#[derive(Debug)]
pub enum VersionsError {
    NotArray,
}

impl VersionsError {
    pub open spec fn spec_message(&self) -> Seq<char> {
        "Modrinth versions response must be an array"@
    }

    /// The error text.
    pub fn message(&self) -> (r: String)
        ensures
            r@ == self.spec_message(),
    {
        owned("Modrinth versions response must be an array")
    }
}

/// The items of a versions response that have a string `id`, as (id, position), in order.
pub open spec fn version_ids_of(items: Seq<JsonValue>) -> Seq<(Seq<char>, int)>
    decreases items.len(),
{
    if items.len() == 0 {
        Seq::empty()
    } else {
        let rest = version_ids_of(items.drop_last());
        match member_str(items.last(), "id"@) {
            Some(id) => rest.push((id, items.len() - 1)),
            None => rest,
        }
    }
}

/// Views of (id, position) pairs.
pub open spec fn id_positions_view(v: Seq<(String, usize)>) -> Seq<(Seq<char>, int)> {
    v.map_values(|p: (String, usize)| (p.0@, p.1 as int))
}

/// Reads a Modrinth versions response (a JSON array of version objects): the position of
/// each version with a string `id`, in order. Storing them in order, a later version with the
/// same id replaces an earlier one.
pub fn versions_by_id(json: &JsonValue) -> (r: Result<Vec<(String, usize)>, VersionsError>)
    ensures
        !(json is Array) ==> r is Err,
        json matches JsonValue::Array(items) ==> (r matches Ok(v) && id_positions_view(v@) == version_ids_of(items@)),
{
    let items = match json {
        JsonValue::Array(items) => items,
        _ => {
            return Err(VersionsError::NotArray);
        },
    };
    let mut out: Vec<(String, usize)> = Vec::new();
    let mut i: usize = 0;
    while i < items.len()
        invariant
            i <= items@.len(),
            json matches JsonValue::Array(a) && a@ == items@,
            id_positions_view(out@) == version_ids_of(items@.take(i as int)),
        decreases items@.len() - i,
    {
        proof {
            assert(items@.take(i + 1).drop_last() =~= items@.take(i as int));
            assert(items@.take(i + 1).last() == items@[i as int]);
        }
        match member_string(&items[i], "id") {
            Some(id) => {
                let ghost before = id_positions_view(out@);
                out.push((id.clone(), i));
                assert(id_positions_view(out@) =~= before.push((id@, i as int)));
            },
            None => {},
        }
        i += 1;
    }
    assert(items@.take(items@.len() as int) =~= items@);
    Ok(out)
}

/// A step of the Minecraft download that cannot go on.
#[derive(Debug)]
pub enum MinecraftError {
    MissingLatestRelease,
    MissingVersionUrl,
    MissingClientUrl,
    MissingAssetIndexUrl,
    MissingObjects,
    /// The client jar could not be read.
    UnreadableJar(zip::result::ZipError),
    /// The client jar has no English language file.
    MissingEnUs,
}

impl MinecraftError {
    pub open spec fn spec_message(&self) -> Seq<char> {
        match self {
            MinecraftError::MissingLatestRelease => "Minecraft manifest missing latest.release"@,
            MinecraftError::MissingVersionUrl => "Minecraft manifest missing latest release metadata URL"@,
            MinecraftError::MissingClientUrl => "Minecraft version metadata missing downloads.client.url"@,
            MinecraftError::MissingAssetIndexUrl => "Minecraft version metadata missing assetIndex.url"@,
            MinecraftError::MissingObjects => "Minecraft asset index missing objects"@,
            MinecraftError::UnreadableJar(_) => "failed to read Minecraft client jar"@,
            MinecraftError::MissingEnUs => "Minecraft client jar missing assets/minecraft/lang/en_us.json"@,
        }
    }

    /// The error text (for an unreadable jar, the context before the zip error).
    pub fn message(&self) -> (r: String)
        ensures
            r@ == self.spec_message(),
    {
        match self {
            MinecraftError::MissingLatestRelease => owned("Minecraft manifest missing latest.release"),
            MinecraftError::MissingVersionUrl => owned("Minecraft manifest missing latest release metadata URL"),
            MinecraftError::MissingClientUrl => owned("Minecraft version metadata missing downloads.client.url"),
            MinecraftError::MissingAssetIndexUrl => owned("Minecraft version metadata missing assetIndex.url"),
            MinecraftError::MissingObjects => owned("Minecraft asset index missing objects"),
            MinecraftError::UnreadableJar(_) => owned("failed to read Minecraft client jar"),
            MinecraftError::MissingEnUs => owned("Minecraft client jar missing assets/minecraft/lang/en_us.json"),
        }
    }
}

/// The address of Minecraft's version manifest.
pub const MINECRAFT_MANIFEST_URL: &'static str = "https://launchermeta.mojang.com/mc/game/version_manifest_v2.json";

/// The string at `v.a.b`.
pub open spec fn member_str2(v: JsonValue, a: Seq<char>, b: Seq<char>) -> Option<Seq<char>> {
    match member(v, a) {
        Some(x) => member_str(x, b),
        None => None,
    }
}

/// The string at `v.a.b.c`.
pub open spec fn member_str3(v: JsonValue, a: Seq<char>, b: Seq<char>, c: Seq<char>) -> Option<Seq<char>> {
    match member(v, a) {
        Some(x) => member_str2(x, b, c),
        None => None,
    }
}

fn member_string2<'a>(v: &'a JsonValue, a: &str, b: &str) -> (r: Option<&'a String>)
    ensures
        match r {
            Some(s) => member_str2(*v, a@, b@) == Some(s@),
            None => member_str2(*v, a@, b@) is None,
        },
{
    match get_member(v, a) {
        Some(x) => member_string(x, b),
        None => None,
    }
}

/// `true` when version `v` of the manifest has id `id` and a string `url`.
pub open spec fn is_release_entry(v: JsonValue, id: Seq<char>) -> bool {
    member_str(v, "id"@) == Some(id) && member_str(v, "url"@) is Some
}

/// `true` when `i` is the first version with id `id` and a `url`.
pub open spec fn is_first_release_entry(versions: Seq<JsonValue>, id: Seq<char>, i: int) -> bool {
    &&& 0 <= i < versions.len()
    &&& is_release_entry(versions[i], id)
    &&& forall|j: int| 0 <= j < i ==> !is_release_entry(#[trigger] versions[j], id)
}

/// The latest release and the address of its metadata, as the manifest gives them: the
/// string `latest.release`, and the `url` of the first version with that id that has one.
pub open spec fn latest_release_of(manifest: JsonValue) -> Result<(Seq<char>, Seq<char>), ()> {
    match member_str2(manifest, "latest"@, "release"@) {
        None => Err(()),
        Some(latest) => match member_array(manifest, "versions"@) {
            Some(versions) => if exists|i: int| is_first_release_entry(versions, latest, i) {
                let i = choose|i: int| is_first_release_entry(versions, latest, i);
                Ok((latest, member_str(versions[i], "url"@).unwrap()))
            } else {
                Err(())
            },
            None => Err(()),
        },
    }
}

/// Reads the latest release and the address of its metadata from Minecraft's version
/// manifest.
pub fn latest_release_url(manifest: &JsonValue) -> (r: Result<(String, String), MinecraftError>)
    ensures
        member_str2(*manifest, "latest"@, "release"@) is None ==> r matches Err(MinecraftError::MissingLatestRelease),
        member_str2(*manifest, "latest"@, "release"@) is Some ==> match latest_release_of(*manifest) {
            Ok((latest, url)) => r matches Ok(p) && p.0@ == latest && p.1@ == url,
            Err(()) => r matches Err(MinecraftError::MissingVersionUrl),
        },
{
    let latest = match member_string2(manifest, "latest", "release") {
        Some(l) => l,
        None => {
            return Err(MinecraftError::MissingLatestRelease);
        },
    };
    let versions = match member_elements(manifest, "versions") {
        Some(v) => v,
        None => {
            return Err(MinecraftError::MissingVersionUrl);
        },
    };
    let mut i: usize = 0;
    while i < versions.len()
        invariant
            i <= versions@.len(),
            member_str2(*manifest, "latest"@, "release"@) == Some(latest@),
            member_array(*manifest, "versions"@) == Some(versions@),
            forall|j: int| 0 <= j < i ==> !is_release_entry(#[trigger] versions@[j], latest@),
        decreases versions@.len() - i,
    {
        let v = &versions[i];
        let matches_id = match member_string(v, "id") {
            Some(id) => str_eq(id.as_str(), latest.as_str()),
            None => false,
        };
        if matches_id {
            match member_string(v, "url") {
                Some(url) => {
                    assert(is_first_release_entry(versions@, latest@, i as int));
                    assert forall|k: int| is_first_release_entry(versions@, latest@, k) implies k == i by {
                        if k > i {
                            assert(is_release_entry(versions@[i as int], latest@));
                        }
                    }
                    return Ok((latest.clone(), url.clone()));
                },
                None => {},
            }
        }
        i += 1;
    }
    Err(MinecraftError::MissingVersionUrl)
}

/// The address of the client jar in a version's metadata: `downloads.client.url`.
pub fn client_jar_url(version: &JsonValue) -> (r: Result<String, MinecraftError>)
    ensures
        match member_str3(*version, "downloads"@, "client"@, "url"@) {
            Some(u) => r matches Ok(x) && x@ == u,
            None => r matches Err(MinecraftError::MissingClientUrl),
        },
{
    match get_member(version, "downloads") {
        Some(d) => match member_string2(d, "client", "url") {
            Some(u) => Ok(u.clone()),
            None => Err(MinecraftError::MissingClientUrl),
        },
        None => Err(MinecraftError::MissingClientUrl),
    }
}

/// The address of the asset index in a version's metadata: `assetIndex.url`.
pub fn asset_index_url(version: &JsonValue) -> (r: Result<String, MinecraftError>)
    ensures
        match member_str2(*version, "assetIndex"@, "url"@) {
            Some(u) => r matches Ok(x) && x@ == u,
            None => r matches Err(MinecraftError::MissingAssetIndexUrl),
        },
{
    match member_string2(version, "assetIndex", "url") {
        Some(u) => Ok(u.clone()),
        None => Err(MinecraftError::MissingAssetIndexUrl),
    }
}

/// Where the Minecraft download puts its files.
#[derive(Debug)]
pub struct MinecraftPaths {
    /// `{output}/minecraft`.
    pub output_dir: String,
    /// `{output}/minecraft/en_us.json`.
    pub en_us_path: String,
    /// The cached client jar: `{temp}/minecraft/client-{release}.jar`.
    pub client_jar: String,
}

/// The paths of the Minecraft download of release `release` (made safe as a path part).
pub fn minecraft_paths(output: &str, temp_path: &str, release: &str) -> (r: MinecraftPaths)
    ensures
        r.output_dir@ == joined(output@, "minecraft"@),
        r.en_us_path@ == joined(joined(output@, "minecraft"@), "en_us.json"@),
        r.client_jar@ == joined(joined(temp_path@, "minecraft"@), "client-"@ + sanitized(release@) + ".jar"@),
{
    let output_dir = join_path(output, "minecraft");
    let en_us_path = join_path(output_dir.as_str(), "en_us.json");
    let temp_dir = join_path(temp_path, "minecraft");
    let mut name = owned("client-");
    let safe = sanitize_path_part(release);
    push_str(&mut name, safe.as_str());
    push_str(&mut name, ".jar");
    let client_jar = join_path(temp_dir.as_str(), name.as_str());
    MinecraftPaths { output_dir, en_us_path, client_jar }
}

/// The English language file inside Minecraft's client jar.
pub const MINECRAFT_EN_US_ENTRY: &'static str = "assets/minecraft/lang/en_us.json";

/// Takes the English language file out of the client jar `jar`.
pub fn minecraft_en_us(jar: &[u8]) -> (r: Result<Vec<u8>, MinecraftError>)
    ensures
        match crate::archive::zip_named_entry(jar@, MINECRAFT_EN_US_ENTRY@) {
            Some(Some(d)) => r matches Ok(x) && x@ == d,
            Some(None) => r matches Err(MinecraftError::MissingEnUs),
            None => r matches Err(MinecraftError::UnreadableJar(_)),
        },
{
    match crate::archive::read_zip_entry_named(jar, MINECRAFT_EN_US_ENTRY) {
        Ok(Some(d)) => Ok(d),
        Ok(None) => Err(MinecraftError::MissingEnUs),
        Err(e) => Err(MinecraftError::UnreadableJar(e)),
    }
}

/// `true` for the asset keys of language files: `minecraft/lang/*.json`.
pub open spec fn is_lang_key(key: Seq<char>) -> bool {
    has_prefix(key, "minecraft/lang/"@) && has_suffix(key, ".json"@)
}

/// The part of `s` after its last `/` (all of it when there is none).
pub open spec fn after_last_slash(s: Seq<char>) -> Seq<char>
    decreases s.len(),
{
    if s.len() == 0 {
        s
    } else if s.last() == '/' {
        Seq::empty()
    } else {
        after_last_slash(s.drop_last()).push(s.last())
    }
}

/// The first two bytes of the UTF-8 encoding of `h`, as characters, when they end on a
/// character boundary: one two-byte character, or two one-byte characters.
pub open spec fn first_two_bytes(h: Seq<char>) -> Option<Seq<char>> {
    if h.len() >= 1 && 0x80 <= (h[0] as u32) && (h[0] as u32) < 0x800 {
        Some(h.take(1))
    } else if h.len() >= 2 && (h[0] as u32) < 0x80 && (h[1] as u32) < 0x80 {
        Some(h.take(2))
    } else {
        None
    }
}

/// What the Minecraft download does with one language asset.
#[derive(Debug)]
pub enum AssetTask {
    /// Nothing: the English file came from the client jar.
    Skip,
    /// Report the asset (holds its key): it has no hash.
    MissingHash { key: String },
    /// Report the asset: its hash is shorter than two bytes.
    InvalidHash { key: String, hash: String },
    /// Download `url` into `file_name` under the output directory.
    Fetch { key: String, file_name: String, url: String },
}

/// What is done with an asset, as a value of plain sequences.
pub enum TaskView {
    Skip,
    MissingHash(Seq<char>),
    InvalidHash(Seq<char>, Seq<char>),
    Fetch(Seq<char>, Seq<char>, Seq<char>),
}

impl AssetTask {
    pub open spec fn task_view(&self) -> TaskView {
        match self {
            AssetTask::Skip => TaskView::Skip,
            AssetTask::MissingHash { key } => TaskView::MissingHash(key@),
            AssetTask::InvalidHash { key, hash } => TaskView::InvalidHash(key@, hash@),
            AssetTask::Fetch { key, file_name, url } => TaskView::Fetch(key@, file_name@, url@),
        }
    }

    /// The warning printed for an asset that is reported.
    pub fn warning(&self) -> (r: Option<String>)
        ensures
            match self.task_view() {
                TaskView::MissingHash(k) => r matches Some(w) && w@ == "warning: Minecraft asset "@ + k
                    + " is missing hash"@,
                TaskView::InvalidHash(k, h) => r matches Some(w) && w@ == "warning: Minecraft asset "@ + k
                    + " has invalid hash "@ + h,
                _ => r is None,
            },
    {
        match self {
            AssetTask::MissingHash { key } => {
                let mut w = owned("warning: Minecraft asset ");
                push_str(&mut w, key.as_str());
                push_str(&mut w, " is missing hash");
                Some(w)
            },
            AssetTask::InvalidHash { key, hash } => {
                let mut w = owned("warning: Minecraft asset ");
                push_str(&mut w, key.as_str());
                push_str(&mut w, " has invalid hash ");
                push_str(&mut w, hash.as_str());
                Some(w)
            },
            _ => None,
        }
    }
}

/// The address of the asset with hash `h`.
pub open spec fn asset_url(h: Seq<char>) -> Seq<char> {
    "https://resources.download.minecraft.net/"@ + first_two_bytes(h).unwrap() + "/"@ + h
}

/// What is done with the language asset `key`, described by `object`; `have_en_us` tells
/// whether the English file is already in place.
pub open spec fn task_for(key: Seq<char>, object: JsonValue, have_en_us: bool) -> TaskView {
    let file = after_last_slash(key);
    if file == "en_us.json"@ && have_en_us {
        TaskView::Skip
    } else {
        match member_str(object, "hash"@) {
            None => TaskView::MissingHash(key),
            Some(h) => if crate::query::utf8_len(h) < 2 {
                TaskView::InvalidHash(key, h)
            } else {
                TaskView::Fetch(key, file, asset_url(h))
            },
        }
    }
}

/// `true` when handling the asset `key` does not cut its hash inside a character.
pub open spec fn hash_sliceable(key: Seq<char>, object: JsonValue, have_en_us: bool) -> bool {
    match task_for(key, object, have_en_us) {
        TaskView::Fetch(_, _, _) => first_two_bytes(member_str(object, "hash"@).unwrap()) is Some,
        _ => true,
    }
}

/// The tasks for the language assets among `entries` (key, object), in order.
pub open spec fn tasks_of(entries: Seq<(String, JsonValue)>, have_en_us: bool) -> Seq<TaskView>
    decreases entries.len(),
{
    if entries.len() == 0 {
        Seq::empty()
    } else {
        let rest = tasks_of(entries.drop_last(), have_en_us);
        let (k, o) = entries.last();
        if is_lang_key(k@) {
            rest.push(task_for(k@, o, have_en_us))
        } else {
            rest
        }
    }
}

/// `true` when no language asset of the index has a hash that would be cut inside a
/// character.
pub open spec fn asset_hashes_sliceable_spec(index: JsonValue, have_en_us: bool) -> bool {
    match member(index, "objects"@) {
        Some(JsonValue::Object(entries)) => forall|i: int|
            0 <= i < entries@.len() && is_lang_key((#[trigger] entries@[i]).0@) ==> hash_sliceable(
                entries@[i].0@,
                entries@[i].1,
                have_en_us,
            ),
        _ => true,
    }
}

fn after_last_slash_of(s: &str) -> (r: String)
    ensures
        r@ == after_last_slash(s@),
{
    let c = crate::text::chars_of(s);
    let mut i: usize = c.len();
    assert(c@.take(c@.len() as int) =~= c@);
    assert(c@.skip(c@.len() as int) =~= Seq::<char>::empty());
    while i > 0 && c[i - 1] != '/'
        invariant
            i <= c@.len(),
            c@ == s@,
            after_last_slash(c@) == after_last_slash(c@.take(i as int)) + c@.skip(i as int),
        decreases i,
    {
        proof {
            let t = c@.take(i as int);
            assert(t.drop_last() =~= c@.take(i - 1));
            assert(t.last() == c@[i - 1]);
            assert(c@.skip(i - 1) =~= seq![c@[i - 1]] + c@.skip(i as int));
            assert(after_last_slash(t) == after_last_slash(c@.take(i - 1)).push(c@[i - 1]));
            assert(after_last_slash(c@.take(i - 1)).push(c@[i - 1]) + c@.skip(i as int)
                =~= after_last_slash(c@.take(i - 1)) + c@.skip(i - 1));
        }
        i -= 1;
    }
    proof {
        let t = c@.take(i as int);
        if i > 0 {
            assert(t.last() == '/');
        }
        assert(after_last_slash(t) =~= Seq::<char>::empty());
        assert(after_last_slash(c@) =~= c@.skip(i as int));
    }
    let mut out: Vec<char> = Vec::new();
    let mut j: usize = i;
    while j < c.len()
        invariant
            i <= j <= c@.len(),
            out@ == c@.subrange(i as int, j as int),
        decreases c@.len() - j,
    {
        out.push(c[j]);
        j += 1;
        assert(out@ =~= c@.subrange(i as int, j as int));
    }
    assert(out@ =~= c@.skip(i as int));
    crate::text::string_of(out.as_slice())
}

fn task_from(key: &String, object: &JsonValue, have_en_us: bool) -> (r: AssetTask)
    requires
        hash_sliceable(key@, *object, have_en_us),
    ensures
        r.task_view() == task_for(key@, *object, have_en_us),
{
    let file = after_last_slash_of(key.as_str());
    if str_eq(file.as_str(), "en_us.json") && have_en_us {
        return AssetTask::Skip;
    }
    let hash = match member_string(object, "hash") {
        Some(h) => h,
        None => {
            return AssetTask::MissingHash { key: key.clone() };
        },
    };
    if hash.as_str().len() < 2 {
        return AssetTask::InvalidHash { key: key.clone(), hash: hash.clone() };
    }
    let hc = crate::text::chars_of(hash.as_str());
    proof {
        if hash@.len() <= 1 {
            lemma_short_utf8(hash@);
        }
    }
    let prefix: Vec<char> = if (hc[0] as u32) >= 0x80 {
        let mut p: Vec<char> = Vec::new();
        p.push(hc[0]);
        assert(p@ =~= hc@.take(1));
        p
    } else {
        let mut p: Vec<char> = Vec::new();
        p.push(hc[0]);
        p.push(hc[1]);
        assert(p@ =~= hc@.take(2));
        p
    };
    let mut url = owned("https://resources.download.minecraft.net/");
    crate::text::push_all(&mut url, prefix.as_slice());
    push_str(&mut url, "/");
    push_str(&mut url, hash.as_str());
    AssetTask::Fetch { key: key.clone(), file_name: file, url }
}

proof fn lemma_sliceable_at(index: JsonValue, entries: Vec<(String, JsonValue)>, have_en_us: bool, i: int)
    requires
        asset_hashes_sliceable_spec(index, have_en_us),
        member(index, "objects"@) == Some(JsonValue::Object(entries)),
        0 <= i < entries@.len(),
        is_lang_key(entries@[i].0@),
    ensures
        hash_sliceable(entries@[i].0@, entries@[i].1, have_en_us),
{
    match member(index, "objects"@) {
        Some(JsonValue::Object(e)) => {
            assert(e == entries);
            assert(is_lang_key(e@[i].0@));
            assert(hash_sliceable(e@[i].0@, e@[i].1, have_en_us));
        },
        _ => {
            assert(false);
        },
    }
}

proof fn lemma_not_sliceable_at(index: JsonValue, entries: Vec<(String, JsonValue)>, have_en_us: bool, i: int)
    requires
        member(index, "objects"@) == Some(JsonValue::Object(entries)),
        0 <= i < entries@.len(),
        is_lang_key(entries@[i].0@),
        !hash_sliceable(entries@[i].0@, entries@[i].1, have_en_us),
    ensures
        !asset_hashes_sliceable_spec(index, have_en_us),
{
    match member(index, "objects"@) {
        Some(JsonValue::Object(e)) => {
            assert(e == entries);
            assert(is_lang_key(e@[i].0@));
            assert(!hash_sliceable(e@[i].0@, e@[i].1, have_en_us));
        },
        _ => {},
    }
}

/// Checks, before [`lang_asset_tasks`], that no language asset of the index has a hash that
/// would be cut inside a character.
pub fn asset_hashes_sliceable(index: &JsonValue, have_en_us: bool) -> (r: bool)
    ensures
        r == asset_hashes_sliceable_spec(*index, have_en_us),
{
    let entries = match get_member(index, "objects") {
        Some(JsonValue::Object(e)) => e,
        _ => {
            return true;
        },
    };
    let mut i: usize = 0;
    while i < entries.len()
        invariant
            i <= entries@.len(),
            member(*index, "objects"@) == Some(JsonValue::Object(*entries)),
            forall|j: int| 0 <= j < i && is_lang_key((#[trigger] entries@[j]).0@) ==> hash_sliceable(
                entries@[j].0@,
                entries@[j].1,
                have_en_us,
            ),
        decreases entries@.len() - i,
    {
        let (k, o) = &entries[i];
        if starts_with_lang(k.as_str()) {
            match task_kind_needs_slice(k, o, have_en_us) {
                Some(h) => {
                    if !has_first_two_bytes(h) {
                        proof {
                            lemma_not_sliceable_at(*index, *entries, have_en_us, i as int);
                        }
                        return false;
                    }
                },
                None => {},
            }
        }
        i += 1;
    }
    true
}

fn starts_with_lang(k: &str) -> (r: bool)
    ensures
        r == is_lang_key(k@),
{
    crate::text::starts_with(k, "minecraft/lang/") && ends_with(k, ".json")
}

/// The hash of an asset whose task is a download.
fn task_kind_needs_slice<'a>(key: &String, object: &'a JsonValue, have_en_us: bool) -> (r: Option<&'a String>)
    ensures
        match r {
            Some(h) => task_for(key@, *object, have_en_us) is Fetch && member_str(*object, "hash"@) == Some(h@),
            None => !(task_for(key@, *object, have_en_us) is Fetch),
        },
{
    let file = after_last_slash_of(key.as_str());
    if str_eq(file.as_str(), "en_us.json") && have_en_us {
        return None;
    }
    match member_string(object, "hash") {
        Some(h) => {
            if h.as_str().len() < 2 {
                None
            } else {
                Some(h)
            }
        },
        None => None,
    }
}

fn has_first_two_bytes(h: &String) -> (r: bool)
    ensures
        r == first_two_bytes(h@) is Some,
{
    let hc = crate::text::chars_of(h.as_str());
    if hc.len() == 0 {
        return false;
    }
    let c0 = hc[0] as u32;
    (c0 >= 0x80 && c0 < 0x800) || (hc.len() >= 2 && c0 < 0x80 && (hc[1] as u32) < 0x80)
}

/// A string of at most one character has at most four UTF-8 bytes; one of none has none.
proof fn lemma_short_utf8(h: Seq<char>)
    requires
        h.len() <= 1,
        crate::query::utf8_len(h) >= 2,
    ensures
        h.len() == 1,
{
    if h.len() == 0 {
        assert(h =~= Seq::<char>::empty());
        assert(vstd::utf8::encode_utf8(h).len() == 0);
    }
}

/// What the Minecraft download does with each language asset of the asset index `index`, in
/// index order; `have_en_us` tells whether the English file is already in place. The index
/// must have an `objects` object.
pub fn lang_asset_tasks(index: &JsonValue, have_en_us: bool) -> (r: Result<Vec<AssetTask>, MinecraftError>)
    requires
        asset_hashes_sliceable_spec(*index, have_en_us),
    ensures
        match member(*index, "objects"@) {
            Some(JsonValue::Object(entries)) => r matches Ok(v) && v@.map_values(|t: AssetTask| t.task_view())
                == tasks_of(entries@, have_en_us),
            _ => r matches Err(MinecraftError::MissingObjects),
        },
{
    let entries = match get_member(index, "objects") {
        Some(JsonValue::Object(e)) => e,
        _ => {
            return Err(MinecraftError::MissingObjects);
        },
    };
    let mut out: Vec<AssetTask> = Vec::new();
    let mut i: usize = 0;
    while i < entries.len()
        invariant
            i <= entries@.len(),
            member(*index, "objects"@) == Some(JsonValue::Object(*entries)),
            asset_hashes_sliceable_spec(*index, have_en_us),
            out@.map_values(|t: AssetTask| t.task_view()) == tasks_of(entries@.take(i as int), have_en_us),
        decreases entries@.len() - i,
    {
        let (k, o) = &entries[i];
        proof {
            assert(entries@.take(i + 1).drop_last() =~= entries@.take(i as int));
            assert(entries@.take(i + 1).last() == entries@[i as int]);
        }
        if starts_with_lang(k.as_str()) {
            proof {
                lemma_sliceable_at(*index, *entries, have_en_us, i as int);
            }
            let t = task_from(k, o, have_en_us);
            let ghost before = out@.map_values(|t: AssetTask| t.task_view());
            out.push(t);
            assert(out@.map_values(|t: AssetTask| t.task_view()) =~= before.push(t.task_view()));
        }
        i += 1;
    }
    assert(entries@.take(entries@.len() as int) =~= entries@);
    Ok(out)
}


/// `true` when file `f` of a Modrinth version has a `filename` ending in `.jar`.
pub open spec fn names_jar(f: JsonValue) -> bool {
    member_str(f, "filename"@) is Some && has_suffix(member_str(f, "filename"@)->0, ".jar"@)
}

/// `true` when file `f` is marked `"primary": true`.
pub open spec fn marked_primary(f: JsonValue) -> bool {
    member(f, "primary"@) == Some(JsonValue::Bool(true))
}

/// Which file of a Modrinth version is downloaded: the first jar marked primary; when no jar is
/// marked primary, the first jar; its `url` is the address. An address always belongs to one
/// of the version's jars.
pub proof fn lemma_modrinth_jar_choice(version: JsonValue, i: int)
    ensures
        ({
            let files = member_array(version, "files"@);
            &&& modrinth_jar_url(version) matches Some(u) ==> files is Some && exists|k: int|
                0 <= k < files->0.len() && names_jar(#[trigger] files->0[k]) && member_str(files->0[k], "url"@)
                == Some(u)
            &&& files is Some && 0 <= i < files->0.len() && marked_primary(files->0[i]) && names_jar(files->0[i])
                && (forall|j: int| 0 <= j < i ==> !(marked_primary(#[trigger] files->0[j]) && names_jar(files->0[j])))
                ==> modrinth_jar_url(version) == member_str(files->0[i], "url"@)
            &&& files is Some && 0 <= i < files->0.len() && names_jar(files->0[i])
                && (forall|j: int| 0 <= j < files->0.len() ==> !(marked_primary(#[trigger] files->0[j]) && names_jar(files->0[j])))
                && (forall|j: int| 0 <= j < i ==> !names_jar(#[trigger] files->0[j]))
                ==> modrinth_jar_url(version) == member_str(files->0[i], "url"@)
            &&& files is None ==> modrinth_jar_url(version) is None
        }),
{
    if let Some(files) = member_array(version, "files"@) {
        assert(forall|f: JsonValue| #[trigger] is_jar(f) == names_jar(f));
        assert(forall|f: JsonValue| #[trigger] is_primary_jar(f) == (marked_primary(f) && names_jar(f)));
        if first_jar(files, true) is Some {
            let c = choose|c: int| is_first_jar(files, true, c);
            assert(is_first_jar(files, true, c));
        } else if first_jar(files, false) is Some {
            let c = choose|c: int| is_first_jar(files, false, c);
            assert(is_first_jar(files, false, c));
        }
        if 0 <= i < files.len() && marked_primary(files[i]) && names_jar(files[i])
            && (forall|j: int| 0 <= j < i ==> !(marked_primary(#[trigger] files[j]) && names_jar(files[j]))) {
            assert(is_first_jar(files, true, i));
            let c = choose|c: int| is_first_jar(files, true, c);
            assert(c == i) by {
                if c < i {
                    assert(!(marked_primary(files[c]) && names_jar(files[c])));
                } else if c > i {
                    assert(!jar_wanted(files[i], true));
                }
            }
        }
        if 0 <= i < files.len() && names_jar(files[i])
            && (forall|j: int| 0 <= j < files.len() ==> !(marked_primary(#[trigger] files[j]) && names_jar(files[j])))
            && (forall|j: int| 0 <= j < i ==> !names_jar(#[trigger] files[j])) {
            assert(!exists|c: int| is_first_jar(files, true, c)) by {
                if exists|c: int| is_first_jar(files, true, c) {
                    let c = choose|c: int| is_first_jar(files, true, c);
                    assert(!(marked_primary(files[c]) && names_jar(files[c])));
                }
            }
            assert(is_first_jar(files, false, i));
            let c = choose|c: int| is_first_jar(files, false, c);
            assert(c == i) by {
                if c < i {
                    assert(!names_jar(files[c]));
                } else if c > i {
                    assert(!jar_wanted(files[i], false));
                }
            }
        }
    }
}

/// What is done with a language asset: the English file is skipped when it is already in place;
/// an asset without a `hash` and one whose hash is shorter than two bytes are reported; any
/// other is fetched into the file named by the last part of its key, from
/// `https://resources.download.minecraft.net/{first two characters}/{hash}` (for a hash that
/// starts with two ASCII characters).
pub proof fn lemma_asset_task_rules(dir: Seq<char>, name: Seq<char>, object: JsonValue, have_en_us: bool)
    requires
        forall|k: int| 0 <= k < name.len() ==> name[k] != '/',
    ensures
        ({
            let key = dir + seq!['/'] + name;
            &&& name == "en_us.json"@ && have_en_us ==> task_for(key, object, have_en_us) == TaskView::Skip
            &&& !(name == "en_us.json"@ && have_en_us) && member_str(object, "hash"@) is None
                ==> task_for(key, object, have_en_us) == TaskView::MissingHash(key)
            &&& !(name == "en_us.json"@ && have_en_us) && member_str(object, "hash"@) is Some
                && crate::query::utf8_len(member_str(object, "hash"@)->0) < 2
                ==> task_for(key, object, have_en_us) == TaskView::InvalidHash(key, member_str(object, "hash"@)->0)
            &&& ({
                let h = member_str(object, "hash"@)->0;
                !(name == "en_us.json"@ && have_en_us) && member_str(object, "hash"@) is Some && h.len() >= 2
                    && (h[0] as u32) < 0x80 && (h[1] as u32) < 0x80 && crate::query::utf8_len(h) >= 2
                    ==> task_for(key, object, have_en_us) == TaskView::Fetch(
                        key,
                        name,
                        "https://resources.download.minecraft.net/"@ + h.take(2) + "/"@ + h,
                    )
            })
        }),
{
    let key = dir + seq!['/'] + name;
    lemma_after_last_slash(dir, name);
}

/// The part after the last `/` of `dir/name` is `name`, when `name` has no `/`.
pub proof fn lemma_after_last_slash(dir: Seq<char>, name: Seq<char>)
    requires
        forall|k: int| 0 <= k < name.len() ==> name[k] != '/',
    ensures
        after_last_slash(dir + seq!['/'] + name) == name,
    decreases name.len(),
{
    let key = dir + seq!['/'] + name;
    if name.len() == 0 {
        assert(key.last() == '/');
    } else {
        lemma_after_last_slash(dir, name.drop_last());
        assert(key.drop_last() =~= dir + seq!['/'] + name.drop_last());
        assert(key.last() == name.last());
        assert(name.drop_last().push(name.last()) =~= name);
    }
}

/// Only `minecraft/lang/….json` assets get a task, each in index order after the tasks of the
/// assets before it.
pub proof fn lemma_asset_tasks_follow_index(entries: Seq<(String, JsonValue)>, key: String, object: JsonValue, have_en_us: bool)
    ensures
        tasks_of(entries.push((key, object)), have_en_us) == if has_prefix(key@, "minecraft/lang/"@) && has_suffix(
            key@,
            ".json"@,
        ) {
            tasks_of(entries, have_en_us).push(task_for(key@, object, have_en_us))
        } else {
            tasks_of(entries, have_en_us)
        },
{
    assert(entries.push((key, object)).drop_last() =~= entries);
}

/// The latest release is the manifest's `latest.release`, and its metadata address is the `url`
/// of the first version with that id that has one; without `latest.release`, or without such a
/// version, there is none.
pub proof fn lemma_latest_release(manifest: JsonValue)
    ensures
        latest_release_of(manifest) matches Ok((l, u)) ==> member_str2(manifest, "latest"@, "release"@) == Some(l)
            && member_array(manifest, "versions"@) is Some && exists|i: int|
            #![trigger manifest_versions(manifest)[i]]
            0 <= i < manifest_versions(manifest).len() && member_str(manifest_versions(manifest)[i], "id"@) == Some(l)
                && member_str(manifest_versions(manifest)[i], "url"@) == Some(u) && forall|j: int|
                0 <= j < i ==> !(member_str(#[trigger] manifest_versions(manifest)[j], "id"@) == Some(l)
                && member_str(manifest_versions(manifest)[j], "url"@) is Some),
        member_str2(manifest, "latest"@, "release"@) is None ==> latest_release_of(manifest) is Err,
        member_str2(manifest, "latest"@, "release"@) is Some && member_array(manifest, "versions"@) is Some
            && (forall|j: int| 0 <= j < manifest_versions(manifest).len() ==> !(member_str(
            #[trigger] manifest_versions(manifest)[j],
            "id"@,
        ) == member_str2(manifest, "latest"@, "release"@) && member_str(manifest_versions(manifest)[j], "url"@) is Some))
            ==> latest_release_of(manifest) is Err,
{
    if let Some(l) = member_str2(manifest, "latest"@, "release"@) {
        if let Some(vs) = member_array(manifest, "versions"@) {
            assert(vs == manifest_versions(manifest));
            if exists|i: int| is_first_release_entry(vs, l, i) {
                let i = choose|i: int| is_first_release_entry(vs, l, i);
                assert(is_first_release_entry(vs, l, i));
                assert(member_str(vs[i], "id"@) == Some(l));
                assert(forall|j: int| 0 <= j < i ==> !is_release_entry(#[trigger] vs[j], l));
            }
        }
    }
}

/// The versions listed by a manifest (empty when it lists none).
pub open spec fn manifest_versions(manifest: JsonValue) -> Seq<JsonValue> {
    match member_array(manifest, "versions"@) {
        Some(vs) => vs,
        None => Seq::empty(),
    }
}

/// A mod-list item is read by its string fields `id`, `slug` and `version_id`; the first of
/// them (in that order) that is missing is the one reported.
pub proof fn lemma_mod_list_item(v: JsonValue)
    ensures
        member_str(v, "id"@) is None ==> missing_field(v) == Some("id"@),
        member_str(v, "id"@) is Some && member_str(v, "slug"@) is None ==> missing_field(v) == Some("slug"@),
        member_str(v, "id"@) is Some && member_str(v, "slug"@) is Some && member_str(v, "version_id"@) is None
            ==> missing_field(v) == Some("version_id"@),
        member_str(v, "id"@) is Some && member_str(v, "slug"@) is Some && member_str(v, "version_id"@) is Some
            ==> missing_field(v) is None && entry_fields(v) == (member_str(v, "id"@)->0, member_str(v, "slug"@)->0,
            member_str(v, "version_id"@)->0),
{
}

/// The names a download uses: its temporary directory is the one given, else
/// `packtrans-glossary` under the system's; a CurseForge file is fetched from
/// `https://www.curseforge.com/api/v1/mods/{id}/files/{version}/download`; a cached jar is keyed
/// `{platform}-{slug}-{version}` with slug and version made safe; a failed run reports how many
/// items failed and which.
pub proof fn lemma_download_names(
    temp_path: Option<String>,
    system_temp: Seq<char>,
    id: Seq<char>,
    platform: Seq<char>,
    slug: Seq<char>,
    version_id: Seq<char>,
    what: Seq<char>,
    failures: Seq<Seq<char>>,
)
    ensures
        temp_path matches Some(t) ==> temp_dir_for(temp_path, system_temp) == t@,
        temp_path is None ==> temp_dir_for(temp_path, system_temp) == joined(system_temp, "packtrans-glossary"@),
        curseforge_file_url(id, version_id) == "https://www.curseforge.com/api/v1/mods/"@ + id + "/files/"@ + version_id
            + "/download"@,
        cache_key(platform, slug, version_id) == platform + "-"@ + sanitized(slug) + "-"@ + sanitized(version_id),
        failures_text(what, failures) == "failed to download "@ + decimal(failures.len()) + " "@ + what + ": "@
            + join_with(failures, ", "@),
{
}

} // verus!
