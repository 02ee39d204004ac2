//! Building a mod list page by page: which page to fetch next, what each page adds, and
//! when to stop. Fetching the pages and writing the list are left to the caller.

use vstd::prelude::*;
use crate::builder::{CreateModListCommand, Platform};
use crate::json::{get_member, member, member_array, member_elements, member_str, member_string, JsonValue};
use crate::number::{int_text, integer_text};
use crate::text::{decimal, owned, push_str, push_usize};

verus! {

/// One mod of a mod list.
#[derive(Debug)]
pub struct ModListing {
    pub id: String,
    pub slug: String,
    pub name: String,
    pub version_id: String,
}

/// A listing as (id, slug, name, version id).
pub type ListingView = (Seq<char>, Seq<char>, Seq<char>, Seq<char>);

impl ModListing {
    pub open spec fn view4(&self) -> ListingView {
        (self.id@, self.slug@, self.name@, self.version_id@)
    }
}

/// Views of a list of listings.
pub open spec fn listings_view(v: Seq<ModListing>) -> Seq<ListingView> {
    v.map_values(|l: ModListing| l.view4())
}

/// Where a mod list is fetched from.
#[derive(Debug, Clone, Copy, PartialEq, Eq, Structural)]
pub enum ModListSource {
    Modrinth,
    Curseforge,
}

/// Results per Modrinth search page.
pub const MODRINTH_PAGE_SIZE: usize = 100;
/// Results per CurseForge search page.
pub const CURSEFORGE_PAGE_SIZE: usize = 50;
/// CurseForge serves no result past this position.
pub const CURSEFORGE_MAX_COUNT: usize = 10000;

/// Results per page of `source`.
pub open spec fn page_size(source: ModListSource) -> usize {
    match source {
        ModListSource::Modrinth => MODRINTH_PAGE_SIZE,
        ModListSource::Curseforge => CURSEFORGE_PAGE_SIZE,
    }
}

/// The member of a search page that holds its results.
pub open spec fn results_key(source: ModListSource) -> Seq<char> {
    match source {
        ModListSource::Modrinth => "hits"@,
        ModListSource::Curseforge => "data"@,
    }
}

/// Why a mod list cannot be built.
#[derive(Debug)]
pub enum ModListError {
    /// Minecraft has no mod list.
    MinecraftUnsupported,
    /// CurseForge was asked for no mods (holds the count).
    CountZero(usize),
    /// CurseForge was asked for more mods than it serves (holds the count).
    CountTooLarge(usize),
    /// A Modrinth page without a `hits` array.
    MissingHits,
    /// A CurseForge page without a `data` array.
    MissingData,
}

impl ModListError {
    pub open spec fn spec_message(&self) -> Seq<char> {
        match self {
            ModListError::MinecraftUnsupported => "create-mod-list does not support the minecraft platform"@,
            ModListError::CountZero(n) => "fetch_curseforge_mod_list: count must be > 0, got "@ + decimal(*n as nat),
            ModListError::CountTooLarge(n) => "fetch_curseforge_mod_list: count must be <= 10000 (CurseForge API: index + pageSize cannot exceed 10000), got "@
                + decimal(*n as nat),
            ModListError::MissingHits => "missing hits array in response"@,
            ModListError::MissingData => "missing data array in CurseForge response"@,
        }
    }

    /// The error text.
    pub fn message(&self) -> (r: String)
        ensures
            r@ == self.spec_message(),
    {
        match self {
            ModListError::MinecraftUnsupported => owned("create-mod-list does not support the minecraft platform"),
            ModListError::CountZero(n) => {
                let mut r = owned("fetch_curseforge_mod_list: count must be > 0, got ");
                push_usize(&mut r, *n);
                r
            },
            ModListError::CountTooLarge(n) => {
                let mut r = owned(
                    "fetch_curseforge_mod_list: count must be <= 10000 (CurseForge API: index + pageSize cannot exceed 10000), got ",
                );
                push_usize(&mut r, *n);
                r
            },
            ModListError::MissingHits => owned("missing hits array in response"),
            ModListError::MissingData => owned("missing data array in CurseForge response"),
        }
    }
}

/// A mod list being fetched: the mods found so far and where the next page starts.
#[derive(Debug)]
pub struct ModListFetch {
    pub source: ModListSource,
    /// How many mods are wanted.
    pub count: usize,
    /// Position of the next page's first result.
    pub offset: usize,
    /// The mods found so far, in page order.
    pub mods: Vec<ModListing>,
    /// Set once the last page has been read.
    pub finished: bool,
}

impl ModListFetch {
    /// `true` while another page is wanted.
    pub open spec fn wants_more(&self) -> bool {
        !self.finished && self.mods@.len() < self.count
    }
}

/// Starts a mod list for `cmd`. Minecraft has none; CurseForge takes between 1 and
/// [`CURSEFORGE_MAX_COUNT`] mods.
pub fn create_mod_list(cmd: &CreateModListCommand) -> (r: Result<ModListFetch, ModListError>)
    ensures
        match cmd.platform {
            Platform::Minecraft => r matches Err(ModListError::MinecraftUnsupported),
            Platform::Curseforge => if cmd.count == 0 {
                r matches Err(ModListError::CountZero(n)) && n == cmd.count
            } else if cmd.count > CURSEFORGE_MAX_COUNT {
                r matches Err(ModListError::CountTooLarge(n)) && n == cmd.count
            } else {
                r matches Ok(f) && f.source == ModListSource::Curseforge && f.count == cmd.count
                    && f.offset == 0 && f.mods@.len() == 0 && !f.finished
            },
            Platform::Modrinth => r matches Ok(f) && f.source == ModListSource::Modrinth && f.count
                == cmd.count && f.offset == 0 && f.mods@.len() == 0 && !f.finished,
        },
{
    match cmd.platform {
        Platform::Minecraft => Err(ModListError::MinecraftUnsupported),
        Platform::Curseforge => {
            if cmd.count == 0 {
                Err(ModListError::CountZero(cmd.count))
            } else if cmd.count > CURSEFORGE_MAX_COUNT {
                Err(ModListError::CountTooLarge(cmd.count))
            } else {
                Ok(
                    ModListFetch {
                        source: ModListSource::Curseforge,
                        count: cmd.count,
                        offset: 0,
                        mods: Vec::new(),
                        finished: false,
                    },
                )
            }
        },
        Platform::Modrinth => Ok(
            ModListFetch {
                source: ModListSource::Modrinth,
                count: cmd.count,
                offset: 0,
                mods: Vec::new(),
                finished: false,
            },
        ),
    }
}

/// What to do next while building a mod list.
#[derive(Debug)]
pub enum ModListStep {
    /// Fetch this search page and hand it to [`ModListFetch::accept_page`].
    Fetch(String),
    /// Stop here, printing this warning: CurseForge serves no further page.
    CapReached(String),
    /// The list is complete.
    Finished,
}

/// The Modrinth search page starting at `offset`.
pub open spec fn modrinth_url(offset: usize) -> Seq<char> {
    "https://api.modrinth.com/v2/search?facets=%5B%5B%22project_type%3Amod%22%5D%5D&index=downloads&limit=100&offset="@
        + decimal(offset as nat)
}

/// The CurseForge search page starting at `offset`.
pub open spec fn curseforge_url(offset: usize) -> Seq<char> {
    "https://api.curseforge.com/v1/mods/search?gameId=432&sortField=6&sortOrder=desc&pageSize=50&index="@
        + decimal(offset as nat)
}

/// The warning printed when CurseForge's last page has been passed.
pub open spec fn cap_warning(offset: usize, found: nat, count: usize) -> Seq<char> {
    "warning: CurseForge pagination cap reached (offset "@ + decimal(offset as nat)
        + " + page_size 50 > 10000); stopping with "@ + decimal(found) + " mod(s) (requested "@
        + decimal(count as nat) + ")."@
}

/// The step after the state `f`.
pub open spec fn step_for(f: ModListFetch) -> Option<(bool, Seq<char>)> {
    if !f.wants_more() {
        None
    } else {
        match f.source {
            ModListSource::Modrinth => Some((true, modrinth_url(f.offset))),
            ModListSource::Curseforge => if f.offset + CURSEFORGE_PAGE_SIZE > CURSEFORGE_MAX_COUNT {
                Some((false, cap_warning(f.offset, f.mods@.len(), f.count)))
            } else {
                Some((true, curseforge_url(f.offset)))
            },
        }
    }
}

/// The listing a search result describes, when it has every field: on Modrinth the strings
/// `project_id`, `slug`, `title` and `latest_version`; on CurseForge the integer `id`, the
/// strings `slug` and `name`, and the integer `mainFileId` (integers in decimal).
pub open spec fn listing_of(source: ModListSource, v: JsonValue) -> Option<ListingView> {
    match source {
        ModListSource::Modrinth => match (
            member_str(v, "project_id"@),
            member_str(v, "slug"@),
            member_str(v, "title"@),
            member_str(v, "latest_version"@),
        ) {
            (Some(id), Some(slug), Some(name), Some(ver)) => Some((id, slug, name, ver)),
            _ => None,
        },
        ModListSource::Curseforge => match (
            member_int_text(v, "id"@),
            member_str(v, "slug"@),
            member_str(v, "name"@),
            member_int_text(v, "mainFileId"@),
        ) {
            (Some(id), Some(slug), Some(name), Some(ver)) => Some((id, slug, name, ver)),
            _ => None,
        },
    }
}

/// Where each field of a listing comes from. A CurseForge result gives its `id` as the mod id,
/// its `slug` as the slug, its `name` as the name and its `mainFileId` as the version; a
/// Modrinth result its `project_id`, `slug`, `title` and `latest_version`. A result missing any
/// of them gives no listing.
pub proof fn lemma_listing_fields(v: JsonValue)
    ensures
        listing_of(ModListSource::Curseforge, v) matches Some(l) ==> {
            &&& member_int_text(v, "id"@) == Some(l.0)
            &&& member_str(v, "slug"@) == Some(l.1)
            &&& member_str(v, "name"@) == Some(l.2)
            &&& member_int_text(v, "mainFileId"@) == Some(l.3)
        },
        listing_of(ModListSource::Curseforge, v) is None <==> (member_int_text(v, "id"@) is None
            || member_str(v, "slug"@) is None || member_str(v, "name"@) is None
            || member_int_text(v, "mainFileId"@) is None),
        listing_of(ModListSource::Modrinth, v) matches Some(l) ==> {
            &&& member_str(v, "project_id"@) == Some(l.0)
            &&& member_str(v, "slug"@) == Some(l.1)
            &&& member_str(v, "title"@) == Some(l.2)
            &&& member_str(v, "latest_version"@) == Some(l.3)
        },
        listing_of(ModListSource::Modrinth, v) is None <==> (member_str(v, "project_id"@) is None
            || member_str(v, "slug"@) is None || member_str(v, "title"@) is None
            || member_str(v, "latest_version"@) is None),
{
}

/// How a mod list is fetched page by page: Modrinth pages hold 100 results under `hits`,
/// CurseForge pages 50 under `data`. A finished list, or one with enough mods, asks for nothing
/// more. Otherwise the next Modrinth page is asked for at the current offset; so is the next
/// CurseForge page, unless it would go past result 10000, where the list stops with a
/// warning.
pub proof fn lemma_paging(f: ModListFetch)
    ensures
        page_size(ModListSource::Modrinth) == 100 && page_size(ModListSource::Curseforge) == 50,
        results_key(ModListSource::Modrinth) == "hits"@ && results_key(ModListSource::Curseforge) == "data"@,
        f.finished || f.mods@.len() >= f.count ==> step_for(f) is None,
        !f.finished && f.mods@.len() < f.count && f.source == ModListSource::Modrinth ==> step_for(f) == Some(
            (
                true,
                "https://api.modrinth.com/v2/search?facets=%5B%5B%22project_type%3Amod%22%5D%5D&index=downloads&limit=100&offset="@
                    + decimal(f.offset as nat),
            ),
        ),
        !f.finished && f.mods@.len() < f.count && f.source == ModListSource::Curseforge && f.offset + 50 <= 10000
            ==> step_for(f) == Some(
            (
                true,
                "https://api.curseforge.com/v1/mods/search?gameId=432&sortField=6&sortOrder=desc&pageSize=50&index="@
                    + decimal(f.offset as nat),
            ),
        ),
        !f.finished && f.mods@.len() < f.count && f.source == ModListSource::Curseforge && f.offset + 50 > 10000
            ==> step_for(f) matches Some((false, _)),
{
}

/// The listings of a page are those of its complete results, in page order: adding a result
/// adds its listing at the end, or nothing when it is incomplete.
pub proof fn lemma_listings_in_order(source: ModListSource, parts: Seq<JsonValue>, v: JsonValue)
    ensures
        listings_of(source, parts.push(v)) == match listing_of(source, v) {
            Some(l) => listings_of(source, parts).push(l),
            None => listings_of(source, parts),
        },
        listings_of(source, Seq::<JsonValue>::empty()) == Seq::<ListingView>::empty(),
{
    assert(parts.push(v).drop_last() =~= parts);
}

/// The member `key` as integer text.
pub open spec fn member_int_text(v: JsonValue, key: Seq<char>) -> Option<Seq<char>> {
    match member(v, key) {
        Some(x) => int_text(x),
        None => None,
    }
}

/// The listings of a page's results, skipping incomplete ones, in order.
pub open spec fn listings_of(source: ModListSource, parts: Seq<JsonValue>) -> Seq<ListingView>
    decreases parts.len(),
{
    if parts.len() == 0 {
        Seq::empty()
    } else {
        let rest = listings_of(source, parts.drop_last());
        match listing_of(source, parts.last()) {
            Some(l) => rest.push(l),
            None => rest,
        }
    }
}

proof fn lemma_listings_prefix(source: ModListSource, parts: Seq<JsonValue>, i: int, k: int)
    requires
        0 <= i <= k <= parts.len(),
    ensures
        listings_of(source, parts.take(i)).len() <= listings_of(source, parts.take(k)).len(),
        listings_of(source, parts.take(k)).take(listings_of(source, parts.take(i)).len() as int)
            == listings_of(source, parts.take(i)),
    decreases k - i,
{
    if i < k {
        lemma_listings_prefix(source, parts, i, k - 1);
        assert(parts.take(k).drop_last() =~= parts.take(k - 1));
        let a = listings_of(source, parts.take(i));
        let b = listings_of(source, parts.take(k - 1));
        let c = listings_of(source, parts.take(k));
        assert(c.take(a.len() as int) =~= b.take(a.len() as int));
    } else {
        let a = listings_of(source, parts.take(i));
        assert(a.take(a.len() as int) =~= a);
    }
}

fn member_integer(v: &JsonValue, key: &str) -> (r: Option<String>)
    ensures
        match r {
            Some(t) => member_int_text(*v, key@) == Some(t@),
            None => member_int_text(*v, key@) is None,
        },
{
    match get_member(v, key) {
        Some(x) => integer_text(x),
        None => None,
    }
}

fn listing_from(source: ModListSource, v: &JsonValue) -> (r: Option<ModListing>)
    ensures
        match r {
            Some(l) => listing_of(source, *v) == Some(l.view4()),
            None => listing_of(source, *v) is None,
        },
{
    match source {
        ModListSource::Modrinth => match (
            member_string(v, "project_id"),
            member_string(v, "slug"),
            member_string(v, "title"),
            member_string(v, "latest_version"),
        ) {
            (Some(id), Some(slug), Some(name), Some(ver)) => Some(
                ModListing { id: id.clone(), slug: slug.clone(), name: name.clone(), version_id: ver.clone() },
            ),
            _ => None,
        },
        ModListSource::Curseforge => match (
            member_integer(v, "id"),
            member_string(v, "slug"),
            member_string(v, "name"),
            member_integer(v, "mainFileId"),
        ) {
            (Some(id), Some(slug), Some(name), Some(ver)) => Some(
                ModListing { id, slug: slug.clone(), name: name.clone(), version_id: ver },
            ),
            _ => None,
        },
    }
}

impl ModListFetch {
    /// What to do next: fetch the page at the current offset while more mods are wanted; on
    /// CurseForge, stop with a warning once the next page would pass its last result.
    pub fn next_step(&self) -> (r: ModListStep)
        ensures
            match step_for(*self) {
                None => r is Finished,
                Some((true, url)) => r matches ModListStep::Fetch(u) && u@ == url,
                Some((false, w)) => r matches ModListStep::CapReached(m) && m@ == w,
            },
    {
        if self.finished || self.mods.len() >= self.count {
            return ModListStep::Finished;
        }
        match self.source {
            ModListSource::Modrinth => {
                let mut u = owned(
                    "https://api.modrinth.com/v2/search?facets=%5B%5B%22project_type%3Amod%22%5D%5D&index=downloads&limit=100&offset=",
                );
                push_usize(&mut u, self.offset);
                ModListStep::Fetch(u)
            },
            ModListSource::Curseforge => {
                if self.offset > CURSEFORGE_MAX_COUNT - CURSEFORGE_PAGE_SIZE {
                    let mut w = owned("warning: CurseForge pagination cap reached (offset ");
                    push_usize(&mut w, self.offset);
                    push_str(&mut w, " + page_size 50 > 10000); stopping with ");
                    push_usize(&mut w, self.mods.len());
                    push_str(&mut w, " mod(s) (requested ");
                    push_usize(&mut w, self.count);
                    push_str(&mut w, ").");
                    ModListStep::CapReached(w)
                } else {
                    let mut u = owned(
                        "https://api.curseforge.com/v1/mods/search?gameId=432&sortField=6&sortOrder=desc&pageSize=50&index=",
                    );
                    push_usize(&mut u, self.offset);
                    ModListStep::Fetch(u)
                }
            },
        }
    }

    /// Takes in the search page fetched for the last [`ModListStep::Fetch`]: appends its
    /// complete results, in order, until `count` mods are found. The list is finished when
    /// the page was short or enough mods were found; otherwise the next page starts one page
    /// further on. A page without its results array is refused and changes nothing.
    pub fn accept_page(&mut self, page: &JsonValue) -> (r: Result<(), ModListError>)
        requires
            old(self).wants_more(),
            old(self).offset + MODRINTH_PAGE_SIZE <= usize::MAX,
        ensures
            match member_array(*page, results_key(old(self).source)) {
                None => {
                    &&& *final(self) == *old(self)
                    &&& match old(self).source {
                        ModListSource::Modrinth => r matches Err(ModListError::MissingHits),
                        ModListSource::Curseforge => r matches Err(ModListError::MissingData),
                    }
                },
                Some(parts) => {
                    let found = listings_of(old(self).source, parts);
                    let room = old(self).count - old(self).mods@.len();
                    &&& r is Ok
                    &&& final(self).mods@.len() <= final(self).count
                    &&& final(self).source == old(self).source
                    &&& final(self).count == old(self).count
                    &&& listings_view(final(self).mods@) == listings_view(old(self).mods@) + found.take(
                        if found.len() < room { found.len() as int } else { room },
                    )
                    &&& final(self).finished == (parts.len() < page_size(old(self).source)
                        || final(self).mods@.len() >= old(self).count)
                    &&& final(self).offset == if final(self).finished {
                        old(self).offset
                    } else {
                        (old(self).offset + page_size(old(self).source)) as usize
                    }
                },
            },
    {
        let source = self.source;
        let parts = match source {
            ModListSource::Modrinth => match member_elements(page, "hits") {
                Some(p) => p,
                None => {
                    return Err(ModListError::MissingHits);
                },
            },
            ModListSource::Curseforge => match member_elements(page, "data") {
                Some(p) => p,
                None => {
                    return Err(ModListError::MissingData);
                },
            },
        };
        let ghost old_view = listings_view(self.mods@);
        let ghost old_len = self.mods@.len();
        let ghost offset0 = self.offset;
        let count = self.count;
        let mut i: usize = 0;
        while i < parts.len() && self.mods.len() < count
            invariant
                i <= parts@.len(),
                listings_view(self.mods@) == old_view + listings_of(source, parts@.take(i as int)),
                self.mods@.len() <= count,
                self.source == source,
                self.count == count,
                self.offset == offset0,
                !self.finished,
                old_len == old_view.len(),
                old_len < count,
            decreases parts@.len() - i,
        {
            proof {
                assert(parts@.take(i + 1).drop_last() =~= parts@.take(i as int));
                assert(parts@.take(i + 1).last() == parts@[i as int]);
            }
            match listing_from(source, &parts[i]) {
                Some(l) => {
                    let ghost before = listings_view(self.mods@);
                    self.mods.push(l);
                    assert(listings_view(self.mods@) =~= before.push(l.view4()));
                },
                None => {},
            }
            i += 1;
        }
        proof {
            let a = listings_of(source, parts@.take(i as int));
            let all = listings_of(source, parts@);
            assert(listings_view(self.mods@).len() == self.mods@.len());
            lemma_listings_prefix(source, parts@, i as int, parts@.len() as int);
            assert(parts@.take(parts@.len() as int) =~= parts@);
            if i == parts@.len() {
                assert(a == all);
                assert(all.take(all.len() as int) =~= all);
            } else {
                assert(a.len() == count - old_len);
            }
            let room = count - old_len;
            let t = if all.len() < room { all.len() as int } else { room };
            assert(all.take(t) =~= a);
            assert(listings_view(self.mods@) == old_view + all.take(t));
        }
        let size = match source {
            ModListSource::Modrinth => MODRINTH_PAGE_SIZE,
            ModListSource::Curseforge => CURSEFORGE_PAGE_SIZE,
        };
        assert(size == page_size(source));
        if parts.len() < size || self.mods.len() >= count {
            self.finished = true;
        } else {
            self.offset = self.offset + size;
        }
        Ok(())
    }
}

} // verus!
