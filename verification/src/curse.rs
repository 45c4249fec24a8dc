//! The catalog's data model: entries, their files and the dependencies
//! between them, and the index that finds an entry by id, by slug or by name.

use crate::error::{PkgError, PkgErrorView};
use crate::name_search::{by_falling_downloads, entries_of};
use crate::text::{lowercase, parsed_u32, str_ends_with, str_parse_u32, str_strip_prefix};
use rayon::iter::{IntoParallelRefIterator, ParallelIterator};
use vstd::prelude::*;

verus! {

/// How far along the release cycle a file is.
#[derive(Debug, Clone, Copy, PartialEq, Eq, Structural)]
pub enum ReleaseType {
    Release,
    Beta,
    Alpha,
}

/// The newest file of an entry for one game version.
#[derive(Debug)]
pub struct GameVersionRelease {
    pub file_type: ReleaseType,
    pub file_id: u32,
    pub game_version: String,
}

/// How strongly a file asks for another entry.
#[derive(Debug, Clone, Copy, PartialEq, Eq, Structural)]
pub enum ReqType {
    Required,
    Optional,
    Embedded,
}

/// A dependency of a file on another entry of the catalog.
#[derive(Debug, Clone)]
pub struct ModDependency {
    /// The id of the entry that is depended on.
    pub add_on_id: u32,
    pub req_type: ReqType,
}

/// A downloadable file of an entry. Two files are the same file when their
/// ids agree, whatever their other fields hold.
#[derive(Debug, Clone)]
pub struct ModFile {
    pub download_url: String,
    pub id: u32,
    pub file_name: String,
    pub game_version: Vec<String>,
    pub dependencies: Vec<ModDependency>,
}

/// One entry of the catalog. Two entries are the same entry when their ids
/// agree.
#[derive(Debug)]
pub struct Mod {
    pub name: String,
    pub id: u32,
    pub web_site_url: String,
    pub download_count: u32,
    pub latest_files: Vec<ModFile>,
    pub game_version_latest_files: Vec<GameVersionRelease>,
}

/// The whole catalog, in the order of the feed.
#[derive(Debug)]
pub struct ModDb {
    pub mods: Vec<Mod>,
}

impl PartialEq for ModFile {
    fn eq(&self, other: &ModFile) -> (same: bool) {
        self.id == other.id
    }
}

impl Eq for ModFile {

}

impl vstd::std_specs::cmp::PartialEqSpecImpl for ModFile {
    open spec fn obeys_eq_spec() -> bool {
        true
    }

    open spec fn eq_spec(&self, other: &ModFile) -> bool {
        self.id == other.id
    }
}

impl PartialEq for Mod {
    fn eq(&self, other: &Mod) -> (same: bool) {
        self.id == other.id
    }
}

impl Eq for Mod {

}

impl vstd::std_specs::cmp::PartialEqSpecImpl for Mod {
    open spec fn obeys_eq_spec() -> bool {
        true
    }

    open spec fn eq_spec(&self, other: &Mod) -> bool {
        self.id == other.id
    }
}

impl ReleaseType {
    /// The release type that a numeric code of the feed stands for: 1 is a
    /// release, 2 a beta, every other code an alpha.
    pub open spec fn of_code(code: u64) -> ReleaseType {
        if code == 1 {
            ReleaseType::Release
        } else if code == 2 {
            ReleaseType::Beta
        } else {
            ReleaseType::Alpha
        }
    }

    /// The release type that a name of the feed stands for: `Release` and
    /// `Beta` name themselves, every other name is an alpha.
    pub open spec fn of_name(name: Seq<char>) -> ReleaseType {
        if name == "Release"@ {
            ReleaseType::Release
        } else if name == "Beta"@ {
            ReleaseType::Beta
        } else {
            ReleaseType::Alpha
        }
    }

    /// Maps a numeric code of the feed to a release type.
    pub fn from_code(code: u64) -> (kind: ReleaseType)
        ensures
            kind == Self::of_code(code),
    {
        if code == 1 {
            ReleaseType::Release
        } else if code == 2 {
            ReleaseType::Beta
        } else {
            ReleaseType::Alpha
        }
    }

    /// Maps a name of the feed to a release type.
    pub fn from_name(name: &str) -> (kind: ReleaseType)
        ensures
            kind == Self::of_name(name@),
    {
        if *name == *"Release" {
            ReleaseType::Release
        } else if *name == *"Beta" {
            ReleaseType::Beta
        } else {
            ReleaseType::Alpha
        }
    }
}

impl ReqType {
    /// The requirement kind that a numeric code of the feed stands for:
    /// 1 is required, 2 is optional, every other code is embedded.
    pub open spec fn of_code(code: u64) -> ReqType {
        if code == 1 {
            ReqType::Required
        } else if code == 2 {
            ReqType::Optional
        } else {
            ReqType::Embedded
        }
    }

    /// The requirement kind that a name of the feed stands for: `Required`
    /// and `Optional` name themselves, every other name is embedded.
    pub open spec fn of_name(name: Seq<char>) -> ReqType {
        if name == "Required"@ {
            ReqType::Required
        } else if name == "Optional"@ {
            ReqType::Optional
        } else {
            ReqType::Embedded
        }
    }

    /// Maps a numeric code of the feed to a requirement kind.
    pub fn from_code(code: u64) -> (kind: ReqType)
        ensures
            kind == Self::of_code(code),
    {
        if code == 1 {
            ReqType::Required
        } else if code == 2 {
            ReqType::Optional
        } else {
            ReqType::Embedded
        }
    }

    /// Maps a name of the feed to a requirement kind.
    pub fn from_name(name: &str) -> (kind: ReqType)
        ensures
            kind == Self::of_name(name@),
    {
        if *name == *"Required" {
            ReqType::Required
        } else if *name == *"Optional" {
            ReqType::Optional
        } else {
            ReqType::Embedded
        }
    }
}


/// The address under which every entry's page lives; what follows it in an
/// entry's address is the entry's slug.
pub const PROJECTS_URL: &'static str = "https://minecraft.curseforge.com/projects/";

impl ModFile {
    /// Whether the file lists `version` among the game versions it supports.
    pub open spec fn is_for(&self, version: Seq<char>) -> bool {
        exists|i: int| 0 <= i < self.game_version@.len() && (#[trigger] self.game_version@[i])@ == version
    }

    /// Whether the file lists `version` among the game versions it supports.
    pub fn supports(&self, version: &str) -> (listed: bool)
        ensures
            listed == self.is_for(version@),
    {
        let mut i: usize = 0;
        while i < self.game_version.len()
            invariant
                i <= self.game_version@.len(),
                forall|j: int| 0 <= j < i ==> (#[trigger] self.game_version@[j])@ != version@,
            decreases self.game_version@.len() - i,
        {
            if *self.game_version[i].as_str() == *version {
                return true;
            }
            i = i + 1;
        }
        false
    }
}

/// The ids that the dependencies of one kind point to, in their order.
pub open spec fn ids_of_kind(deps: Seq<ModDependency>, kind: ReqType) -> Seq<u32> {
    deps.filter(|d: ModDependency| d.req_type == kind).map_values(|d: ModDependency| d.add_on_id)
}

impl ModFile {
    /// The ids of the entries that this file depends on with the given
    /// strength, in the order in which the file lists them.
    pub fn dependency_ids(&self, kind: ReqType) -> (ids: Vec<u32>)
        ensures
            ids@ == ids_of_kind(self.dependencies@, kind),
    {
        let ghost wanted = |d: ModDependency| d.req_type == kind;
        let ghost id_of = |d: ModDependency| d.add_on_id;
        let mut ids: Vec<u32> = Vec::new();
        let mut i: usize = 0;
        proof {
            assert(self.dependencies@.take(0) =~= Seq::<ModDependency>::empty());
            reveal(Seq::filter);
        }
        while i < self.dependencies.len()
            invariant
                i <= self.dependencies@.len(),
                wanted == |d: ModDependency| d.req_type == kind,
                id_of == |d: ModDependency| d.add_on_id,
                ids@ == self.dependencies@.take(i as int).filter(wanted).map_values(id_of),
            decreases self.dependencies@.len() - i,
        {
            let dep = &self.dependencies[i];
            proof {
                let before = self.dependencies@.take(i as int);
                assert(self.dependencies@.take(i + 1) =~= before.push(*dep));
                before.lemma_filter_push(*dep, wanted);
                before.filter(wanted).lemma_push_map_commute(id_of, *dep);
            }
            if dep.req_type == kind {
                ids.push(dep.add_on_id);
            }
            i = i + 1;
        }
        proof {
            assert(self.dependencies@.take(i as int) =~= self.dependencies@);
        }
        ids
    }
}

impl Mod {
    /// Whether the entry's release record at the index is its first one for
    /// the game version.
    pub open spec fn first_release_at(&self, version: Seq<char>, at: int) -> bool {
        let records = self.game_version_latest_files@;
        &&& 0 <= at < records.len()
        &&& records[at].game_version@ == version
        &&& forall|j: int| 0 <= j < at ==> (#[trigger] records[j]).game_version@ != version
    }

    /// Whether the entry has no release record for the game version.
    pub open spec fn has_no_release(&self, version: Seq<char>) -> bool {
        forall|j: int|
            0 <= j < self.game_version_latest_files@.len() ==> (
            #[trigger] self.game_version_latest_files@[j]).game_version@ != version
    }

    /// Whether `found` is the first release record of this entry for the game
    /// version, or nothing where the entry has no record for it.
    pub open spec fn is_release_for(&self, version: Seq<char>, found: Option<&GameVersionRelease>) -> bool {
        match found {
            Some(release) => exists|at: int| #[trigger]
                self.first_release_at(version, at) && self.game_version_latest_files@[at]
                    == *release,
            None => self.has_no_release(version),
        }
    }

    /// The release record of this entry for the game version: the first one
    /// in the entry's list that names the version.
    pub fn release_for_mc_version(&self, version: &str) -> (found: Option<&GameVersionRelease>)
        ensures
            self.is_release_for(version@, found),
    {
        let mut i: usize = 0;
        while i < self.game_version_latest_files.len()
            invariant
                i <= self.game_version_latest_files@.len(),
                forall|j: int|
                    0 <= j < i ==> (#[trigger] self.game_version_latest_files@[j]).game_version@
                        != version@,
            decreases self.game_version_latest_files@.len() - i,
        {
            let release = &self.game_version_latest_files[i];
            if *release.game_version.as_str() == *version {
                assert(self.first_release_at(version@, i as int));
                return Some(release);
            }
            i = i + 1;
        }
        None
    }

    /// Whether the entry's latest file at the index is the first one that
    /// supports the game version.
    pub open spec fn first_file_at(&self, version: Seq<char>, at: int) -> bool {
        &&& 0 <= at < self.latest_files@.len()
        &&& self.latest_files@[at].is_for(version)
        &&& forall|j: int| 0 <= j < at ==> !(#[trigger] self.latest_files@[j]).is_for(version)
    }

    /// Whether none of the entry's latest files supports the game version.
    pub open spec fn has_no_file(&self, version: Seq<char>) -> bool {
        forall|j: int|
            0 <= j < self.latest_files@.len() ==> !(#[trigger] self.latest_files@[j]).is_for(
                version,
            )
    }

    /// Whether `found` is the first of this entry's latest files that
    /// supports the game version, or nothing where none of them does.
    pub open spec fn is_latest_file_for(&self, version: Seq<char>, found: Option<&ModFile>) -> bool {
        match found {
            Some(file) => exists|at: int| #[trigger]
                self.first_file_at(version, at) && self.latest_files@[at] == *file,
            None => self.has_no_file(version),
        }
    }

    /// The first of this entry's latest files that supports the game version.
    /// The list holds the latest uploads only, so this may find nothing for a
    /// version that the entry has a release record for.
    pub fn latest_file_for(&self, version: &str) -> (found: Option<&ModFile>)
        ensures
            self.is_latest_file_for(version@, found),
    {
        let mut i: usize = 0;
        while i < self.latest_files.len()
            invariant
                i <= self.latest_files@.len(),
                forall|j: int| 0 <= j < i ==> !(#[trigger] self.latest_files@[j]).is_for(version@),
            decreases self.latest_files@.len() - i,
        {
            let file = &self.latest_files[i];
            if file.supports(version) {
                assert(self.first_file_at(version@, i as int));
                return Some(file);
            }
            i = i + 1;
        }
        None
    }

    /// The part of an address that names the entry: what follows the
    /// projects address, or the whole address where it does not start
    /// with it.
    pub open spec fn slug_of(url: Seq<char>) -> Seq<char> {
        if PROJECTS_URL@.is_prefix_of(url) {
            url.skip(PROJECTS_URL@.len() as int)
        } else {
            url
        }
    }

    /// The slug of this entry, taken from its web site address.
    pub fn slug(&self) -> (slug: &str)
        ensures
            slug@ == Self::slug_of(self.web_site_url@),
    {
        match str_strip_prefix(self.web_site_url.as_str(), PROJECTS_URL) {
            Some(rest) => {
                assert(rest@ =~= self.web_site_url@.skip(PROJECTS_URL@.len() as int));
                assert(PROJECTS_URL@.is_prefix_of(self.web_site_url@));
                rest
            },
            None => self.web_site_url.as_str(),
        }
    }
}

/// What an entry is asked for when the catalog is searched for any match.
pub enum Probe {
    /// The entry's id.
    Id(u32),
    /// A lower-case text that the entry's lower-cased address ends in.
    Slug(String),
}

impl Probe {
    /// Whether the entry is one that the probe asks for.
    pub open spec fn accepts(&self, entry: &Mod) -> bool {
        match self {
            Probe::Id(id) => entry.id == *id,
            Probe::Slug(ending) => ending@.is_suffix_of(lowercase(entry.web_site_url@)),
        }
    }

    /// Tests one entry against the probe.
    pub fn test(&self, entry: &Mod) -> (accepted: bool)
        ensures
            accepted == self.accepts(entry),
    {
        match self {
            Probe::Id(id) => entry.id == *id,
            Probe::Slug(ending) => {
                let address = entry.web_site_url.as_str().to_lowercase();
                str_ends_with(address.as_str(), ending.as_str())
            },
        }
    }
}

/// Whether `found` answers a search for any entry that the probe accepts:
/// some accepted entry of the list, or nothing where the list holds none.
pub open spec fn is_any_match(mods: Seq<Mod>, probe: &Probe, found: Option<&Mod>) -> bool {
    match found {
        Some(entry) => mods.contains(*entry) && probe.accepts(entry),
        None => forall|i: int| 0 <= i < mods.len() ==> !probe.accepts(&#[trigger] mods[i]),
    }
}

/// `ParallelIterator::find_any` of rayon, over the entries of a list: the
/// search is spread over rayon's threads and gives back some entry that the
/// probe accepts, not necessarily the first, or nothing when no entry is
/// accepted.
#[verifier::external_body]
fn find_any<'a>(mods: &'a Vec<Mod>, probe: &Probe) -> (found: Option<&'a Mod>)
    ensures
        is_any_match(mods@, probe, found),
{
    mods.par_iter().find_any(|entry| probe.test(entry))
}

impl ModDb {
    /// Whether `found` answers a search by slug: some entry whose lower-cased
    /// address ends in the lower-cased fragment, or nothing where there is
    /// none.
    pub open spec fn is_slug_match(&self, fragment: Seq<char>, found: Option<&Mod>) -> bool {
        match found {
            Some(entry) => self.mods@.contains(*entry) && lowercase(fragment).is_suffix_of(
                lowercase(entry.web_site_url@),
            ),
            None => forall|i: int|
                0 <= i < self.mods@.len() ==> !lowercase(fragment).is_suffix_of(
                    lowercase((#[trigger] self.mods@[i]).web_site_url@),
                ),
        }
    }

    /// Finds an entry whose web site address ends in the given fragment,
    /// without regard to case. Where several entries match, any of them may
    /// be the one that is found.
    pub fn find_by_slug(&self, name: &str) -> (found: Option<&Mod>)
        ensures
            self.is_slug_match(name@, found),
    {
        let probe = Probe::Slug(name.to_lowercase());
        find_any(&self.mods, &probe)
    }

    /// Whether `found` answers a search by id: some entry with the id, or
    /// nothing where there is none.
    pub open spec fn is_id_match(&self, id: u32, found: Option<&Mod>) -> bool {
        match found {
            Some(entry) => self.mods@.contains(*entry) && entry.id == id,
            None => forall|i: int| 0 <= i < self.mods@.len() ==> (#[trigger] self.mods@[i]).id != id,
        }
    }

    /// Whether no two entries of the catalog have the same id, as it is in
    /// a valid catalog.
    pub open spec fn has_unique_ids(&self) -> bool {
        forall|i: int, j: int|
            0 <= i < j < self.mods@.len() ==> (#[trigger] self.mods@[i]).id != (
            #[trigger] self.mods@[j]).id
    }

    /// In a catalog with unique ids a search by id has one answer: whatever
    /// two searches for an id find is the same entry.
    pub proof fn lemma_one_answer_by_id(&self, id: u32, first: Option<&Mod>, second: Option<&Mod>)
        requires
            self.has_unique_ids(),
            self.is_id_match(id, first),
            self.is_id_match(id, second),
        ensures
            first == second,
    {
        match (first, second) {
            (Some(a), Some(b)) => {
                let i = choose|i: int| 0 <= i < self.mods@.len() && self.mods@[i] == *a;
                let j = choose|j: int| 0 <= j < self.mods@.len() && self.mods@[j] == *b;
                if i < j {
                    assert(self.mods@[i].id != self.mods@[j].id);
                } else if j < i {
                    assert(self.mods@[j].id != self.mods@[i].id);
                }
            },
            (Some(a), None) => {
                let i = choose|i: int| 0 <= i < self.mods@.len() && self.mods@[i] == *a;
                assert(self.mods@[i].id != id);
            },
            (None, Some(b)) => {
                let j = choose|j: int| 0 <= j < self.mods@.len() && self.mods@[j] == *b;
                assert(self.mods@[j].id != id);
            },
            (None, None) => {},
        }
    }

    /// Finds the entry with the given id. Ids are unique in a valid catalog;
    /// in one that repeats an id, any entry with the id may be found.
    pub fn find_by_id(&self, id: u32) -> (found: Option<&Mod>)
        ensures
            self.is_id_match(id, found),
    {
        let probe = Probe::Id(id);
        find_any(&self.mods, &probe)
    }
}


/// What a reference that a person typed is taken to be.
#[derive(Debug)]
pub enum Reference {
    /// The slug that followed the projects address.
    Slug(String),
    /// The id that the reference spelled out.
    Id(u32),
    /// A name, or a part of one.
    Name(String),
}

/// What a `Reference` holds, as plain values.
pub enum ReferenceView {
    Slug(Seq<char>),
    Id(u32),
    Name(Seq<char>),
}

impl View for Reference {
    type V = ReferenceView;

    open spec fn view(&self) -> ReferenceView {
        match self {
            Reference::Slug(slug) => ReferenceView::Slug(slug@),
            Reference::Id(id) => ReferenceView::Id(*id),
            Reference::Name(name) => ReferenceView::Name(name@),
        }
    }
}

impl Reference {
    /// The three rules by which a reference is read, in their order: one
    /// that starts with the projects address is a slug, namely what follows
    /// the address; any other that is a numeral of a `u32` is an id;
    /// everything else is a name.
    pub open spec fn of(token: Seq<char>) -> ReferenceView {
        if PROJECTS_URL@.is_prefix_of(token) {
            ReferenceView::Slug(token.skip(PROJECTS_URL@.len() as int))
        } else {
            match parsed_u32(token) {
                Some(id) => ReferenceView::Id(id),
                None => ReferenceView::Name(token),
            }
        }
    }

    /// Reads a reference by the three rules.
    pub fn classify(token: &str) -> (reference: Reference)
        ensures
            reference@ == Self::of(token@),
    {
        match str_strip_prefix(token, PROJECTS_URL) {
            Some(rest) => {
                assert(rest@ =~= token@.skip(PROJECTS_URL@.len() as int));
                assert(PROJECTS_URL@.is_prefix_of(token@));
                Reference::Slug(rest.to_owned())
            },
            None => match str_parse_u32(token) {
                Some(id) => Reference::Id(id),
                None => Reference::Name(token.to_owned()),
            },
        }
    }
}

impl ModDb {
    /// Whether `found` answers a reference: the answer of the search by
    /// slug, by id or by name that the reference's reading calls for.
    pub open spec fn is_answer_to(&self, reference: ReferenceView, found: Option<&Mod>) -> bool {
        match reference {
            ReferenceView::Slug(slug) => self.is_slug_match(slug, found),
            ReferenceView::Id(id) => self.is_id_match(id, found),
            ReferenceView::Name(name) => self.is_best_by_name(lowercase(name), found),
        }
    }

    /// Finds the entry that a typed reference points to: an address of the
    /// projects site is looked up by its slug, a number by id, anything else
    /// by name.
    pub fn wonky_find(&self, arg: &str) -> (found: Option<&Mod>)
        ensures
            self.is_answer_to(Reference::of(arg@), found),
    {
        match Reference::classify(arg) {
            Reference::Slug(slug) => self.find_by_slug(slug.as_str()),
            Reference::Id(id) => self.find_by_id(id),
            Reference::Name(name) => self.find_by_name(name.as_str()),
        }
    }
}

/// The rows that a search of the catalog shows: every entry whose name holds
/// the query, without regard to case, the most downloaded first.
pub fn search<'a>(db: &'a ModDb, name: &str) -> (rows: Vec<&'a Mod>)
    ensures
        entries_of(rows@).to_multiset() == db.name_hits(lowercase(name@)).to_multiset(),
        by_falling_downloads(entries_of(rows@)),
{
    db.search_by_name_substring(name)
}

/// The entry that a reference points to, for showing it. A reference that
/// leads to no entry is a failure that names the reference.
pub fn show<'a>(db: &'a ModDb, name: &str) -> (shown: Result<&'a Mod, PkgError>)
    ensures
        match shown {
            Ok(entry) => db.is_answer_to(Reference::of(name@), Some(entry)),
            Err(error) => db.is_answer_to(Reference::of(name@), None) && error@
                == PkgErrorView::NotFound(name@),
        },
{
    match db.wonky_find(name) {
        Some(entry) => Ok(entry),
        None => Err(PkgError::NotFound(name.to_owned())),
    }
}

} // verus!
