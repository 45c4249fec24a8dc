//! What is read of a game instance: the components of a MultiMC pack and the
//! game version among them.

use crate::error::{PkgError, PkgErrorView};
use crate::text::str_ends_with;
use vstd::prelude::*;
use vstd::string::StringExecFns;

verus! {

/// The id of the component that is the game itself.
pub const MINECRAFT_UID: &'static str = "net.minecraft";

/// The components of a MultiMC instance.
#[derive(Debug)]
pub struct Pack {
    pub components: Vec<Component>,
}

/// One component of an instance, with the version it is installed in.
#[derive(Debug)]
pub struct Component {
    pub cached_name: String,
    pub uid: String,
    pub cached_version: String,
}

/// The version that a component asks of another.
#[derive(Debug)]
pub struct Requirement {
    pub equals: String,
}

impl Pack {
    /// Whether the component at the index is the first one that is the game.
    pub open spec fn first_game_at(&self, at: int) -> bool {
        &&& 0 <= at < self.components@.len()
        &&& self.components@[at].uid@ == MINECRAFT_UID@
        &&& forall|j: int| 0 <= j < at ==> (#[trigger] self.components@[j]).uid@ != MINECRAFT_UID@
    }

    /// Whether no component of the pack is the game.
    pub open spec fn has_no_game(&self) -> bool {
        forall|j: int|
            0 <= j < self.components@.len() ==> (#[trigger] self.components@[j]).uid@
                != MINECRAFT_UID@
    }

    /// The component that is the game itself: the first one with the game's
    /// id, or nothing where the pack has none.
    pub fn mc_component(&self) -> (found: Option<&Component>)
        ensures
            match found {
                Some(component) => exists|at: int| #[trigger]
                    self.first_game_at(at) && self.components@[at] == *component,
                None => self.has_no_game(),
            },
    {
        let mut i: usize = 0;
        while i < self.components.len()
            invariant
                i <= self.components@.len(),
                forall|j: int|
                    0 <= j < i ==> (#[trigger] self.components@[j]).uid@ != MINECRAFT_UID@,
            decreases self.components@.len() - i,
        {
            let component = &self.components[i];
            if *component.uid.as_str() == *MINECRAFT_UID {
                assert(self.first_game_at(i as int));
                return Some(component);
            }
            i = i + 1;
        }
        None
    }

    /// Whether `version` is the version of the pack's game component, or
    /// nothing where the pack has none.
    pub open spec fn is_game_version(&self, version: Option<Seq<char>>) -> bool {
        match version {
            Some(text) => exists|at: int| #[trigger]
                self.first_game_at(at) && self.components@[at].cached_version@ == text,
            None => self.has_no_game(),
        }
    }

    /// The version of the game that the pack has installed: the version of
    /// its game component, or nothing where it has none.
    pub fn mc_version(&self) -> (version: Option<&str>)
        ensures
            match version {
                Some(text) => self.is_game_version(Some(text@)),
                None => self.is_game_version(None),
            },
    {
        match self.mc_component() {
            Some(component) => {
                proof {
                    let at = choose|at: int| #[trigger]
                        self.first_game_at(at) && self.components@[at] == *component;
                    assert(self.first_game_at(at));
                }
                Some(component.cached_version.as_str())
            },
            None => None,
        }
    }
}


/// The directory of a vanilla launcher that holds one directory for each
/// installed version of the game.
pub const VERSIONS_DIR: &'static str = "versions";

/// The directory of an instance that mods are installed into.
pub const MODS_DIR: &'static str = "mods";

/// The name that the game's directory has in a MultiMC instance.
pub const GAME_DIR: &'static str = "minecraft";

/// The other name that the game's directory may have in a MultiMC instance.
pub const HIDDEN_GAME_DIR: &'static str = ".minecraft";

/// How version-compare orders two version texts: below zero where the left
/// one is the older, zero where they are equal, above zero where the left
/// one is the newer, and nothing where one of them is no version.
pub uninterp spec fn version_order(left: Seq<char>, right: Seq<char>) -> Option<i8>;

/// `version_compare::compare`, with the order it finds turned into a number
/// by `Cmp::factor`.
#[verifier::external_body]
fn compare_versions(left: &str, right: &str) -> (order: Option<i8>)
    ensures
        order == version_order(left@, right@),
{
    version_compare::compare(left, right).ok().map(|order| order.factor())
}

/// Which of two versions a scan for the latest goes on with, given how the
/// one it holds compares to the one it has come to: it keeps the one it
/// holds only where that is strictly the newer.
pub fn newer_of(held: usize, candidate: usize, order: i8) -> (kept: usize)
    ensures
        kept == if order > 0 {
            held
        } else {
            candidate
        },
{
    if order > 0 {
        held
    } else {
        candidate
    }
}

/// What a scan of version names for the latest comes to.
pub enum Scan {
    /// There are no names.
    Empty,
    /// The name at the index is the latest.
    Latest(int),
    /// The name at the index could not be compared with the latest before it.
    Malformed(int),
}

/// Scans version names for the latest, from the first to the last: each name
/// is compared with the latest of those before it and takes its place
/// unless it is strictly older. The scan ends at the first pair that cannot
/// be compared.
pub open spec fn scan_versions(names: Seq<String>) -> Scan
    decreases names.len(),
{
    if names.len() == 0 {
        Scan::Empty
    } else {
        let last = names.len() - 1;
        match scan_versions(names.drop_last()) {
            Scan::Empty => Scan::Latest(last),
            Scan::Malformed(at) => Scan::Malformed(at),
            Scan::Latest(best) => match version_order(names[best]@, names[last]@) {
                None => Scan::Malformed(last),
                Some(order) => Scan::Latest(
                    if order > 0 {
                        best
                    } else {
                        last
                    },
                ),
            },
        }
    }
}

/// The index of the latest of the version names, or nothing where there are
/// no names. Names that cannot be compared as versions are refused.
pub fn latest_version(names: &Vec<String>) -> (latest: Result<Option<usize>, PkgError>)
    ensures
        match scan_versions(names@) {
            Scan::Empty => latest matches Ok(None),
            Scan::Latest(at) => latest matches Ok(Some(index)) && index == at,
            Scan::Malformed(at) => latest matches Err(error) && 0 <= at < names@.len() && error@
                == PkgErrorView::InvalidReference(names@[at]@),
        },
{
    if names.len() == 0 {
        return Ok(None);
    }
    let mut best: usize = 0;
    let mut i: usize = 1;
    proof {
        assert(names@.take(1).drop_last() =~= Seq::<String>::empty());
        assert(scan_versions(names@.take(1).drop_last()) == Scan::Empty);
    }
    while i < names.len()
        invariant
            1 <= i <= names@.len(),
            best < i,
            scan_versions(names@.take(i as int)) == Scan::Latest(best as int),
        decreases names@.len() - i,
    {
        proof {
            assert(names@.take(i + 1).drop_last() =~= names@.take(i as int));
        }
        match compare_versions(names[best].as_str(), names[i].as_str()) {
            Some(order) => {
                best = newer_of(best, i, order);
            },
            None => {
                proof {
                    assert(scan_versions(names@.take(i + 1)) == Scan::Malformed(i as int));
                    lemma_scan_stops(names@, i + 1);
                }
                return Err(PkgError::InvalidReference(names[i].clone()));
            },
        }
        i = i + 1;
    }
    proof {
        assert(names@.take(i as int) =~= names@);
    }
    Ok(Some(best))
}

/// A scan that has met a pair it cannot compare ends there, however many
/// names follow.
pub proof fn lemma_scan_stops(names: Seq<String>, upto: int)
    requires
        0 <= upto <= names.len(),
        scan_versions(names.take(upto)) is Malformed,
    ensures
        scan_versions(names) == scan_versions(names.take(upto)),
    decreases names.len() - upto,
{
    if upto < names.len() {
        assert(names.take(upto + 1).drop_last() =~= names.take(upto));
        lemma_scan_stops(names, upto + 1);
    } else {
        assert(names.take(upto) =~= names);
    }
}

/// The launcher that an instance belongs to.
#[derive(Debug, Clone, Copy, PartialEq, Eq, Structural)]
pub enum Flavour {
    MultiMC,
    Vanilla,
}

/// An installed instance of the game.
#[derive(Debug)]
pub struct McInstance {
    pub flavour: Flavour,
    pub version: Option<String>,
    /// The directory that mods are installed into.
    pub mods_dir: String,
}

/// The directory `name` inside the directory `dir`.
pub open spec fn inside(dir: Seq<char>, name: Seq<char>) -> Seq<char> {
    dir + seq!['/'] + name
}

/// Whether a path leads to a directory of the given name: it is the name,
/// or ends in a slash and the name.
pub open spec fn leads_to(path: Seq<char>, name: Seq<char>) -> bool {
    path == name || (seq!['/'] + name).is_suffix_of(path)
}

/// Whether a path leads to the game's directory of a MultiMC instance.
pub open spec fn is_game_dir(path: Seq<char>) -> bool {
    leads_to(path, GAME_DIR@) || leads_to(path, HIDDEN_GAME_DIR@)
}

/// Whether a path leads to a directory of the given name.
fn path_leads_to(path: &str, name: &str) -> (leads: bool)
    ensures
        leads == leads_to(path@, name@),
{
    proof {
        reveal_strlit("/");
        assert("/"@ =~= seq!['/']);
    }
    if *path == *name {
        return true;
    }
    let ending = "/".to_owned().concat(name);
    str_ends_with(path, ending.as_str())
}

impl McInstance {
    /// The version of the game that an install works for. An instance
    /// without an installed version fails the command at this point, before
    /// anything is asked of the network.
    pub fn require_version(&self) -> (version: Result<&str, PkgError>)
        ensures
            match version {
                Ok(text) => self.version matches Some(held) && held@ == text@,
                Err(error) => self.version is None && error@ == PkgErrorView::NotFound(
                    MINECRAFT_UID@,
                ),
            },
    {
        match &self.version {
            Some(held) => Ok(held.as_str()),
            None => Err(PkgError::NotFound(MINECRAFT_UID.to_owned())),
        }
    }

    /// The version of the game that the instance has installed.
    pub fn mc_version(&self) -> (version: Option<&str>)
        ensures
            match version {
                Some(text) => self.version matches Some(held) && held@ == text@,
                None => self.version is None,
            },
    {
        match &self.version {
            Some(held) => Some(held.as_str()),
            None => None,
        }
    }
}

/// Makes out a MultiMC instance from its pack and the paths found in its
/// directory: the game's directory is the first path that leads to one of
/// the two names it may have, and mods go into `mods` inside it. Without
/// such a path there is no instance.
pub fn read_mmc_pack(pack: &Pack, paths: &Vec<String>) -> (instance: Option<McInstance>)
    ensures
        match instance {
            Some(found) => found.flavour == Flavour::MultiMC && pack.is_game_version(
                match found.version {
                    Some(text) => Some(text@),
                    None => None,
                },
            ) && exists|at: int|
                0 <= at < paths@.len() && is_game_dir(#[trigger] paths@[at]@) && found.mods_dir@
                    == inside(paths@[at]@, MODS_DIR@) && forall|j: int|
                    0 <= j < at ==> !is_game_dir(#[trigger] paths@[j]@),
            None => forall|j: int| 0 <= j < paths@.len() ==> !is_game_dir(#[trigger] paths@[j]@),
        },
{
    let mut i: usize = 0;
    while i < paths.len()
        invariant
            i <= paths@.len(),
            forall|j: int| 0 <= j < i ==> !is_game_dir(#[trigger] paths@[j]@),
        decreases paths@.len() - i,
    {
        let path = paths[i].as_str();
        if path_leads_to(path, GAME_DIR) || path_leads_to(path, HIDDEN_GAME_DIR) {
            proof {
                reveal_strlit("/");
                assert("/"@ =~= seq!['/']);
            }
            let version = match pack.mc_version() {
                Some(text) => Some(text.to_owned()),
                None => None,
            };
            let mods_dir = path.to_owned().concat("/").concat(MODS_DIR);
            return Some(McInstance { flavour: Flavour::MultiMC, version, mods_dir });
        }
        i = i + 1;
    }
    None
}

/// Makes out a vanilla instance from the names of the versions that the
/// launcher has installed: the latest of them is the instance's version,
/// and mods go into `versions`, the version, `mods`. Without an installed
/// version there is no instance, and names that are no versions are
/// refused.
pub fn read_vanilla_instance(versions: &Vec<String>) -> (instance: Result<McInstance, PkgError>)
    ensures
        match scan_versions(versions@) {
            Scan::Empty => instance matches Err(error) && error@ == PkgErrorView::NotFound(
                VERSIONS_DIR@,
            ),
            Scan::Latest(at) => {
                &&& instance matches Ok(found)
                &&& 0 <= at < versions@.len()
                &&& found.flavour == Flavour::Vanilla
                &&& found.version matches Some(version)
                &&& version@ == versions@[at]@
                &&& found.mods_dir@ == inside(inside(VERSIONS_DIR@, versions@[at]@), MODS_DIR@)
            },
            Scan::Malformed(at) => instance matches Err(error) && 0 <= at < versions@.len()
                && error@ == PkgErrorView::InvalidReference(versions@[at]@),
        },
{
    match latest_version(versions) {
        Ok(Some(at)) => {
            proof {
                reveal_strlit("/");
                assert("/"@ =~= seq!['/']);
                lemma_latest_in_range(versions@);
            }
            let latest = versions[at].clone();
            let mods_dir = VERSIONS_DIR.to_owned().concat("/").concat(latest.as_str()).concat(
                "/",
            ).concat(MODS_DIR);
            Ok(McInstance { flavour: Flavour::Vanilla, version: Some(latest), mods_dir })
        },
        Ok(None) => Err(PkgError::NotFound(VERSIONS_DIR.to_owned())),
        Err(error) => Err(error),
    }
}

/// The latest of some names is one of them.
pub proof fn lemma_latest_in_range(names: Seq<String>)
    ensures
        scan_versions(names) matches Scan::Latest(at) ==> 0 <= at < names.len(),
        scan_versions(names) matches Scan::Malformed(at) ==> 0 <= at < names.len(),
    decreases names.len(),
{
    if names.len() > 0 {
        lemma_latest_in_range(names.drop_last());
    }
}


/// The name of the file that holds a modpack's manifest.
pub const MANIFEST_FILE: &'static str = "minepkg.toml";

/// What an attempt to read the manifest of an instance came to.
#[derive(Debug, Clone, Copy, PartialEq, Eq, Structural)]
pub enum ManifestRead {
    /// The manifest was read and understood.
    Loaded,
    /// There is no manifest.
    Missing,
    /// The manifest is there and could not be read.
    Unreadable,
    /// The manifest was read and makes no sense.
    Invalid,
}

/// Which manifest an instance goes on with.
#[derive(Debug)]
pub enum ManifestPlan {
    /// The manifest that was read.
    Existing,
    /// A new manifest that asks for the given version of the game.
    New(String),
}

impl McInstance {
    /// Decides which manifest the instance goes on with. A manifest that
    /// was read is kept. Where there is none, a new one is made for the
    /// instance's version of the game, which the instance has to have. A
    /// manifest that cannot be read or makes no sense is a failure and is
    /// never replaced by a new one.
    pub fn manifest(&self, read: ManifestRead) -> (plan: Result<ManifestPlan, PkgError>)
        ensures
            match read {
                ManifestRead::Loaded => plan matches Ok(ManifestPlan::Existing),
                ManifestRead::Missing => match self.version {
                    Some(version) => plan matches Ok(ManifestPlan::New(asked)) && asked@
                        == version@,
                    None => plan matches Err(error) && error@ == PkgErrorView::NotFound(
                        MINECRAFT_UID@,
                    ),
                },
                ManifestRead::Unreadable => plan matches Err(error) && error@
                    == PkgErrorView::IoError,
                ManifestRead::Invalid => plan matches Err(error) && error@
                    == PkgErrorView::InvalidReference(MANIFEST_FILE@),
            },
    {
        match read {
            ManifestRead::Loaded => Ok(ManifestPlan::Existing),
            ManifestRead::Missing => match &self.version {
                Some(version) => Ok(ManifestPlan::New(version.clone())),
                None => Err(PkgError::NotFound(MINECRAFT_UID.to_owned())),
            },
            ManifestRead::Unreadable => Err(PkgError::IoError),
            ManifestRead::Invalid => Err(PkgError::InvalidReference(MANIFEST_FILE.to_owned())),
        }
    }
}

} // verus!
