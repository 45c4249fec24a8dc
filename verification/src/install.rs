//! What an install decides: which entries a command is about, under which
//! names their files are written, how far a download has come, and what the
//! whole install comes to.

use crate::curse::{Mod, ModDb, ModFile, Reference};
use crate::error::{PkgError, PkgErrorView};
use crate::manifest::Dependency;
use crate::progress::Progress;
use crate::resolved_set::{distinct_ids, ResolvedSet};
use crate::text::{lowercase, str_ends_with};
use vstd::prelude::*;
use vstd::string::StringExecFns;

verus! {

/// The ending that the name of an installed file has.
pub const JAR: &'static str = ".jar";

/// The ending of a file that is still being written.
pub const PARTIAL: &'static str = ".part";

/// The total that a download shows before the server has answered.
pub const DOWNLOAD_INITIAL_LENGTH: u64 = 1_100_000;

/// The total that a download shows where the server announces no length.
pub const DOWNLOAD_ESTIMATE: u64 = 2_500_000;

/// The number of downloads that may run at the same time.
pub const PARALLEL_DOWNLOADS: usize = 5;

/// Whether the byte that was typed at a question confirms it: a line feed,
/// `y` or `Y`.
pub open spec fn is_yes(input: u8) -> bool {
    input == 10 || input == 121 || input == 89
}

/// Whether the first byte of an answer confirms the question that was
/// asked. Every other answer calls the command off.
pub fn confirm(input: u8) -> (confirmed: bool)
    ensures
        confirmed == is_yes(input),
{
    input == 10 || input == 121 || input == 89
}

/// What an install is asked to install.
#[derive(Debug)]
pub enum InstallMode {
    /// The one entry that the reference points to.
    Single(String),
    /// Everything that the modpack's manifest lists.
    Modpack,
}

/// Reads the argument of an install: with a reference, that entry is
/// installed, without one the modpack's dependencies are.
pub fn install(name: Option<String>) -> (mode: InstallMode)
    ensures
        match name {
            Some(reference) => mode matches InstallMode::Single(text) && text@ == reference@,
            None => mode is Modpack,
        },
{
    match name {
        Some(reference) => InstallMode::Single(reference),
        None => InstallMode::Modpack,
    }
}

/// Finds the entry that a single install is about: the reference is put in
/// lower case and looked up as a reference to the catalog. A reference that
/// leads to no entry fails the install.
pub fn install_single<'a>(db: &'a ModDb, name: &str) -> (target: Result<&'a Mod, PkgError>)
    ensures
        match target {
            Ok(entry) => db.is_answer_to(Reference::of(lowercase(name@)), Some(entry)),
            Err(error) => db.is_answer_to(Reference::of(lowercase(name@)), None) && error@
                == PkgErrorView::NotFound(lowercase(name@)),
        },
{
    let lowered = name.to_lowercase();
    match db.wonky_find(lowered.as_str()) {
        Some(entry) => Ok(entry),
        None => Err(PkgError::NotFound(lowered)),
    }
}

/// Whether the catalog has an entry for the slug that a dependency names.
pub open spec fn is_known(db: &ModDb, slug: Seq<char>) -> bool {
    !db.is_slug_match(slug, None)
}

/// Finds the entries that a modpack's dependencies name, each by its slug,
/// in the order of the list. The first dependency that the catalog has no
/// entry for fails the install, and names itself in the failure.
pub fn install_modpack<'a>(db: &'a ModDb, dependencies: &Vec<Dependency>) -> (targets: Result<
    Vec<&'a Mod>,
    PkgError,
>)
    ensures
        match targets {
            Ok(entries) => entries@.len() == dependencies@.len() && forall|i: int|
                0 <= i < entries@.len() ==> db.is_slug_match(
                    dependencies@[i].name@,
                    Some(#[trigger] entries@[i]),
                ),
            Err(error) => exists|at: int|
                0 <= at < dependencies@.len() && !is_known(db, (#[trigger] dependencies@[at]).name@)
                    && error@ == PkgErrorView::NotFound(dependencies@[at].name@) && forall|i: int|
                    0 <= i < at ==> is_known(db, (#[trigger] dependencies@[i]).name@),
        },
{
    let mut entries: Vec<&Mod> = Vec::new();
    let mut i: usize = 0;
    while i < dependencies.len()
        invariant
            i <= dependencies@.len(),
            entries@.len() == i,
            forall|k: int|
                0 <= k < i ==> db.is_slug_match(dependencies@[k].name@, Some(#[trigger] entries@[k])),
            forall|k: int| 0 <= k < i ==> is_known(db, (#[trigger] dependencies@[k]).name@),
        decreases dependencies@.len() - i,
    {
        let name = dependencies[i].name;
        match db.find_by_slug(name) {
            Some(entry) => {
                proof {
                    let at = choose|at: int| 0 <= at < db.mods@.len() && db.mods@[at] == *entry;
                    assert(lowercase(name@).is_suffix_of(lowercase(db.mods@[at].web_site_url@)));
                }
                entries.push(entry);
            },
            None => {
                return Err(PkgError::NotFound(name.to_owned()));
            },
        }
        i = i + 1;
    }
    Ok(entries)
}

/// The name under which a file is installed: its own name where that ends
/// in `.jar`, and its name with `.jar` behind it where it does not.
pub open spec fn installed_name(file_name: Seq<char>) -> Seq<char> {
    if JAR@.is_suffix_of(file_name) {
        file_name
    } else {
        file_name + JAR@
    }
}

/// A file is always installed under a name that ends in `.jar`, and a name
/// that was made to end in it is left as it is when it is asked for again.
pub proof fn lemma_installed_name_ends_in_jar(file_name: Seq<char>)
    ensures
        JAR@.is_suffix_of(installed_name(file_name)),
        installed_name(installed_name(file_name)) == installed_name(file_name),
{
    if !JAR@.is_suffix_of(file_name) {
        let name = file_name + JAR@;
        assert(name.skip(name.len() - JAR@.len()) =~= JAR@);
    }
}

/// One file to fetch and where to put it.
#[derive(Debug)]
pub struct Download {
    /// The address that the file is fetched from.
    pub url: String,
    /// The name of the file in the target directory once it is whole.
    pub file_name: String,
    /// The name under which the file is written while it is fetched; it is
    /// given its final name once the last byte is on disk.
    pub partial_name: String,
}

impl Download {
    /// Whether this is the download for the file.
    pub open spec fn is_for(&self, file: ModFile) -> bool {
        &&& self.url@ == file.download_url@
        &&& self.file_name@ == installed_name(file.file_name@)
        &&& self.partial_name@ == installed_name(file.file_name@) + PARTIAL@
    }

    /// The download for a file.
    pub fn of(file: &ModFile) -> (download: Download)
        ensures
            download.is_for(*file),
    {
        let name = file.file_name.as_str();
        let file_name = if str_ends_with(name, JAR) {
            name.to_owned()
        } else {
            name.to_owned().concat(JAR)
        };
        let partial_name = file_name.clone().concat(PARTIAL);
        Download { url: file.download_url.clone(), file_name, partial_name }
    }
}

/// Plans the downloads for a resolved set: one for each file, in the order
/// of the set, so that no file is fetched twice.
pub fn install_mod(resolved: &ResolvedSet) -> (plan: Vec<Download>)
    ensures
        plan@.len() == resolved@.len(),
        forall|i: int| 0 <= i < plan@.len() ==> (#[trigger] plan@[i]).is_for(resolved@[i]),
        distinct_ids(resolved@),
{
    let files = resolved.files();
    let mut plan: Vec<Download> = Vec::new();
    let mut i: usize = 0;
    while i < files.len()
        invariant
            i <= files@.len(),
            plan@.len() == i,
            forall|k: int| 0 <= k < i ==> (#[trigger] plan@[k]).is_for(files@[k]),
        decreases files@.len() - i,
    {
        plan.push(Download::of(&files[i]));
        i = i + 1;
    }
    plan
}

/// The progress of a download that has been asked for and not answered.
pub fn download_pending() -> (progress: Progress)
    ensures
        progress == (Progress {
            position: 0,
            length: DOWNLOAD_INITIAL_LENGTH,
            determinate: false,
        }),
{
    Progress::new(DOWNLOAD_INITIAL_LENGTH)
}

/// Sets the total of a download once the server has answered: the length it
/// announced, or an estimate where it announced none, in which case the
/// bar moves without showing a true share.
pub fn download_answered(progress: &mut Progress, content_length: Option<u64>)
    ensures
        *final(progress) == (Progress {
            position: old(progress).position,
            length: match content_length {
                Some(length) => length,
                None => DOWNLOAD_ESTIMATE,
            },
            determinate: content_length is Some,
        }),
{
    progress.set_length(content_length, DOWNLOAD_ESTIMATE);
}

/// Whether the outcome at the index is the first failure of the list.
pub open spec fn first_failure_at(outcomes: Seq<Result<(), PkgError>>, at: int) -> bool {
    &&& 0 <= at < outcomes.len()
    &&& outcomes[at] is Err
    &&& forall|i: int| 0 <= i < at ==> (#[trigger] outcomes[i]) is Ok
}

/// What an install comes to, given what became of each of its downloads in
/// the order of the plan: it succeeds where every download did, and fails
/// with the first failure of the list where one did not.
pub fn install_outcome(outcomes: Vec<Result<(), PkgError>>) -> (outcome: Result<(), PkgError>)
    ensures
        match outcome {
            Ok(()) => forall|i: int| 0 <= i < outcomes@.len() ==> (#[trigger] outcomes@[i]) is Ok,
            Err(error) => exists|at: int| #[trigger]
                first_failure_at(outcomes@, at) && outcomes@[at] == Err::<(), PkgError>(error),
        },
{
    let mut list = outcomes;
    let mut i: usize = 0;
    while i < list.len()
        invariant
            i <= list@.len(),
            list@ == outcomes@,
            forall|k: int| 0 <= k < i ==> (#[trigger] outcomes@[k]) is Ok,
        decreases list@.len() - i,
    {
        let failed = match &list[i] {
            Ok(_) => false,
            Err(_) => true,
        };
        if failed {
            assert(first_failure_at(outcomes@, i as int));
            return list.remove(i);
        }
        i = i + 1;
    }
    Ok(())
}

} // verus!
