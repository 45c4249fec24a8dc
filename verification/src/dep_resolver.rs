//! The resolution of an entry's required dependencies, as a machine that is
//! told what the metadata service answered and says what to ask next.
//!
//! A resolution is a pool of branches. Each branch starts from the id of an
//! entry: the entry is fetched, its release for the game version is picked,
//! that file is fetched and put into the resolved set. Where the file is new
//! to the set, every entry that it requires starts a branch of its own;
//! where it is not, the branch ends there. The machine holds the ids that
//! wait for a branch, counts the branches under way and keeps the set; the
//! fetching is the caller's, who may run as many branches at a time as it
//! likes.

use crate::curse::{ids_of_kind, Mod, ModFile, ReqType};
use crate::error::{PkgError, PkgErrorView};
use crate::resolved_set::{distinct_ids, holds, with_file, ResolvedSet};
use crate::text::{decimal, parsed_u32, str_parse_u32, u32_to_string};
use vstd::prelude::*;
use vstd::string::StringExecFns;

verus! {

/// The address that an entry's metadata is fetched from is this, followed by
/// the entry's id.
pub const ADD_ON_URL: &'static str = "https://cursemeta.dries007.net/api/v2/direct/GetAddOn/";

/// The address that a file's metadata is fetched from is this, followed by
/// the entry's id, a slash and the file's id.
pub const ADD_ON_FILE_URL: &'static str =
    "https://cursemeta.dries007.net/api/v2/direct/GetAddOnFile/";

/// The game version that a new resolver asks for.
pub const DEFAULT_MC_VERSION: &'static str = "1.12.2";

/// A resolution in progress.
pub struct DepResolver {
    /// The game version that files are picked for.
    pub mc_version: String,
    resolved_deps: ResolvedSet,
    pending: Vec<u32>,
    in_flight: usize,
    failure: Option<PkgError>,
}

/// What a `DepResolver` holds, as plain values.
pub struct DepResolverView {
    /// The game version that files are picked for.
    pub mc_version: Seq<char>,
    /// The files settled on so far, in the order in which they were.
    pub resolved: Seq<ModFile>,
    /// The ids of the entries that wait for a branch; the last goes first.
    pub pending: Seq<u32>,
    /// The number of branches that were handed out and have not ended.
    pub in_flight: nat,
    /// The first failure, if any branch has failed.
    pub failure: Option<PkgErrorView>,
}

impl DepResolverView {
    /// Whether nothing is left to do: no branch waits and none is under way.
    pub open spec fn is_done(self) -> bool {
        self.failure is None && self.pending.len() == 0 && self.in_flight == 0
    }

    /// Whether the resolution has come to an end, well or badly.
    pub open spec fn is_settled(self) -> bool {
        self.failure is Some || self.is_done()
    }

    /// Whether a branch is handed out now: no branch has failed, an entry
    /// waits, and one more branch can be counted.
    pub open spec fn hands_out(self) -> bool {
        self.failure is None && self.pending.len() > 0 && self.in_flight < usize::MAX
    }

    /// What the resolver holds after it has handed out a branch for the
    /// last of the entries that wait.
    pub open spec fn after_task(self) -> DepResolverView {
        DepResolverView {
            pending: self.pending.drop_last(),
            in_flight: self.in_flight + 1,
            ..self
        }
    }

    /// Whether a file that arrives now goes into the resolved set: no
    /// branch has failed and the set has no file with its id.
    pub open spec fn takes(self, file: ModFile) -> bool {
        self.failure is None && !holds(self.resolved, file.id)
    }

    /// What the resolver holds after a branch has ended with a file.
    pub open spec fn after_file(self, file: ModFile) -> DepResolverView {
        DepResolverView {
            resolved: if self.failure is None {
                with_file(self.resolved, file)
            } else {
                self.resolved
            },
            pending: if self.takes(file) {
                self.pending + ids_of_kind(file.dependencies@, ReqType::Required)
            } else {
                self.pending
            },
            in_flight: self.one_less_in_flight(),
            ..self
        }
    }

    /// The work that lies before the resolver without a new file: two
    /// steps for each entry that waits, to hand out its branch and to end
    /// it, and one step for each branch under way.
    pub open spec fn work_left(self) -> nat {
        2 * self.pending.len() + self.in_flight
    }

    /// The count of branches under way after one of them has ended.
    pub open spec fn one_less_in_flight(self) -> nat {
        if self.in_flight > 0 {
            (self.in_flight - 1) as nat
        } else {
            0
        }
    }
}

impl View for DepResolver {
    type V = DepResolverView;

    closed spec fn view(&self) -> DepResolverView {
        DepResolverView {
            mc_version: self.mc_version@,
            resolved: self.resolved_deps@,
            pending: self.pending@,
            in_flight: self.in_flight as nat,
            failure: match self.failure {
                Some(error) => Some(error@),
                None => None,
            },
        }
    }
}

impl DepResolver {
    /// A resolver with nothing resolved and nothing to do, for the default
    /// game version.
    pub fn new() -> (resolver: DepResolver)
        ensures
            resolver@ == (DepResolverView {
                mc_version: DEFAULT_MC_VERSION@,
                resolved: Seq::empty(),
                pending: Seq::empty(),
                in_flight: 0,
                failure: None,
            }),
    {
        DepResolver {
            mc_version: DEFAULT_MC_VERSION.to_owned(),
            resolved_deps: ResolvedSet::new(),
            pending: Vec::new(),
            in_flight: 0,
            failure: None,
        }
    }

    /// Sets the game version that files are picked for.
    pub fn set_mc_version(&mut self, version: String)
        ensures
            final(self)@ == (DepResolverView { mc_version: version@, ..old(self)@ }),
    {
        self.mc_version = version;
    }

    /// The address from which the metadata of the entry with the id is
    /// fetched.
    pub fn fetch_mod(mod_id: u32) -> (address: String)
        ensures
            address@ == ADD_ON_URL@ + decimal(mod_id as nat),
    {
        let id = u32_to_string(mod_id);
        ADD_ON_URL.to_owned().concat(id.as_str())
    }

    /// The address from which the metadata of a file of an entry is fetched.
    pub fn fetch_file(add_on_id: u32, file_id: u32) -> (address: String)
        ensures
            address@ == ADD_ON_FILE_URL@ + decimal(add_on_id as nat) + seq!['/'] + decimal(
                file_id as nat,
            ),
    {
        let entry = u32_to_string(add_on_id);
        let file = u32_to_string(file_id);
        proof {
            reveal_strlit("/");
            assert("/"@ =~= seq!['/']);
        }
        ADD_ON_FILE_URL.to_owned().concat(entry.as_str()).concat("/").concat(file.as_str())
    }

    /// Starts a branch for the entry that the text names by its id. A text
    /// that is no id is refused and changes nothing.
    pub fn resolve(&mut self, mod_id: &str) -> (started: Result<(), PkgError>)
        ensures
            match parsed_u32(mod_id@) {
                Some(id) => started is Ok && final(self)@ == (DepResolverView {
                    pending: old(self)@.pending.push(id),
                    ..old(self)@
                }),
                None => started matches Err(error) && error@ == PkgErrorView::InvalidReference(
                    mod_id@,
                ) && final(self)@ == old(self)@,
            },
    {
        match str_parse_u32(mod_id) {
            Some(id) => {
                self.pending.push(id);
                Ok(())
            },
            None => Err(PkgError::InvalidReference(mod_id.to_owned())),
        }
    }

    /// Hands out the next branch to run: the id of the entry to fetch, taken
    /// from the end of those that wait. Nothing is handed out once a branch
    /// has failed, when none waits, or when no more branches can be counted.
    pub fn next_task(&mut self) -> (task: Option<u32>)
        ensures
            match task {
                Some(id) => old(self)@.hands_out() && id == old(self)@.pending.last()
                    && final(self)@ == old(self)@.after_task(),
                None => !old(self)@.hands_out() && final(self)@ == old(self)@,
            },
    {
        if self.failure.is_some() || self.in_flight == usize::MAX {
            return None;
        }
        match self.pending.pop() {
            Some(id) => {
                self.in_flight = self.in_flight + 1;
                Some(id)
            },
            None => None,
        }
    }

    /// Picks the file of an entry for the resolver's game version: the file
    /// that the entry's first release record for the version names, as the
    /// pair of the entry's id and the file's id. An entry without a release
    /// for the version is a failure that names the entry and the version.
    pub fn select_file(&self, entry: &Mod) -> (choice: Result<(u32, u32), PkgError>)
        ensures
            match choice {
                Ok((entry_id, file_id)) => entry_id == entry.id && exists|at: int| #[trigger]
                    entry.first_release_at(self@.mc_version, at)
                        && entry.game_version_latest_files@[at].file_id == file_id,
                Err(error) => entry.has_no_release(self@.mc_version) && error@
                    == (PkgErrorView::UnsupportedVersion {
                    name: entry.name@,
                    version: self@.mc_version,
                }),
            },
    {
        match entry.release_for_mc_version(self.mc_version.as_str()) {
            Some(release) => {
                proof {
                    let version = self@.mc_version;
                    let at = choose|at: int| #[trigger]
                        entry.first_release_at(version, at)
                            && entry.game_version_latest_files@[at] == *release;
                    assert(entry.first_release_at(version, at));
                    assert(entry.game_version_latest_files@[at].file_id == release.file_id);
                }
                Ok((entry.id, release.file_id))
            },
            None => Err(
                PkgError::UnsupportedVersion {
                    name: entry.name.clone(),
                    version: self.mc_version.clone(),
                },
            ),
        }
    }

    /// Ends a branch with the file that was fetched for it. The file is put
    /// into the resolved set; where it is new there, the entries that it
    /// requires are added to those that wait for a branch, and where the set
    /// has a file with its id already, nothing else changes. After a
    /// failure the file is dropped. The result says whether the file went
    /// into the set.
    pub fn on_file(&mut self, file: ModFile) -> (fresh: bool)
        ensures
            final(self)@ == old(self)@.after_file(file),
            fresh == old(self)@.takes(file),
            distinct_ids(final(self)@.resolved),
    {
        if self.in_flight > 0 {
            self.in_flight = self.in_flight - 1;
        }
        if self.failure.is_some() {
            proof {
                use_type_invariant(&self.resolved_deps);
                self.resolved_deps.lemma_valid();
            }
            return false;
        }
        let mut required = file.dependency_ids(ReqType::Required);
        let fresh = self.resolved_deps.insert(file);
        if fresh {
            self.pending.append(&mut required);
        }
        fresh
    }

    /// Ends a branch with a failure. The first failure is kept, later ones
    /// are dropped, and no entry waits for a branch any more: one failed
    /// branch fails the whole resolution.
    pub fn on_failure(&mut self, error: PkgError)
        ensures
            final(self)@ == (DepResolverView {
                pending: Seq::empty(),
                in_flight: old(self)@.one_less_in_flight(),
                failure: match old(self)@.failure {
                    Some(first) => Some(first),
                    None => Some(error@),
                },
                ..old(self)@
            }),
    {
        if self.in_flight > 0 {
            self.in_flight = self.in_flight - 1;
        }
        if self.failure.is_none() {
            self.failure = Some(error);
        }
        self.pending.clear();
    }

    /// Whether the resolution is complete: no branch has failed, none waits
    /// and none is under way.
    pub fn is_done(&self) -> (done: bool)
        ensures
            done == self@.is_done(),
    {
        self.failure.is_none() && self.pending.len() == 0 && self.in_flight == 0
    }

    /// Whether the resolution has come to an end, complete or failed.
    pub fn is_settled(&self) -> (settled: bool)
        ensures
            settled == self@.is_settled(),
    {
        self.failure.is_some() || (self.pending.len() == 0 && self.in_flight == 0)
    }

    /// The files resolved so far.
    pub fn resolved_deps(&self) -> (set: &ResolvedSet)
        ensures
            set@ == self@.resolved,
    {
        &self.resolved_deps
    }

    /// The outcome of a resolution that has come to its end: the resolved
    /// set where no branch failed, and the first failure where one did, in
    /// which case no part of the set is given out.
    pub fn finish(self) -> (outcome: Result<ResolvedSet, PkgError>)
        requires
            self@.is_settled(),
        ensures
            match outcome {
                Ok(set) => self@.failure is None && set@ == self@.resolved && distinct_ids(set@),
                Err(error) => self@.failure == Some(error@),
            },
    {
        match self.failure {
            Some(error) => Err(error),
            None => {
                proof {
                    use_type_invariant(&self.resolved_deps);
                    self.resolved_deps.lemma_valid();
                }
                Ok(self.resolved_deps)
            },
        }
    }
}


/// A file is settled once: when a file arrives whose id the resolved set
/// holds already, the set stays as it is and no entry is added to those
/// that wait, whatever the file requires. This is what ends a chain of
/// requirements that runs in a circle, and what keeps an entry that several
/// others require from being followed up more than once.
pub proof fn lemma_settled_file_starts_nothing(state: DepResolverView, file: ModFile)
    requires
        holds(state.resolved, file.id),
    ensures
        state.after_file(file).resolved == state.resolved,
        state.after_file(file).pending == state.pending,
{
}

/// A file that was settled stays settled: whatever file arrives next, the
/// set still holds a file with the id, and what it held stays in its place.
pub proof fn lemma_resolved_only_grows(state: DepResolverView, file: ModFile, id: u32)
    ensures
        state.resolved.is_prefix_of(state.after_file(file).resolved),
        holds(state.resolved, id) ==> holds(state.after_file(file).resolved, id),
{
    let after = state.after_file(file).resolved;
    if holds(state.resolved, id) {
        let i = choose|i: int| 0 <= i < state.resolved.len() && (#[trigger] state.resolved[i]).id == id;
        assert(after[i].id == id);
    }
}

/// A file that is taken makes the set longer by itself and lets exactly the
/// entries wait that it requires, in the order in which it lists them.
pub proof fn lemma_new_file_starts_its_requirements(state: DepResolverView, file: ModFile)
    requires
        state.takes(file),
    ensures
        state.after_file(file).resolved == state.resolved.push(file),
        state.after_file(file).pending == state.pending + ids_of_kind(
            file.dependencies@,
            ReqType::Required,
        ),
{
}


/// Every step of a resolution either puts a file into the resolved set that
/// was not there, or uses up work: handing out a branch and ending a branch
/// with a file that is settled already both leave the set as it is and less
/// work than before. So a resolution can go on only as long as there are
/// files that it has not seen.
pub proof fn lemma_steps_use_up_work(state: DepResolverView, file: ModFile)
    ensures
        state.hands_out() ==> state.after_task().resolved == state.resolved
            && state.after_task().work_left() < state.work_left(),
        state.in_flight > 0 && state.takes(file) ==> state.after_file(file).resolved.len()
            == state.resolved.len() + 1,
        state.in_flight > 0 && !state.takes(file) ==> state.after_file(file).resolved
            == state.resolved && state.after_file(file).work_left() < state.work_left(),
{
    if state.hands_out() {
        assert(state.after_task().pending.len() == state.pending.len() - 1);
    }
}

} // verus!
