//! What a resolution comes to, whatever the order in which its branches
//! run: the files of exactly the entries that chains of requirements lead
//! to from the root.
//!
//! The metadata service is taken as it answers: an entry for an id, a file
//! for an entry and a file id. A run of the resolver is followed by the
//! ids of the branches that are under way beside what the resolver holds
//! itself. What holds at the start is kept by every step, and says at the
//! end that the resolved set is complete.

use crate::curse::{ids_of_kind, Mod, ModFile, ReqType};
use crate::dep_resolver::DepResolverView;
use crate::resolved_set::{distinct_ids, holds, lemma_insert_keeps_distinct};
use vstd::prelude::*;

verus! {

/// The answers of the metadata service.
pub struct Remote {
    /// The entry that is answered for an id.
    pub entries: Map<u32, Mod>,
    /// The file that is answered for the id of an entry and the id of one
    /// of its files.
    pub files: Map<(u32, u32), ModFile>,
}

/// Whether a file requires the entry with the id.
pub open spec fn needs(file: ModFile, id: u32) -> bool {
    ids_of_kind(file.dependencies@, ReqType::Required).contains(id)
}

impl Remote {
    /// The file that a branch for the id ends with: the file that the
    /// service answers for the id's entry and the file id of the entry's
    /// first release for the game version. There is none where the service
    /// knows no such entry, release or file.
    pub open spec fn file_for(self, version: Seq<char>, id: u32) -> Option<ModFile> {
        if self.entries.dom().contains(id) {
            let entry = self.entries[id];
            if exists|at: int| entry.first_release_at(version, at) {
                let at = choose|at: int| entry.first_release_at(version, at);
                let key = (entry.id, entry.game_version_latest_files@[at].file_id);
                if self.files.dom().contains(key) {
                    Some(self.files[key])
                } else {
                    None
                }
            } else {
                None
            }
        } else {
            None
        }
    }

    /// Whether the file of `from` requires `to`.
    pub open spec fn edge(self, version: Seq<char>, from: u32, to: u32) -> bool {
        self.file_for(version, from) matches Some(file) && needs(file, to)
    }

    /// Whether the ids are a chain of requirements from the root.
    pub open spec fn is_path(self, version: Seq<char>, root: u32, path: Seq<u32>) -> bool {
        &&& path.len() > 0
        &&& path[0] == root
        &&& forall|k: int|
            0 <= k < path.len() - 1 ==> self.edge(version, #[trigger] path[k], path[k + 1])
    }

    /// Whether a chain of requirements leads from the root to the id.
    pub open spec fn reachable(self, version: Seq<char>, root: u32, id: u32) -> bool {
        exists|path: Seq<u32>| #[trigger] self.is_path(version, root, path) && path.last() == id
    }

    /// Whether the file is the one that a branch for some id ends with that
    /// a chain of requirements leads to.
    pub open spec fn is_file_of_reachable(self, version: Seq<char>, root: u32, file: ModFile) -> bool {
        exists|id: u32| #[trigger]
            self.reachable(version, root, id) && self.file_for(version, id) == Some(file)
    }

    /// Whether file ids identify files: two branches that end with files of
    /// the same id end with the same file.
    pub open spec fn is_consistent(self, version: Seq<char>) -> bool {
        forall|a: u32, b: u32|
            (#[trigger] self.file_for(version, a)) is Some && (#[trigger] self.file_for(
                version,
                b,
            )) is Some && self.file_for(version, a)->0.id == self.file_for(version, b)->0.id
                ==> self.file_for(version, a) == self.file_for(version, b)
    }

    /// Whether an id is accounted for in a run: it waits for a branch, a
    /// branch for it is under way, or the file that its branch ends with is
    /// resolved.
    pub open spec fn covered(
        self,
        version: Seq<char>,
        state: DepResolverView,
        flying: Seq<u32>,
        id: u32,
    ) -> bool {
        ||| state.pending.contains(id)
        ||| flying.contains(id)
        ||| (self.file_for(version, id) matches Some(file) && holds(state.resolved, file.id))
    }

    /// What holds of a run that has not failed, where `flying` are the ids
    /// of the branches under way: only ids that chains lead to wait or are
    /// under way, only their files are resolved, none twice, and the root
    /// and whatever a resolved file requires are accounted for.
    pub open spec fn keeps_track(
        self,
        root: u32,
        state: DepResolverView,
        flying: Seq<u32>,
    ) -> bool {
        let version = state.mc_version;
        &&& state.failure is None
        &&& state.in_flight == flying.len()
        &&& distinct_ids(state.resolved)
        &&& forall|k: int|
            0 <= k < state.pending.len() ==> self.reachable(version, root, #[trigger] state.pending[k])
        &&& forall|k: int| 0 <= k < flying.len() ==> self.reachable(version, root, #[trigger] flying[k])
        &&& forall|i: int|
            0 <= i < state.resolved.len() ==> self.is_file_of_reachable(
                version,
                root,
                #[trigger] state.resolved[i],
            )
        &&& self.covered(version, state, flying, root)
        &&& forall|i: int, id: u32|
            0 <= i < state.resolved.len() && #[trigger] needs(state.resolved[i], id)
                ==> self.covered(version, state, flying, id)
    }

    /// The root can be reached.
    pub proof fn lemma_root_reachable(self, version: Seq<char>, root: u32)
        ensures
            self.reachable(version, root, root),
    {
        let path = seq![root];
        assert(self.is_path(version, root, path));
        assert(path.last() == root);
    }

    /// What the file of a reachable id requires can be reached too.
    pub proof fn lemma_step_reachable(self, version: Seq<char>, root: u32, from: u32, to: u32)
        requires
            self.reachable(version, root, from),
            self.edge(version, from, to),
        ensures
            self.reachable(version, root, to),
    {
        let path = choose|path: Seq<u32>| #[trigger]
            self.is_path(version, root, path) && path.last() == from;
        let longer = path.push(to);
        assert(longer[0] == path[0]);
        assert forall|k: int| 0 <= k < longer.len() - 1 implies self.edge(
            version,
            #[trigger] longer[k],
            longer[k + 1],
        ) by {
            if k < path.len() - 1 {
                assert(self.edge(version, path[k], path[k + 1]));
            }
        }
        assert(self.is_path(version, root, longer));
        assert(longer.last() == to);
    }

    /// A run starts well: a resolver that holds nothing but the root as the
    /// one entry that waits keeps track.
    pub proof fn lemma_start_keeps_track(self, root: u32, state: DepResolverView)
        requires
            state.failure is None,
            state.in_flight == 0,
            state.resolved.len() == 0,
            state.pending == seq![root],
        ensures
            self.keeps_track(root, state, Seq::empty()),
    {
        self.lemma_root_reachable(state.mc_version, root);
        assert(state.pending[0] == root);
        assert(state.pending.contains(root));
    }

    /// Handing out a branch keeps track: the id that waited last is under
    /// way afterwards.
    pub proof fn lemma_task_keeps_track(self, root: u32, state: DepResolverView, flying: Seq<u32>)
        requires
            self.keeps_track(root, state, flying),
            state.hands_out(),
        ensures
            self.keeps_track(root, state.after_task(), flying.push(state.pending.last())),
    {
        let version = state.mc_version;
        let next = state.after_task();
        let id = state.pending.last();
        let flown = flying.push(id);
        assert(flown[flying.len() as int] == id);
        assert forall|d: u32| self.covered(version, state, flying, d) implies self.covered(
            version,
            next,
            flown,
            d,
        ) by {
            if state.pending.contains(d) {
                let k = choose|k: int| 0 <= k < state.pending.len() && state.pending[k] == d;
                if k == state.pending.len() - 1 {
                    assert(flown.contains(d));
                } else {
                    assert(next.pending[k] == d);
                }
            } else if flying.contains(d) {
                let k = choose|k: int| 0 <= k < flying.len() && flying[k] == d;
                assert(flown[k] == d);
            }
        }
        assert forall|k: int| 0 <= k < next.pending.len() implies self.reachable(
            version,
            root,
            #[trigger] next.pending[k],
        ) by {
            assert(next.pending[k] == state.pending[k]);
        }
        assert forall|k: int| 0 <= k < flown.len() implies self.reachable(
            version,
            root,
            #[trigger] flown[k],
        ) by {
            if k < flying.len() {
                assert(flown[k] == flying[k]);
            } else {
                assert(flown[k] == state.pending[state.pending.len() - 1]);
            }
        }
        assert forall|i: int, d: u32|
            0 <= i < next.resolved.len() && #[trigger] needs(
                next.resolved[i],
                d,
            ) implies self.covered(version, next, flown, d) by {
            assert(needs(state.resolved[i], d));
            assert(self.covered(version, state, flying, d));
        }
    }

    /// The end of a branch keeps track: when the branch under way at the
    /// given place ends with the file that the service has for its id, the
    /// id is no longer under way and what the resolver holds after taking
    /// the file is still all accounted for.
    pub proof fn lemma_file_keeps_track(
        self,
        root: u32,
        state: DepResolverView,
        flying: Seq<u32>,
        at: int,
        file: ModFile,
    )
        requires
            self.keeps_track(root, state, flying),
            0 <= at < flying.len(),
            self.file_for(state.mc_version, flying[at]) == Some(file),
        ensures
            self.keeps_track(root, state.after_file(file), flying.remove(at)),
    {
        let version = state.mc_version;
        let next = state.after_file(file);
        let left = flying.remove(at);
        let id = flying[at];
        let fresh = state.takes(file);
        let added = ids_of_kind(file.dependencies@, ReqType::Required);
        lemma_insert_keeps_distinct(state.resolved, file);
        assert(self.reachable(version, root, flying[at]));
        assert(self.is_file_of_reachable(version, root, file));
        assert forall|i: int| 0 <= i < state.resolved.len() implies next.resolved[i]
            == state.resolved[i] by {}
        assert forall|wanted: u32| holds(state.resolved, wanted) implies holds(
            next.resolved,
            wanted,
        ) by {
            let i = choose|i: int|
                0 <= i < state.resolved.len() && (#[trigger] state.resolved[i]).id == wanted;
            assert(next.resolved[i].id == wanted);
        }
        assert forall|d: u32| self.covered(version, state, flying, d) implies self.covered(
            version,
            next,
            left,
            d,
        ) by {
            if state.pending.contains(d) {
                let k = choose|k: int| 0 <= k < state.pending.len() && state.pending[k] == d;
                assert(next.pending[k] == d);
            } else if flying.contains(d) {
                let k = choose|k: int| 0 <= k < flying.len() && flying[k] == d;
                if k < at {
                    assert(left[k] == d);
                } else if k > at {
                    assert(left[k - 1] == d);
                } else {
                    assert(self.file_for(version, d) == Some(file));
                    assert(holds(next.resolved, file.id));
                }
            } else {
                let known = self.file_for(version, d)->0;
                assert(holds(state.resolved, known.id));
            }
        }
        assert forall|k: int| 0 <= k < next.pending.len() implies self.reachable(
            version,
            root,
            #[trigger] next.pending[k],
        ) by {
            if k < state.pending.len() {
                assert(next.pending[k] == state.pending[k]);
            } else {
                let to = added[k - state.pending.len()];
                assert(added.contains(to));
                assert(self.edge(version, id, to));
                self.lemma_step_reachable(version, root, id, to);
            }
        }
        assert forall|k: int| 0 <= k < left.len() implies self.reachable(
            version,
            root,
            #[trigger] left[k],
        ) by {
            if k < at {
                assert(left[k] == flying[k]);
            } else {
                assert(left[k] == flying[k + 1]);
            }
        }
        assert forall|i: int| 0 <= i < next.resolved.len() implies self.is_file_of_reachable(
            version,
            root,
            #[trigger] next.resolved[i],
        ) by {
            if i < state.resolved.len() {
                assert(self.is_file_of_reachable(version, root, state.resolved[i]));
            }
        }
        assert forall|i: int, d: u32|
            0 <= i < next.resolved.len() && #[trigger] needs(
                next.resolved[i],
                d,
            ) implies self.covered(version, next, left, d) by {
            if i < state.resolved.len() {
                assert(needs(state.resolved[i], d));
                assert(self.covered(version, state, flying, d));
            } else {
                assert(fresh);
                assert(next.resolved[i] == file);
                let k = choose|k: int| 0 <= k < added.len() && added[k] == d;
                assert(next.pending[state.pending.len() + k] == d);
            }
        }
        assert(self.covered(version, state, flying, root));
    }

    /// In a run that keeps track and has nothing left to do, every id that
    /// a chain of requirements leads to from the root has its file in the
    /// resolved set.
    pub proof fn lemma_done_holds_all(
        self,
        root: u32,
        state: DepResolverView,
        flying: Seq<u32>,
        path: Seq<u32>,
    )
        requires
            self.keeps_track(root, state, flying),
            self.is_consistent(state.mc_version),
            state.is_done(),
            self.is_path(state.mc_version, root, path),
        ensures
            self.file_for(state.mc_version, path.last()) matches Some(file) && holds(
                state.resolved,
                file.id,
            ),
        decreases path.len(),
    {
        let version = state.mc_version;
        assert(flying.len() == 0);
        assert forall|d: u32| self.covered(version, state, flying, d) implies (self.file_for(
            version,
            d,
        ) matches Some(file) && holds(state.resolved, file.id)) by {
            if state.pending.contains(d) {
                let k = choose|k: int| 0 <= k < state.pending.len() && state.pending[k] == d;
            }
            if flying.contains(d) {
                let k = choose|k: int| 0 <= k < flying.len() && flying[k] == d;
            }
        }
        if path.len() == 1 {
            assert(self.covered(version, state, flying, root));
        } else {
            let shorter = path.drop_last();
            assert(shorter[0] == path[0]);
            assert forall|k: int| 0 <= k < shorter.len() - 1 implies self.edge(
                version,
                #[trigger] shorter[k],
                shorter[k + 1],
            ) by {
                assert(self.edge(version, path[k], path[k + 1]));
            }
            self.lemma_done_holds_all(root, state, flying, shorter);
            let from = shorter.last();
            let known = self.file_for(version, from)->0;
            let i = choose|i: int|
                0 <= i < state.resolved.len() && (#[trigger] state.resolved[i]).id == known.id;
            assert(self.edge(version, path[path.len() - 2], path[path.len() - 2 + 1]));
            assert(needs(known, path.last()));
            // The resolved file with the id of `known` is `known` itself.
            assert(self.is_file_of_reachable(version, root, state.resolved[i]));
            let other = choose|other: u32| #[trigger]
                self.reachable(version, root, other) && self.file_for(version, other) == Some(
                    state.resolved[i],
                );
            assert(self.file_for(version, other) is Some);
            assert(self.file_for(version, from) is Some);
            assert(self.file_for(version, other) == self.file_for(version, from));
            assert(needs(state.resolved[i], path.last()));
            assert(self.covered(version, state, flying, path.last()));
        }
    }
}

/// What a resolution comes to. Where a run has kept track and has nothing
/// left to do, the resolved set holds the files of exactly the ids that
/// chains of requirements lead to from the root, each file once: every such
/// id has its file in the set, and every file of the set is the file of
/// such an id.
pub proof fn lemma_resolution_is_complete(
    remote: Remote,
    root: u32,
    state: DepResolverView,
    flying: Seq<u32>,
)
    requires
        remote.keeps_track(root, state, flying),
        remote.is_consistent(state.mc_version),
        state.is_done(),
    ensures
        distinct_ids(state.resolved),
        forall|id: u32| #[trigger]
            remote.reachable(state.mc_version, root, id) ==> (remote.file_for(
                state.mc_version,
                id,
            ) matches Some(file) && holds(state.resolved, file.id)),
        forall|i: int|
            0 <= i < state.resolved.len() ==> remote.is_file_of_reachable(
                state.mc_version,
                root,
                #[trigger] state.resolved[i],
            ),
{
    assert forall|id: u32| #[trigger]
        remote.reachable(state.mc_version, root, id) implies (remote.file_for(
        state.mc_version,
        id,
    ) matches Some(file) && holds(state.resolved, file.id)) by {
        let path = choose|path: Seq<u32>| #[trigger]
            remote.is_path(state.mc_version, root, path) && path.last() == id;
        remote.lemma_done_holds_all(root, state, flying, path);
    }
}

} // verus!
