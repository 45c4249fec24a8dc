//! Resolution against the local catalog alone: the entries that a file
//! depends on, directly or through the files of other entries.
//!
//! The dependencies of a file name entries by id. An entry stands for its
//! first latest file that supports the game version, and that file's
//! required dependencies name further entries. What is asked for is every
//! entry that can be reached in this way.

use crate::curse::{ids_of_kind, Mod, ModDb, ModDependency, ModFile, ReqType};
use crate::name_search::entries_of;
use crate::error::{PkgError, PkgErrorView};
use crate::text::{decimal, u32_to_string};
use vstd::prelude::*;

verus! {

/// The ids that a resolution starts from: those of the file's required
/// dependencies, and of all its dependencies where optional ones are asked
/// for too, in the order of the file's list.
pub open spec fn root_ids(deps: Seq<ModDependency>, optional: bool) -> Seq<u32> {
    deps.filter(|d: ModDependency| optional || d.req_type == ReqType::Required).map_values(
        |d: ModDependency| d.add_on_id,
    )
}

impl ModDb {
    /// Whether the entry at the index is the first one with the id.
    pub open spec fn first_entry_at(&self, id: u32, at: int) -> bool {
        &&& 0 <= at < self.mods@.len()
        &&& self.mods@[at].id == id
        &&& forall|j: int| 0 <= j < at ==> (#[trigger] self.mods@[j]).id != id
    }

    /// Whether the catalog has an entry with the id.
    pub open spec fn has_entry(&self, id: u32) -> bool {
        exists|at: int| self.first_entry_at(id, at)
    }

    /// The first entry with the id, where the catalog has one.
    pub open spec fn entry(&self, id: u32) -> Mod {
        self.mods@[choose|at: int| self.first_entry_at(id, at)]
    }

    /// Whether the id leads to a file: the catalog has an entry with the id
    /// and the entry has a latest file for the game version.
    pub open spec fn is_sound(&self, version: Seq<char>, id: u32) -> bool {
        self.has_entry(id) && exists|at: int| self.entry(id).first_file_at(version, at)
    }

    /// The file that the id leads to.
    pub open spec fn file_of(&self, version: Seq<char>, id: u32) -> ModFile {
        let entry = self.entry(id);
        entry.latest_files@[choose|at: int| entry.first_file_at(version, at)]
    }

    /// Whether the file that `from` leads to requires the entry `to`.
    pub open spec fn edge(&self, version: Seq<char>, from: u32, to: u32) -> bool {
        self.is_sound(version, from) && ids_of_kind(
            self.file_of(version, from).dependencies@,
            ReqType::Required,
        ).contains(to)
    }

    /// Whether the ids are a chain of requirements: the first is one of the
    /// roots and each of the others is required by the file of the one
    /// before it.
    pub open spec fn is_path(&self, version: Seq<char>, roots: Seq<u32>, path: Seq<u32>) -> bool {
        &&& path.len() > 0
        &&& roots.contains(path[0])
        &&& forall|k: int|
            0 <= k < path.len() - 1 ==> self.edge(version, #[trigger] path[k], path[k + 1])
    }

    /// Whether a chain of requirements leads from the roots to the id.
    pub open spec fn reachable(&self, version: Seq<char>, roots: Seq<u32>, id: u32) -> bool {
        exists|path: Seq<u32>| #[trigger] self.is_path(version, roots, path) && path.last() == id
    }

    /// Whether the failure is the one that the id calls for: the id names no
    /// entry, or its entry has no file for the game version.
    pub open spec fn is_defect(&self, version: Seq<char>, id: u32, error: PkgErrorView) -> bool {
        if !self.has_entry(id) {
            error == PkgErrorView::NotFound(decimal(id as nat))
        } else {
            !self.is_sound(version, id) && error == (PkgErrorView::UnsupportedVersion {
                name: self.entry(id).name@,
                version,
            })
        }
    }

    /// Whether the entries are what the roots resolve to: every id that can
    /// be reached from the roots leads to a file, the entries are the
    /// entries of exactly these ids, and none is there twice.
    pub open spec fn is_closure(&self, version: Seq<char>, roots: Seq<u32>, entries: Seq<Mod>) -> bool {
        &&& forall|i: int, j: int|
            0 <= i < j < entries.len() ==> (#[trigger] entries[i]).id != (#[trigger] entries[j]).id
        &&& forall|i: int|
            0 <= i < entries.len() ==> self.reachable(version, roots, (#[trigger] entries[i]).id)
                && entries[i] == self.entry(entries[i].id)
        &&& forall|id: u32| #[trigger]
            self.reachable(version, roots, id) ==> self.is_sound(version, id) && exists|i: int|
                0 <= i < entries.len() && (#[trigger] entries[i]).id == id
    }

    /// There is one first entry with an id at most.
    pub proof fn lemma_first_entry_unique(&self, id: u32, a: int, b: int)
        requires
            self.first_entry_at(id, a),
            self.first_entry_at(id, b),
        ensures
            a == b,
    {
        if a < b {
            assert(self.mods@[a].id != id);
        } else if b < a {
            assert(self.mods@[b].id != id);
        }
    }

    /// The first entry with an id is the entry of that id.
    pub proof fn lemma_entry_is(&self, id: u32, at: int)
        requires
            self.first_entry_at(id, at),
        ensures
            self.has_entry(id),
            self.entry(id) == self.mods@[at],
    {
        let chosen = choose|at: int| self.first_entry_at(id, at);
        self.lemma_first_entry_unique(id, at, chosen);
    }

    /// The first file of an id's entry for the game version is the file
    /// that the id leads to.
    pub proof fn lemma_file_is(&self, version: Seq<char>, id: u32, at: int)
        requires
            self.has_entry(id),
            self.entry(id).first_file_at(version, at),
        ensures
            self.is_sound(version, id),
            self.file_of(version, id) == self.entry(id).latest_files@[at],
    {
        let entry = self.entry(id);
        let chosen = choose|at: int| entry.first_file_at(version, at);
        if at < chosen {
            assert(!entry.latest_files@[at].is_for(version));
        } else if chosen < at {
            assert(!entry.latest_files@[chosen].is_for(version));
        }
    }

    /// Every root can be reached.
    pub proof fn lemma_root_reachable(&self, version: Seq<char>, roots: Seq<u32>, k: int)
        requires
            0 <= k < roots.len(),
        ensures
            self.reachable(version, roots, roots[k]),
    {
        let path = seq![roots[k]];
        assert(roots.contains(path[0]));
        assert(self.is_path(version, roots, path));
        assert(path.last() == roots[k]);
    }

    /// What the file of a reachable id requires can be reached too.
    pub proof fn lemma_step_reachable(&self, version: Seq<char>, roots: Seq<u32>, from: u32, to: u32)
        requires
            self.reachable(version, roots, from),
            self.edge(version, from, to),
        ensures
            self.reachable(version, roots, to),
    {
        let path = choose|path: Seq<u32>| #[trigger]
            self.is_path(version, roots, path) && path.last() == from;
        let longer = path.push(to);
        assert(longer[0] == path[0]);
        assert forall|k: int| 0 <= k < longer.len() - 1 implies self.edge(
            version,
            #[trigger] longer[k],
            longer[k + 1],
        ) by {
            if k < path.len() - 1 {
                assert(self.edge(version, path[k], path[k + 1]));
            }
        }
        assert(self.is_path(version, roots, longer));
        assert(longer.last() == to);
    }

    /// A list of ids that holds the roots and, with an id, whatever the
    /// id's file requires, holds every id that a chain leads to.
    pub proof fn lemma_closed_holds_all(
        &self,
        version: Seq<char>,
        roots: Seq<u32>,
        seen: Seq<u32>,
        path: Seq<u32>,
    )
        requires
            forall|k: int| 0 <= k < roots.len() ==> seen.contains(#[trigger] roots[k]),
            forall|i: int, to: u32|
                0 <= i < seen.len() && #[trigger] self.edge(version, seen[i], to) ==> seen.contains(
                    to,
                ),
            self.is_path(version, roots, path),
        ensures
            seen.contains(path.last()),
        decreases path.len(),
    {
        if path.len() == 1 {
            let k = choose|k: int| 0 <= k < roots.len() && roots[k] == path[0];
            assert(seen.contains(roots[k]));
        } else {
            let shorter = path.drop_last();
            assert(shorter[0] == path[0]);
            assert forall|k: int| 0 <= k < shorter.len() - 1 implies self.edge(
                version,
                #[trigger] shorter[k],
                shorter[k + 1],
            ) by {
                assert(self.edge(version, path[k], path[k + 1]));
            }
            self.lemma_closed_holds_all(version, roots, seen, shorter);
            let from = shorter.last();
            let i = choose|i: int| 0 <= i < seen.len() && seen[i] == from;
            assert(self.edge(version, path[path.len() - 2], path[path.len() - 2 + 1]));
            assert(self.edge(version, seen[i], path.last()));
        }
    }
}

/// Different places of a list that has no more places than `bound` cannot
/// all hold different numbers from zero up to `bound` unless the list is no
/// longer than `bound`.
pub proof fn lemma_distinct_slots(slots: Seq<int>, bound: int)
    requires
        0 <= bound,
        slots.no_duplicates(),
        forall|i: int| 0 <= i < slots.len() ==> 0 <= #[trigger] slots[i] < bound,
    ensures
        slots.len() <= bound,
{
    slots.unique_seq_to_set();
    vstd::set_lib::lemma_int_range(0, bound);
    assert forall|x: int| slots.to_set().contains(x) implies vstd::set_lib::set_int_range(
        0,
        bound,
    ).contains(x) by {
        let i = choose|i: int| 0 <= i < slots.len() && slots[i] == x;
        assert(0 <= slots[i] < bound);
    }
    vstd::set_lib::lemma_len_subset(slots.to_set(), vstd::set_lib::set_int_range(0, bound));
}

/// Whether an id is accounted for: it is among those seen, or waits.
pub open spec fn covered(seen: Seq<u32>, pending: Seq<u32>, id: u32) -> bool {
    seen.contains(id) || pending.contains(id)
}

impl ModFile {
    /// The ids that a resolution of this file starts from.
    pub fn root_dependency_ids(&self, optional: bool) -> (ids: Vec<u32>)
        ensures
            ids@ == root_ids(self.dependencies@, optional),
    {
        let ghost wanted = |d: ModDependency| optional || d.req_type == ReqType::Required;
        let ghost id_of = |d: ModDependency| d.add_on_id;
        let mut ids: Vec<u32> = Vec::new();
        let mut i: usize = 0;
        proof {
            assert(self.dependencies@.take(0) =~= Seq::<ModDependency>::empty());
            reveal(Seq::filter);
        }
        while i < self.dependencies.len()
            invariant
                i <= self.dependencies@.len(),
                wanted == |d: ModDependency| optional || d.req_type == ReqType::Required,
                id_of == |d: ModDependency| d.add_on_id,
                ids@ == self.dependencies@.take(i as int).filter(wanted).map_values(id_of),
            decreases self.dependencies@.len() - i,
        {
            let dep = &self.dependencies[i];
            proof {
                let before = self.dependencies@.take(i as int);
                assert(self.dependencies@.take(i + 1) =~= before.push(*dep));
                before.lemma_filter_push(*dep, wanted);
                before.filter(wanted).lemma_push_map_commute(id_of, *dep);
            }
            if optional || dep.req_type == ReqType::Required {
                ids.push(dep.add_on_id);
            }
            i = i + 1;
        }
        proof {
            assert(self.dependencies@.take(i as int) =~= self.dependencies@);
        }
        ids
    }
}

impl ModDb {
    /// The index of the first entry with the id.
    pub fn first_by_id(&self, id: u32) -> (found: Option<usize>)
        ensures
            match found {
                Some(at) => self.first_entry_at(id, at as int),
                None => !self.has_entry(id),
            },
    {
        let mut i: usize = 0;
        while i < self.mods.len()
            invariant
                i <= self.mods@.len(),
                forall|j: int| 0 <= j < i ==> (#[trigger] self.mods@[j]).id != id,
            decreases self.mods@.len() - i,
        {
            if self.mods[i].id == id {
                return Some(i);
            }
            i = i + 1;
        }
        assert forall|at: int| !self.first_entry_at(id, at) by {
            if 0 <= at < self.mods@.len() {
                assert(self.mods@[at].id != id);
            }
        }
        None
    }
}


/// Whether one of the entries has the id.
fn holds_id(found: &Vec<&Mod>, id: u32) -> (held: bool)
    ensures
        held == exists|i: int| 0 <= i < found@.len() && (#[trigger] found@[i]).id == id,
{
    let mut i: usize = 0;
    while i < found.len()
        invariant
            i <= found@.len(),
            forall|j: int| 0 <= j < i ==> (#[trigger] found@[j]).id != id,
        decreases found@.len() - i,
    {
        if found[i].id == id {
            return true;
        }
        i = i + 1;
    }
    false
}

impl ModDb {
    /// Resolves the dependencies of a file with the local catalog alone:
    /// the entries that the file depends on and, through the file that each
    /// of them has for the game version, the entries that those require, and
    /// so on. Of the file's own dependencies the required ones count, and
    /// the others too where `optional` is set; further down only required
    /// ones count. Each entry is given once, however many chains lead to
    /// it, and chains that run in a circle end where they close.
    ///
    /// The resolution fails where a chain leads to an id that names no
    /// entry, or to an entry without a file for the game version.
    pub fn resolve_dependencies(&self, file: &ModFile, version: &str, optional: bool) -> (resolved:
        Result<Vec<&Mod>, PkgError>)
        ensures
            match resolved {
                Ok(entries) => self.is_closure(
                    version@,
                    root_ids(file.dependencies@, optional),
                    entries_of(entries@),
                ),
                Err(error) => exists|id: u32|
                    self.reachable(version@, root_ids(file.dependencies@, optional), id)
                        && #[trigger] self.is_defect(version@, id, error@),
            },
    {
        let mut pending = file.root_dependency_ids(optional);
        let ghost roots = pending@;
        let mut found: Vec<&Mod> = Vec::new();
        let ghost mut seen: Seq<u32> = Seq::empty();
        let ghost mut slots: Seq<int> = Seq::empty();
        proof {
            assert forall|k: int| 0 <= k < pending@.len() implies self.reachable(
                version@,
                roots,
                #[trigger] pending@[k],
            ) by {
                self.lemma_root_reachable(version@, roots, k);
            }
        }
        while pending.len() > 0
            invariant
                roots == root_ids(file.dependencies@, optional),
                seen.len() == found@.len(),
                slots.len() == found@.len(),
                found@.len() <= self.mods@.len(),
                forall|k: int|
                    0 <= k < pending@.len() ==> self.reachable(version@, roots, #[trigger] pending@[k]),
                forall|i: int|
                    0 <= i < found@.len() ==> {
                        &&& (#[trigger] found@[i]).id == seen[i]
                        &&& self.reachable(version@, roots, seen[i])
                        &&& self.is_sound(version@, seen[i])
                        &&& *found@[i] == self.entry(seen[i])
                        &&& 0 <= slots[i] < self.mods@.len()
                        &&& self.mods@[slots[i]].id == seen[i]
                    },
                forall|i: int, j: int| 0 <= i < j < seen.len() ==> seen[i] != seen[j],
                forall|k: int| 0 <= k < roots.len() ==> covered(seen, pending@, #[trigger] roots[k]),
                forall|i: int, to: u32|
                    0 <= i < seen.len() && #[trigger] self.edge(version@, seen[i], to) ==> covered(
                        seen,
                        pending@,
                        to,
                    ),
            decreases self.mods@.len() - found@.len(), pending@.len(),
        {
            let ghost before = pending@;
            let id = pending.pop().unwrap();
            let ghost rest = pending@;
            proof {
                assert(before =~= rest.push(id));
                assert forall|t: u32| covered(seen, before, t) implies covered(seen, rest, t) || t
                    == id by {
                    if before.contains(t) && t != id {
                        let k = choose|k: int| 0 <= k < before.len() && before[k] == t;
                        assert(rest[k] == t);
                    }
                }
            }
            if holds_id(&found, id) {
                proof {
                    let i = choose|i: int| 0 <= i < found@.len() && (#[trigger] found@[i]).id == id;
                    assert(seen[i] == id);
                    assert(seen.contains(id));
                }
            } else {
                proof {
                    assert(!seen.contains(id)) by {
                        if seen.contains(id) {
                            let i = choose|i: int| 0 <= i < seen.len() && seen[i] == id;
                            assert(found@[i].id == id);
                        }
                    }
                    assert(self.reachable(version@, roots, before[before.len() - 1]));
                }
                match self.first_by_id(id) {
                    None => {
                        let error = PkgError::NotFound(u32_to_string(id));
                        proof {
                            assert(self.reachable(version@, roots, id));
                            assert(self.is_defect(version@, id, error@));
                        }
                        return Err(error);
                    },
                    Some(at) => {
                        let entry = &self.mods[at];
                        proof {
                            self.lemma_entry_is(id, at as int);
                        }
                        match entry.latest_file_for(version) {
                            None => {
                                let error = PkgError::UnsupportedVersion {
                                    name: entry.name.clone(),
                                    version: version.to_owned(),
                                };
                                proof {
                                    assert(!self.is_sound(version@, id)) by {
                                        if self.is_sound(version@, id) {
                                            let f = choose|f: int|
                                                self.entry(id).first_file_at(version@, f);
                                            assert(self.entry(id).latest_files@[f].is_for(version@));
                                        }
                                    }
                                    assert(self.reachable(version@, roots, id));
                                    assert(self.is_defect(version@, id, error@));
                                }
                                return Err(error);
                            },
                            Some(dep_file) => {
                                let mut more = dep_file.dependency_ids(ReqType::Required);
                                let ghost added = more@;
                                let ghost old_seen = seen;
                                let ghost old_slots = slots;
                                let ghost old_found = found@;
                                proof {
                                    let f = choose|f: int| #[trigger]
                                        entry.first_file_at(version@, f) && entry.latest_files@[f]
                                            == *dep_file;
                                    self.lemma_file_is(version@, id, f);
                                    assert(self.file_of(version@, id) == *dep_file);
                                }
                                found.push(entry);
                                pending.append(&mut more);
                                proof {
                                    seen = old_seen.push(id);
                                    slots = slots.push(at as int);
                                    assert(pending@ =~= rest + added);
                                    assert forall|i: int| 0 <= i < slots.len() implies 0 <= (
                                    #[trigger] slots[i]) < self.mods@.len() && self.mods@[slots[i]].id
                                        == seen[i] by {
                                        if i < old_slots.len() {
                                            assert(old_found[i].id == old_seen[i]);
                                            assert(slots[i] == old_slots[i]);
                                        }
                                    }
                                    assert forall|i: int, j: int|
                                        0 <= i < j < slots.len() implies slots[i] != slots[j] by {
                                        assert(self.mods@[slots[i]].id == seen[i]);
                                        assert(self.mods@[slots[j]].id == seen[j]);
                                    }
                                    lemma_distinct_slots(slots, self.mods@.len() as int);
                                    assert forall|t: u32|
                                        covered(old_seen, rest, t) || t == id implies covered(
                                        seen,
                                        pending@,
                                        t,
                                    ) by {
                                        if t == id {
                                            assert(seen[old_seen.len() as int] == id);
                                        } else if old_seen.contains(t) {
                                            let i = choose|i: int|
                                                0 <= i < old_seen.len() && old_seen[i] == t;
                                            assert(seen[i] == t);
                                        } else {
                                            let k = choose|k: int| 0 <= k < rest.len() && rest[k] == t;
                                            assert(pending@[k] == t);
                                        }
                                    }
                                    assert forall|k: int| 0 <= k < pending@.len() implies self.reachable(
                                        version@,
                                        roots,
                                        #[trigger] pending@[k],
                                    ) by {
                                        if k < rest.len() {
                                            assert(pending@[k] == before[k]);
                                        } else {
                                            let to = added[k - rest.len()];
                                            assert(added.contains(to));
                                            assert(self.edge(version@, id, to));
                                            self.lemma_step_reachable(version@, roots, id, to);
                                        }
                                    }
                                    assert forall|i: int, to: u32|
                                        0 <= i < seen.len() && #[trigger] self.edge(
                                            version@,
                                            seen[i],
                                            to,
                                        ) implies covered(seen, pending@, to) by {
                                        if i < old_seen.len() {
                                            assert(seen[i] == old_seen[i]);
                                            assert(self.edge(version@, old_seen[i], to));
                                            assert(covered(old_seen, before, to));
                                            assert(covered(old_seen, rest, to) || to == id);
                                            assert(covered(seen, pending@, to));
                                        } else {
                                            assert(seen[i] == id);
                                            assert(added.contains(to));
                                            let k = choose|k: int| 0 <= k < added.len() && added[k] == to;
                                            assert(pending@[rest.len() + k] == to);
                                        }
                                    }
                                }
                            },
                        }
                    },
                }
            }
        }
        proof {
            let entries = entries_of(found@);
            assert(entries.len() == found@.len());
            assert forall|i: int| 0 <= i < entries.len() implies (#[trigger] entries[i]) == *found@[i] by {}
            assert forall|id: u32| #[trigger] self.reachable(version@, roots, id) implies self.is_sound(
                version@,
                id,
            ) && exists|i: int| 0 <= i < entries.len() && (#[trigger] entries[i]).id == id by {
                let path = choose|path: Seq<u32>| #[trigger]
                    self.is_path(version@, roots, path) && path.last() == id;
                assert forall|k: int| 0 <= k < roots.len() implies seen.contains(
                    #[trigger] roots[k],
                ) by {
                    assert(covered(seen, pending@, roots[k]));
                }
                assert forall|i: int, to: u32|
                    0 <= i < seen.len() && #[trigger] self.edge(version@, seen[i], to) implies seen.contains(
                    to,
                ) by {
                    assert(covered(seen, pending@, to));
                }
                self.lemma_closed_holds_all(version@, roots, seen, path);
                let i = choose|i: int| 0 <= i < seen.len() && seen[i] == id;
                assert(found@[i].id == id);
                assert(entries[i].id == id);
            }
            assert forall|i: int, j: int| 0 <= i < j < entries.len() implies (#[trigger] entries[i]).id
                != (#[trigger] entries[j]).id by {
                assert(found@[i].id == seen[i]);
                assert(found@[j].id == seen[j]);
            }
            assert forall|i: int| 0 <= i < entries.len() implies self.reachable(
                version@,
                roots,
                (#[trigger] entries[i]).id,
            ) && entries[i] == self.entry(entries[i].id) by {
                assert(found@[i].id == seen[i]);
            }
        }
        Ok(found)
    }
}

} // verus!
