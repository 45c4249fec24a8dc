//! The search of the catalog by name: which entries a query matches, which
//! of them is picked where one is asked for, and in which order they are
//! listed.
//!
//! A search first marks the entries whose name holds the query and then
//! works on the marks alone.

use crate::curse::{Mod, ModDb};
use crate::text::{lowercase, occurs_in, str_contains};
use vstd::prelude::*;

verus! {

/// How many name matches are looked at, in catalog order, when one entry is
/// picked by name.
pub const NAME_SHORTLIST: usize = 100;

/// The test that a lower-cased name search applies to an entry: the needle
/// occurs in the entry's lower-cased name.
pub open spec fn name_test(needle: Seq<char>) -> spec_fn(Mod) -> bool {
    |entry: Mod| occurs_in(needle, lowercase(entry.name@))
}

/// Whether the entry at the index is marked. Entries that the marks do not
/// reach are not.
pub open spec fn is_marked(marks: Seq<bool>, at: int) -> bool {
    0 <= at < marks.len() && marks[at]
}

/// The marked entries, in catalog order.
pub open spec fn marked(mods: Seq<Mod>, marks: Seq<bool>) -> Seq<Mod>
    decreases mods.len(),
{
    if mods.len() == 0 {
        Seq::empty()
    } else {
        let before = marked(mods.drop_last(), marks);
        if is_marked(marks, mods.len() - 1) {
            before.push(mods.last())
        } else {
            before
        }
    }
}

/// The first hundred entries of a list of matches, or all of them where
/// they are fewer.
pub open spec fn shortlist(hits: Seq<Mod>) -> Seq<Mod> {
    if hits.len() < NAME_SHORTLIST {
        hits
    } else {
        hits.take(NAME_SHORTLIST as int)
    }
}

/// Whether `found` is an entry of the list that no other entry of the list
/// beats in downloads, or nothing where the list is empty.
pub open spec fn is_best_of(list: Seq<Mod>, found: Option<&Mod>) -> bool {
    match found {
        Some(entry) => list.contains(*entry) && forall|i: int|
            0 <= i < list.len() ==> (#[trigger] list[i]).download_count <= entry.download_count,
        None => list.len() == 0,
    }
}

/// The entries behind a list of references to entries.
pub open spec fn entries_of(rows: Seq<&Mod>) -> Seq<Mod> {
    rows.map_values(|row: &Mod| *row)
}

/// Whether no entry of the list has fewer downloads than one after it.
pub open spec fn by_falling_downloads(rows: Seq<Mod>) -> bool {
    forall|i: int, j: int|
        0 <= i <= j < rows.len() ==> (#[trigger] rows[i]).download_count >= (
        #[trigger] rows[j]).download_count
}

/// Where the marks say of every entry whether it passes a test, the marked
/// entries are the entries that pass the test.
pub proof fn lemma_marked_is_filter(mods: Seq<Mod>, marks: Seq<bool>, test: spec_fn(Mod) -> bool)
    requires
        forall|i: int| 0 <= i < mods.len() ==> is_marked(marks, i) == test(#[trigger] mods[i]),
    ensures
        marked(mods, marks) == mods.filter(test),
    decreases mods.len(),
{
    reveal(Seq::filter);
    if mods.len() > 0 {
        let front = mods.drop_last();
        assert forall|i: int| 0 <= i < front.len() implies is_marked(marks, i) == test(
            #[trigger] front[i],
        ) by {
            assert(front[i] == mods[i]);
        }
        lemma_marked_is_filter(front, marks, test);
        assert(is_marked(marks, mods.len() - 1) == test(mods[mods.len() - 1]));
    } else {
        assert(mods.filter(test) =~= Seq::<Mod>::empty());
    }
}

/// The marked entries among the first few are the first of the marked
/// entries among all.
pub proof fn lemma_marked_prefix(mods: Seq<Mod>, marks: Seq<bool>, upto: int)
    requires
        0 <= upto <= mods.len(),
    ensures
        marked(mods.take(upto), marks).is_prefix_of(marked(mods, marks)),
    decreases mods.len() - upto,
{
    if upto < mods.len() {
        assert(mods.take(upto + 1).drop_last() =~= mods.take(upto));
        lemma_marked_prefix(mods, marks, upto + 1);
        let shorter = marked(mods.take(upto), marks);
        let longer = marked(mods.take(upto + 1), marks);
        assert(shorter.is_prefix_of(longer));
        assert(shorter =~= marked(mods, marks).take(shorter.len() as int));
    } else {
        assert(mods.take(upto) =~= mods);
    }
}

impl ModDb {
    /// Every entry whose lower-cased name holds the needle, in catalog order.
    pub open spec fn name_hits(&self, needle: Seq<char>) -> Seq<Mod> {
        self.mods@.filter(name_test(needle))
    }

    /// Whether `found` answers a search by name for the lower-cased needle:
    /// an entry among the first hundred matches that none of them beats in
    /// downloads, or nothing where nothing matches.
    pub open spec fn is_best_by_name(&self, needle: Seq<char>, found: Option<&Mod>) -> bool {
        is_best_of(shortlist(self.name_hits(needle)), found)
    }

    /// Marks the entries whose name holds the query, without regard to
    /// case: one mark for each entry, in catalog order.
    pub fn name_marks(&self, name: &str) -> (marks: Vec<bool>)
        ensures
            marks@.len() == self.mods@.len(),
            forall|i: int|
                0 <= i < self.mods@.len() ==> marks@[i] == name_test(lowercase(name@))(
                    #[trigger] self.mods@[i],
                ),
            marked(self.mods@, marks@) == self.name_hits(lowercase(name@)),
    {
        let needle = name.to_lowercase();
        let mut marks: Vec<bool> = Vec::new();
        let mut i: usize = 0;
        while i < self.mods.len()
            invariant
                i <= self.mods@.len(),
                marks@.len() == i,
                needle@ == lowercase(name@),
                forall|k: int|
                    0 <= k < i ==> marks@[k] == name_test(needle@)(#[trigger] self.mods@[k]),
            decreases self.mods@.len() - i,
        {
            let lowered = self.mods[i].name.as_str().to_lowercase();
            marks.push(str_contains(lowered.as_str(), needle.as_str()));
            i = i + 1;
        }
        proof {
            lemma_marked_is_filter(self.mods@, marks@, name_test(needle@));
        }
        marks
    }

    /// Picks one of the marked entries: of the first hundred of them, in
    /// catalog order, one with the highest download count. Marked entries
    /// beyond the first hundred are never looked at, even where they have
    /// more downloads.
    pub fn pick_marked(&self, marks: &Vec<bool>) -> (found: Option<&Mod>)
        ensures
            is_best_of(shortlist(marked(self.mods@, marks@)), found),
    {
        let ghost mut short: Seq<Mod> = Seq::empty();
        let mut best: Option<usize> = None;
        let mut count: usize = 0;
        let mut i: usize = 0;
        proof {
            assert(self.mods@.take(0) =~= Seq::<Mod>::empty());
        }
        while i < self.mods.len() && count < NAME_SHORTLIST
            invariant
                i <= self.mods@.len(),
                count <= NAME_SHORTLIST,
                short == marked(self.mods@.take(i as int), marks@),
                short.len() == count,
                best is None <==> count == 0,
                best matches Some(b) ==> b < i && short.contains(self.mods@[b as int])
                    && forall|k: int|
                    0 <= k < short.len() ==> (#[trigger] short[k]).download_count
                        <= self.mods@[b as int].download_count,
            decreases self.mods@.len() - i,
        {
            let entry = &self.mods[i];
            let hit = i < marks.len() && marks[i];
            proof {
                assert(self.mods@.take(i + 1).drop_last() =~= self.mods@.take(i as int));
                assert(hit == is_marked(marks@, i as int));
            }
            if hit {
                let ghost grown = short.push(*entry);
                let better = match best {
                    Some(b) => self.mods[b].download_count <= entry.download_count,
                    None => true,
                };
                proof {
                    assert(grown[grown.len() - 1] == *entry);
                    assert forall|k: int| 0 <= k < short.len() implies grown.contains(short[k]) by {
                        assert(grown[k] == short[k]);
                    }
                }
                if better {
                    best = Some(i);
                } else {
                    proof {
                        let b = best->0;
                        let w = choose|w: int| 0 <= w < short.len() && short[w] == self.mods@[b as int];
                        assert(grown[w] == self.mods@[b as int]);
                    }
                }
                count = count + 1;
                proof {
                    short = grown;
                }
            }
            i = i + 1;
        }
        proof {
            let all = marked(self.mods@, marks@);
            lemma_marked_prefix(self.mods@, marks@, i as int);
            if count < NAME_SHORTLIST {
                assert(self.mods@.take(i as int) =~= self.mods@);
            }
            assert(shortlist(all) =~= short);
        }
        match best {
            Some(b) => Some(&self.mods[b]),
            None => None,
        }
    }

    /// Finds an entry by name, without regard to case. Of the first hundred
    /// entries whose name holds the query, one with the highest download
    /// count is given back; entries beyond the first hundred matches are
    /// never looked at, even where they have more downloads.
    pub fn find_by_name(&self, name: &str) -> (found: Option<&Mod>)
        ensures
            self.is_best_by_name(lowercase(name@), found),
    {
        let marks = self.name_marks(name);
        self.pick_marked(&marks)
    }

    /// Lists the marked entries, the most downloaded first.
    pub fn rank_marked(&self, marks: &Vec<bool>) -> (rows: Vec<&Mod>)
        ensures
            entries_of(rows@).to_multiset() == marked(self.mods@, marks@).to_multiset(),
            by_falling_downloads(entries_of(rows@)),
    {
        let mut rows: Vec<&Mod> = Vec::new();
        let mut i: usize = 0;
        proof {
            assert(self.mods@.take(0) =~= Seq::<Mod>::empty());
            assert(entries_of(rows@) =~= Seq::<Mod>::empty());
        }
        while i < self.mods.len()
            invariant
                i <= self.mods@.len(),
                entries_of(rows@).to_multiset() == marked(
                    self.mods@.take(i as int),
                    marks@,
                ).to_multiset(),
                by_falling_downloads(entries_of(rows@)),
            decreases self.mods@.len() - i,
        {
            let entry = &self.mods[i];
            let hit = i < marks.len() && marks[i];
            proof {
                assert(self.mods@.take(i + 1).drop_last() =~= self.mods@.take(i as int));
                assert(hit == is_marked(marks@, i as int));
            }
            if hit {
                let ghost old_rows = rows@;
                let mut at: usize = 0;
                while at < rows.len() && rows[at].download_count >= entry.download_count
                    invariant
                        at <= rows@.len(),
                        forall|k: int|
                            0 <= k < at ==> (#[trigger] rows@[k]).download_count
                                >= entry.download_count,
                    decreases rows@.len() - at,
                {
                    at = at + 1;
                }
                rows.insert(at, entry);
                proof {
                    let before = marked(self.mods@.take(i as int), marks@);
                    assert(entries_of(rows@) =~= entries_of(old_rows).insert(at as int, *entry));
                    vstd::seq_lib::to_multiset_insert(entries_of(old_rows), at as int, *entry);
                    vstd::seq_lib::to_multiset_build(before, *entry);
                    assert forall|a: int, b: int| 0 <= a <= b < rows@.len() implies (
                    #[trigger] entries_of(rows@)[a]).download_count >= (#[trigger] entries_of(
                        rows@,
                    )[b]).download_count by {
                        let olds = entries_of(old_rows);
                        if a < at && b > at {
                            assert(olds[a].download_count >= olds[b - 1].download_count);
                        } else if a > at {
                            assert(olds[a - 1].download_count >= olds[b - 1].download_count);
                        } else if b < at {
                            assert(olds[a].download_count >= olds[b].download_count);
                        } else if a < at && b == at {
                            assert(old_rows[a].download_count >= entry.download_count);
                        } else if a == at && b > at {
                            assert(olds[at as int].download_count >= olds[b - 1].download_count);
                        }
                    }
                }
            }
            i = i + 1;
        }
        proof {
            assert(self.mods@.take(i as int) =~= self.mods@);
        }
        rows
    }

    /// Every entry whose name holds the query, without regard to case, the
    /// most downloaded first.
    pub fn search_by_name_substring(&self, name: &str) -> (rows: Vec<&Mod>)
        ensures
            entries_of(rows@).to_multiset() == self.name_hits(lowercase(name@)).to_multiset(),
            by_falling_downloads(entries_of(rows@)),
    {
        let marks = self.name_marks(name);
        self.rank_marked(&marks)
    }
}

} // verus!
