//! The set of files that a resolution has settled on, kept free of files
//! with the same id.

use crate::curse::ModFile;
use vstd::prelude::*;

verus! {

/// Whether some file of the list has the id.
pub open spec fn holds(files: Seq<ModFile>, id: u32) -> bool {
    exists|i: int| 0 <= i < files.len() && (#[trigger] files[i]).id == id
}

/// Whether no two files of the list have the same id.
pub open spec fn distinct_ids(files: Seq<ModFile>) -> bool {
    forall|i: int, j: int|
        0 <= i < j < files.len() ==> (#[trigger] files[i]).id != (#[trigger] files[j]).id
}

/// The list after a file is put in: unchanged where a file with the same id
/// is in it already, longer by the file at its end where none is.
pub open spec fn with_file(files: Seq<ModFile>, file: ModFile) -> Seq<ModFile> {
    if holds(files, file.id) {
        files
    } else {
        files.push(file)
    }
}

/// Putting a file in keeps the ids distinct.
pub proof fn lemma_insert_keeps_distinct(files: Seq<ModFile>, file: ModFile)
    requires
        distinct_ids(files),
    ensures
        distinct_ids(with_file(files, file)),
        holds(with_file(files, file), file.id),
{
    let after = with_file(files, file);
    if holds(files, file.id) {
    } else {
        assert(after[files.len() as int].id == file.id);
        assert forall|i: int, j: int| 0 <= i < j < after.len() implies (#[trigger] after[i]).id != (
        #[trigger] after[j]).id by {
            if j == files.len() {
                assert(files[i].id != file.id);
            } else {
                assert(files[i].id != files[j].id);
            }
        }
    }
}

/// Putting in a file a second time changes nothing: after a file with some
/// id went in, another with the same id leaves the list, and so its length,
/// as it was, whatever else the two files hold.
pub proof fn lemma_insert_is_idempotent(files: Seq<ModFile>, first: ModFile, second: ModFile)
    requires
        first.id == second.id,
    ensures
        with_file(with_file(files, first), second) == with_file(files, first),
        with_file(with_file(files, first), second).len() == with_file(files, first).len(),
{
    let once = with_file(files, first);
    if holds(files, first.id) {
    } else {
        assert(once[files.len() as int].id == second.id);
    }
    assert(holds(once, second.id));
}

/// Putting a file in makes the list longer by at most one, and by exactly
/// one where its id is new.
pub proof fn lemma_insert_len(files: Seq<ModFile>, file: ModFile)
    ensures
        with_file(files, file).len() == files.len() + (if holds(files, file.id) {
            0int
        } else {
            1int
        }),
{
}

/// A set of files, keyed by file id. Files go in one at a time and a file
/// whose id is in the set already is not taken again; files come out in the
/// order in which they went in.
pub struct ResolvedSet {
    files: Vec<ModFile>,
}

impl View for ResolvedSet {
    type V = Seq<ModFile>;

    closed spec fn view(&self) -> Seq<ModFile> {
        self.files@
    }
}

impl ResolvedSet {
    /// What holds of every set: no two of its files have the same id.
    #[verifier::type_invariant]
    pub closed spec fn is_valid(&self) -> bool {
        distinct_ids(self.files@)
    }

    /// A valid set holds no two files with the same id.
    pub proof fn lemma_valid(&self)
        requires
            self.is_valid(),
        ensures
            distinct_ids(self@),
    {
    }

    /// An empty set.
    pub fn new() -> (set: ResolvedSet)
        ensures
            set@ == Seq::<ModFile>::empty(),
    {
        ResolvedSet { files: Vec::new() }
    }

    /// The number of files in the set.
    pub fn len(&self) -> (count: usize)
        ensures
            count == self@.len(),
    {
        self.files.len()
    }

    /// Whether the set holds a file with the id.
    pub fn contains(&self, id: u32) -> (found: bool)
        ensures
            found == holds(self@, id),
    {
        let mut i: usize = 0;
        while i < self.files.len()
            invariant
                i <= self.files@.len(),
                forall|j: int| 0 <= j < i ==> (#[trigger] self.files@[j]).id != id,
            decreases self.files@.len() - i,
        {
            if self.files[i].id == id {
                return true;
            }
            i = i + 1;
        }
        false
    }

    /// Puts a file into the set unless a file with its id is there already,
    /// and says whether the file went in.
    pub fn insert(&mut self, file: ModFile) -> (fresh: bool)
        ensures
            final(self)@ == with_file(old(self)@, file),
            fresh == !holds(old(self)@, file.id),
            distinct_ids(final(self)@),
    {
        proof {
            use_type_invariant(&*self);
            lemma_insert_keeps_distinct(self.files@, file);
        }
        if self.contains(file.id) {
            false
        } else {
            let mut taken = ResolvedSet::new();
            std::mem::swap(self, &mut taken);
            let mut files = taken.files;
            files.push(file);
            *self = ResolvedSet { files };
            true
        }
    }

    /// The files of the set, in the order in which they went in.
    pub fn files(&self) -> (files: &Vec<ModFile>)
        ensures
            files@ == self@,
            distinct_ids(files@),
    {
        proof {
            use_type_invariant(self);
        }
        &self.files
    }

    /// Gives up the set for the files it holds.
    pub fn into_files(self) -> (files: Vec<ModFile>)
        ensures
            files@ == self@,
            distinct_ids(files@),
    {
        proof {
            use_type_invariant(&self);
        }
        self.files
    }
}

} // verus!
