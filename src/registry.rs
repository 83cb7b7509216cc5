//! The registry of tracked files: for each path, the name shown beside its
//! content and the offset up to which it has been read.

use vstd::prelude::*;
use crate::path::{display_name, name_for};

verus! {

/// What the registry knows of one tracked file.
pub struct FileState {
    pub name: Seq<char>,
    pub cursor: u64,
}

/// One tracked file: its path, its display name, and its read cursor.
pub struct TrackedFile {
    pub path: String,
    pub name: String,
    pub cursor: u64,
}

impl TrackedFile {
    pub open spec fn state(&self) -> FileState {
        FileState { name: self.name@, cursor: self.cursor }
    }
}

/// The files as a map from path to state, given that no path occurs twice.
pub open spec fn files_view(s: Seq<TrackedFile>) -> Map<Seq<char>, FileState> {
    Map::new(
        |k: Seq<char>| exists|i: int| 0 <= i < s.len() && s[i].path@ == k,
        |k: Seq<char>| s[choose|i: int| 0 <= i < s.len() && s[i].path@ == k].state(),
    )
}

pub open spec fn paths_unique(s: Seq<TrackedFile>) -> bool {
    forall|i: int, j: int|
        0 <= i < s.len() && 0 <= j < s.len() && i != j ==> s[i].path@ != s[j].path@
}

proof fn lemma_view_at(s: Seq<TrackedFile>, i: int)
    requires
        paths_unique(s),
        0 <= i < s.len(),
    ensures
        files_view(s).contains_key(s[i].path@),
        files_view(s)[s[i].path@] == s[i].state(),
{
    let k = s[i].path@;
    assert(exists|j: int| 0 <= j < s.len() && s[j].path@ == k);
    let j = choose|j: int| 0 <= j < s.len() && s[j].path@ == k;
    assert(j == i);
}

proof fn lemma_view_all(s: Seq<TrackedFile>)
    requires
        paths_unique(s),
    ensures
        forall|i: int|
            0 <= i < s.len() ==> #[trigger] files_view(s).contains_key(s[i].path@)
                && files_view(s)[s[i].path@] == s[i].state(),
        forall|k: Seq<char>|
            #[trigger] files_view(s).contains_key(k) ==> exists|i: int|
                0 <= i < s.len() && s[i].path@ == k,
{
    assert forall|i: int| 0 <= i < s.len() implies #[trigger] files_view(s).contains_key(s[i].path@)
        && files_view(s)[s[i].path@] == s[i].state() by {
        lemma_view_at(s, i);
    }
}

proof fn lemma_view_replace(s: Seq<TrackedFile>, i: int, e: TrackedFile)
    requires
        paths_unique(s),
        0 <= i < s.len(),
        e.path@ == s[i].path@,
    ensures
        paths_unique(s.update(i, e)),
        files_view(s.update(i, e)) == files_view(s).insert(e.path@, e.state()),
{
    let s2 = s.update(i, e);
    assert(forall|j: int| 0 <= j < s.len() ==> #[trigger] s2[j].path@ == s[j].path@);
    lemma_view_all(s);
    lemma_view_all(s2);
    let m = files_view(s).insert(e.path@, e.state());
    assert forall|k: Seq<char>| #[trigger] files_view(s2).contains_key(k) <==> m.contains_key(k) by {
        if files_view(s2).contains_key(k) {
            let j = choose|j: int| 0 <= j < s2.len() && s2[j].path@ == k;
            assert(files_view(s).contains_key(s[j].path@));
        }
        if files_view(s).contains_key(k) {
            let j = choose|j: int| 0 <= j < s.len() && s[j].path@ == k;
            assert(files_view(s2).contains_key(s2[j].path@));
        }
        if k == e.path@ {
            assert(files_view(s2).contains_key(s2[i].path@));
        }
    }
    assert forall|k: Seq<char>| #[trigger] files_view(s2).contains_key(k) implies files_view(s2)[k]
        == m[k] by {
        let j = choose|j: int| 0 <= j < s2.len() && s2[j].path@ == k;
        assert(files_view(s2).contains_key(s2[j].path@));
        if j != i {
            assert(files_view(s).contains_key(s[j].path@));
        }
    }
    assert(files_view(s2) =~= m);
}

proof fn lemma_view_push(s: Seq<TrackedFile>, e: TrackedFile)
    requires
        paths_unique(s),
        !files_view(s).contains_key(e.path@),
    ensures
        paths_unique(s.push(e)),
        files_view(s.push(e)) == files_view(s).insert(e.path@, e.state()),
{
    let s2 = s.push(e);
    lemma_view_all(s);
    assert forall|j: int| 0 <= j < s.len() implies s[j].path@ != e.path@ by {
        assert(files_view(s).contains_key(s[j].path@));
    }
    assert(s2[s.len() as int] == e);
    assert(paths_unique(s2));
    lemma_view_all(s2);
    let m = files_view(s).insert(e.path@, e.state());
    assert forall|k: Seq<char>| #[trigger] files_view(s2).contains_key(k) <==> m.contains_key(k) by {
        if files_view(s2).contains_key(k) {
            let j = choose|j: int| 0 <= j < s2.len() && s2[j].path@ == k;
            if j < s.len() {
                assert(files_view(s).contains_key(s[j].path@));
            }
        }
        if files_view(s).contains_key(k) {
            let j = choose|j: int| 0 <= j < s.len() && s[j].path@ == k;
            assert(files_view(s2).contains_key(s2[j].path@));
        }
        if k == e.path@ {
            assert(files_view(s2).contains_key(s2[s.len() as int].path@));
        }
    }
    assert forall|k: Seq<char>| #[trigger] files_view(s2).contains_key(k) implies files_view(s2)[k]
        == m[k] by {
        let j = choose|j: int| 0 <= j < s2.len() && s2[j].path@ == k;
        assert(files_view(s2).contains_key(s2[j].path@));
        if j < s.len() {
            assert(files_view(s).contains_key(s[j].path@));
        }
    }
    assert(files_view(s2) =~= m);
}

proof fn lemma_view_remove(s: Seq<TrackedFile>, i: int)
    requires
        paths_unique(s),
        0 <= i < s.len(),
    ensures
        paths_unique(s.remove(i)),
        files_view(s.remove(i)) == files_view(s).remove(s[i].path@),
{
    let s2 = s.remove(i);
    let p = s[i].path@;
    assert(forall|j: int| 0 <= j < s2.len() ==> #[trigger] s2[j] == s[if j < i { j } else { j + 1 }]);
    assert(paths_unique(s2));
    lemma_view_all(s);
    lemma_view_all(s2);
    let m = files_view(s).remove(p);
    assert forall|k: Seq<char>| #[trigger] files_view(s2).contains_key(k) <==> m.contains_key(k) by {
        if files_view(s2).contains_key(k) {
            let j = choose|j: int| 0 <= j < s2.len() && s2[j].path@ == k;
            let jj = if j < i { j } else { j + 1 };
            assert(files_view(s).contains_key(s[jj].path@));
        }
        if m.contains_key(k) {
            let j = choose|j: int| 0 <= j < s.len() && s[j].path@ == k;
            assert(j != i);
            let jj = if j < i { j } else { j - 1 };
            assert(s2[jj] == s[j]);
            assert(files_view(s2).contains_key(s2[jj].path@));
        }
    }
    assert forall|k: Seq<char>| #[trigger] files_view(s2).contains_key(k) implies files_view(s2)[k]
        == m[k] by {
        let j = choose|j: int| 0 <= j < s2.len() && s2[j].path@ == k;
        let jj = if j < i { j } else { j + 1 };
        assert(files_view(s2).contains_key(s2[j].path@));
        assert(files_view(s).contains_key(s[jj].path@));
    }
    assert(files_view(s2) =~= m);
}

/// The tracked files of one directory, at most one entry per path.
pub struct Registry {
    files: Vec<TrackedFile>,
}

impl View for Registry {
    type V = Map<Seq<char>, FileState>;

    closed spec fn view(&self) -> Map<Seq<char>, FileState> {
        files_view(self.files@)
    }
}

impl Registry {
    /// No path is held twice.
    pub closed spec fn wf(&self) -> bool {
        paths_unique(self.files@)
    }

    /// A registry that tracks nothing.
    pub fn new() -> (r: Registry)
        ensures
            r.wf(),
            r@ == Map::<Seq<char>, FileState>::empty(),
    {
        let r = Registry { files: Vec::new() };
        assert(r@ =~= Map::<Seq<char>, FileState>::empty());
        r
    }

    fn find(&self, path: &String) -> (r: Option<usize>)
        requires
            self.wf(),
        ensures
            r matches Some(i) ==> i < self.files@.len() && self.files@[i as int].path@ == path@,
            r is None <==> !self@.contains_key(path@),
    {
        proof {
            lemma_view_all(self.files@);
        }
        let mut i: usize = 0;
        while i < self.files.len()
            invariant
                i <= self.files@.len(),
                forall|j: int| 0 <= j < i ==> self.files@[j].path@ != path@,
            decreases self.files@.len() - i,
        {
            if self.files[i].path == *path {
                return Some(i);
            }
            i = i + 1;
        }
        None
    }

    /// Whether `path` is tracked.
    pub fn contains(&self, path: &String) -> (r: bool)
        requires
            self.wf(),
        ensures
            r == self@.contains_key(path@),
    {
        self.find(path).is_some()
    }

    /// The read cursor of `path`, if it is tracked.
    pub fn cursor(&self, path: &String) -> (r: Option<u64>)
        requires
            self.wf(),
        ensures
            self@.contains_key(path@) ==> r == Some(self@[path@].cursor),
            !self@.contains_key(path@) ==> r is None,
    {
        proof {
            lemma_view_all(self.files@);
        }
        match self.find(path) {
            Some(i) => {
                proof {
                    lemma_view_at(self.files@, i as int);
                }
                Some(self.files[i].cursor)
            },
            None => None,
        }
    }

    /// The name shown for `path`, if it is tracked.
    pub fn name_of(&self, path: &String) -> (r: Option<String>)
        requires
            self.wf(),
        ensures
            self@.contains_key(path@) ==> (r matches Some(n) && n@ == self@[path@].name),
            !self@.contains_key(path@) ==> r is None,
    {
        proof {
            lemma_view_all(self.files@);
        }
        match self.find(path) {
            Some(i) => {
                proof {
                    lemma_view_at(self.files@, i as int);
                }
                Some(self.files[i].name.clone())
            },
            None => None,
        }
    }

    /// Tracks `path` afresh, its cursor at `end`, the length of the file when it
    /// was opened: what it held before is never reported. An entry already held
    /// for `path` is replaced.
    pub fn register(&mut self, path: String, end: u64)
        requires
            old(self).wf(),
        ensures
            final(self).wf(),
            final(self)@ == old(self)@.insert(
                path@,
                FileState { name: display_name(path@), cursor: end },
            ),
    {
        let name = name_for(path.as_str());
        let entry = TrackedFile { path, name, cursor: end };
        let ghost old_files = self.files@;
        match self.find(&entry.path) {
            Some(i) => {
                proof {
                    lemma_view_replace(old_files, i as int, entry);
                }
                self.files.set(i, entry);
            },
            None => {
                proof {
                    lemma_view_push(old_files, entry);
                }
                self.files.push(entry);
            },
        }
    }

    /// Stops tracking `path`; says whether it was tracked.
    pub fn unregister(&mut self, path: &String) -> (r: bool)
        requires
            old(self).wf(),
        ensures
            final(self).wf(),
            r == old(self)@.contains_key(path@),
            final(self)@ == old(self)@.remove(path@),
    {
        match self.find(path) {
            Some(i) => {
                proof {
                    lemma_view_remove(self.files@, i as int);
                }
                self.files.remove(i);
                true
            },
            None => {
                assert(self@ =~= self@.remove(path@));
                false
            },
        }
    }

    /// Moves the cursor of `path` past `fresh`, the bytes read from it at the
    /// cursor, and hands them back. Nothing moves, and nothing comes back, when
    /// `path` is not tracked or when the cursor would pass the largest offset.
    pub fn advance(&mut self, path: &String, fresh: Vec<u8>) -> (r: Vec<u8>)
        requires
            old(self).wf(),
        ensures
            final(self).wf(),
            ({
                let old_reg = old(self)@;
                if old_reg.contains_key(path@) && old_reg[path@].cursor + fresh@.len() <= u64::MAX {
                    &&& final(self)@ == old_reg.insert(
                        path@,
                        FileState {
                            name: old_reg[path@].name,
                            cursor: (old_reg[path@].cursor + fresh@.len()) as u64,
                        },
                    )
                    &&& r@ == fresh@
                } else {
                    &&& final(self)@ == old_reg
                    &&& r@.len() == 0
                }
            }),
    {
        proof {
            lemma_view_all(self.files@);
        }
        match self.find(path) {
            Some(i) => {
                proof {
                    lemma_view_at(self.files@, i as int);
                }
                let cursor = self.files[i].cursor;
                if fresh.len() as u64 as usize == fresh.len() && cursor <= u64::MAX - fresh.len() as u64 {
                    let old_entry = &self.files[i];
                    let entry = TrackedFile {
                        path: old_entry.path.clone(),
                        name: old_entry.name.clone(),
                        cursor: cursor + fresh.len() as u64,
                    };
                    proof {
                        lemma_view_replace(self.files@, i as int, entry);
                    }
                    self.files.set(i, entry);
                    fresh
                } else {
                    Vec::new()
                }
            },
            None => Vec::new(),
        }
    }
}

} // verus!
