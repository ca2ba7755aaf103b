//! The walk through a directory tree, as a work list: directories wait to
//! be listed, and what was seen once is never taken up again. Symbolic
//! links are never followed.

use crate::report::contains_text;
use crate::sequences::lemma_fold_step;
use vstd::prelude::*;

verus! {

/// What an entry of a directory is.
#[derive(Debug, Clone, Copy, PartialEq, Eq, Structural)]
pub enum EntryKind {
    File,
    Directory,
    Symlink,
    Other,
}

/// An entry of a directory: its path and what it is.
#[derive(Debug, PartialEq, Eq)]
pub struct DirEntry {
    pub path: String,
    pub kind: EntryKind,
}

/// What a `DirEntry` holds, with its texts as sequences of characters.
pub struct DirEntryView {
    pub path: Seq<char>,
    pub kind: EntryKind,
}

impl View for DirEntry {
    type V = DirEntryView;

    open spec fn view(&self) -> DirEntryView {
        DirEntryView { path: self.path@, kind: self.kind }
    }
}

impl DeepView for DirEntry {
    type V = DirEntryView;

    open spec fn deep_view(&self) -> DirEntryView {
        self@
    }
}

/// The state of a walk together with the files that a listing yields.
pub struct WalkView {
    /// The directories that wait to be listed.
    pub pending: Seq<Seq<char>>,
    /// The directories that were handed out and the files that were
    /// yielded.
    pub visited: Seq<Seq<char>>,
    /// The files that the listing at hand has yielded.
    pub files: Seq<Seq<char>>,
}

/// The state after one more entry of a listing. A path that was visited or
/// waits changes nothing. Of the others, a directory is put on the work
/// list, and a file is yielded and counts as visited. A symbolic link, or
/// anything else, changes nothing.
pub open spec fn walk_step() -> spec_fn(WalkView, DirEntryView) -> WalkView {
    |st: WalkView, e: DirEntryView|
        match e.kind {
            EntryKind::Directory => if st.visited.contains(e.path) || st.pending.contains(e.path) {
                st
            } else {
                WalkView { pending: st.pending.push(e.path), ..st }
            },
            EntryKind::File => if st.visited.contains(e.path) || st.pending.contains(e.path) {
                st
            } else {
                WalkView {
                    visited: st.visited.push(e.path),
                    files: st.files.push(e.path),
                    pending: st.pending,
                }
            },
            _ => st,
        }
}

/// The invariant of a walk: nothing waits twice, nothing was visited twice,
/// and nothing that waits was visited.
pub open spec fn walk_wf(pending: Seq<Seq<char>>, visited: Seq<Seq<char>>) -> bool {
    &&& pending.no_duplicates()
    &&& visited.no_duplicates()
    &&& forall|i: int| 0 <= i < pending.len() ==> !visited.contains(#[trigger] pending[i])
}

/// A step keeps the invariant, only adds to what was visited, and yields
/// only files that were not visited before.
pub proof fn lemma_walk_step(st: WalkView, e: DirEntryView)
    requires
        walk_wf(st.pending, st.visited),
        forall|i: int| 0 <= i < st.files.len() ==> st.visited.contains(#[trigger] st.files[i]),
        st.files.no_duplicates(),
    ensures
        walk_wf(walk_step()(st, e).pending, walk_step()(st, e).visited),
        forall|i: int|
            0 <= i < walk_step()(st, e).files.len() ==> walk_step()(st, e).visited.contains(
                #[trigger] walk_step()(st, e).files[i],
            ),
        walk_step()(st, e).files.no_duplicates(),
        e.kind == EntryKind::Symlink || e.kind == EntryKind::Other ==> walk_step()(st, e) == st,
{
    let next = walk_step()(st, e);
    match e.kind {
        EntryKind::Directory => {
            if !(st.visited.contains(e.path) || st.pending.contains(e.path)) {
                assert forall|i: int| 0 <= i < next.pending.len() implies !next.visited.contains(
                    #[trigger] next.pending[i],
                ) by {
                    if i < st.pending.len() {
                        assert(next.pending[i] == st.pending[i]);
                        assert(!st.visited.contains(st.pending[i]));
                    } else {
                        assert(next.pending[i] == e.path);
                    }
                }
                assert forall|i: int, j: int|
                    0 <= i < next.pending.len() && 0 <= j < next.pending.len() && i
                        != j implies next.pending[i] != next.pending[j] by {
                    if i < st.pending.len() && j < st.pending.len() {
                    } else if i < st.pending.len() {
                        assert(st.pending.contains(st.pending[i]));
                    } else if j < st.pending.len() {
                        assert(st.pending.contains(st.pending[j]));
                    }
                }
            }
        },
        EntryKind::File => {
            if !(st.visited.contains(e.path) || st.pending.contains(e.path)) {
                assert forall|i: int| 0 <= i < next.pending.len() implies !next.visited.contains(
                    #[trigger] next.pending[i],
                ) by {
                    assert(st.pending.contains(st.pending[i]));
                    assert(!st.visited.contains(st.pending[i]));
                    if next.visited.contains(next.pending[i]) {
                        let j = choose|j: int|
                            0 <= j < next.visited.len() && next.visited[j] == next.pending[i];
                        if j < st.visited.len() {
                            assert(st.visited[j] == next.pending[i]);
                        } else {
                            assert(e.path == st.pending[i]);
                        }
                    }
                }
                assert forall|i: int| 0 <= i < next.files.len() implies next.visited.contains(
                    #[trigger] next.files[i],
                ) by {
                    if i < st.files.len() {
                        assert(st.visited.contains(st.files[i]));
                        let j = choose|j: int|
                            0 <= j < st.visited.len() && st.visited[j] == st.files[i];
                        assert(next.visited[j] == next.files[i]);
                    } else {
                        assert(next.visited[st.visited.len() as int] == e.path);
                    }
                }
                assert forall|i: int, j: int|
                    0 <= i < next.files.len() && 0 <= j < next.files.len() && i != j implies next.files[i]
                    != next.files[j] by {
                    if i < st.files.len() && j < st.files.len() {
                    } else if i < st.files.len() {
                        assert(st.visited.contains(st.files[i]));
                    } else if j < st.files.len() {
                        assert(st.visited.contains(st.files[j]));
                    }
                }
            }
        },
        _ => {},
    }
}

/// A walk through a directory tree.
pub struct DirectoryWalk {
    pending: Vec<String>,
    visited: Vec<String>,
}

impl DirectoryWalk {
    /// The directories that wait to be listed; the last is taken first.
    pub closed spec fn pending(self) -> Seq<Seq<char>> {
        self.pending.deep_view()
    }

    /// The directories that were handed out and the files that were
    /// yielded.
    pub closed spec fn visited(self) -> Seq<Seq<char>> {
        self.visited.deep_view()
    }

    /// The invariant of the walk.
    #[verifier::type_invariant]
    pub open spec fn wf(self) -> bool {
        walk_wf(self.pending(), self.visited())
    }

    /// A walk that is over before it began: nothing waits, nothing was
    /// visited.
    fn ended() -> (w: DirectoryWalk)
        ensures
            w.pending() == Seq::<Seq<char>>::empty(),
            w.visited() == Seq::<Seq<char>>::empty(),
    {
        let w = DirectoryWalk { pending: Vec::new(), visited: Vec::new() };
        assert(w.pending.deep_view() =~= Seq::<Seq<char>>::empty());
        assert(w.visited.deep_view() =~= Seq::<Seq<char>>::empty());
        w
    }

    /// A walk that starts at `root`.
    pub fn new(root: &str) -> (w: DirectoryWalk)
        ensures
            w.wf(),
            w.pending() == seq![root@],
            w.visited() == Seq::<Seq<char>>::empty(),
    {
        let mut pending: Vec<String> = Vec::new();
        pending.push(root.to_owned());
        let visited: Vec<String> = Vec::new();
        assert(pending.deep_view() =~= seq![root@]);
        assert(visited.deep_view() =~= Seq::<Seq<char>>::empty());
        DirectoryWalk { pending, visited }
    }

    /// Hands out the next directory to list, which from then on counts as
    /// visited; `None` when no directory waits and the walk is over.
    pub fn next(&mut self) -> (dir: Option<String>)
        ensures
            final(self).wf(),
            old(self).pending().len() == 0 ==> ({
                &&& dir is None
                &&& final(self).pending() == old(self).pending()
                &&& final(self).visited() == old(self).visited()
            }),
            old(self).pending().len() > 0 ==> ({
                &&& dir is Some
                &&& dir->0@ == old(self).pending().last()
                &&& !old(self).visited().contains(dir->0@)
                &&& final(self).pending() == old(self).pending().drop_last()
                &&& final(self).visited() == old(self).visited().push(dir->0@)
            }),
    {
        proof {
            use_type_invariant(&*self);
        }
        if self.pending.len() == 0 {
            return None;
        }
        let ghost before_pending = self.pending.deep_view();
        let ghost before_visited = self.visited.deep_view();
        let mut taken = DirectoryWalk::ended();
        std::mem::swap(self, &mut taken);
        let DirectoryWalk { pending, visited } = taken;
        let mut pending = pending;
        let mut visited = visited;
        match pending.pop() {
            Some(dir) => {
                assert(dir@ == before_pending.last());
                assert(pending.deep_view() =~= before_pending.drop_last());
                visited.push(dir.clone());
                assert(visited.deep_view() =~= before_visited.push(dir@));
                proof {
                    let p = pending.deep_view();
                    let v = visited.deep_view();
                    assert(!before_visited.contains(before_pending[before_pending.len() - 1]));
                    assert forall|i: int| 0 <= i < p.len() implies !v.contains(#[trigger] p[i]) by {
                        assert(p[i] == before_pending[i]);
                        assert(!before_visited.contains(before_pending[i]));
                        if v.contains(p[i]) {
                            let j = choose|j: int| 0 <= j < v.len() && v[j] == p[i];
                            if j < before_visited.len() {
                                assert(before_visited[j] == p[i]);
                            }
                        }
                    }
                    assert forall|i: int, j: int|
                        0 <= i < v.len() && 0 <= j < v.len() && i != j implies v[i] != v[j] by {
                        if i < before_visited.len() && j < before_visited.len() {
                        } else if i < before_visited.len() {
                            assert(before_visited.contains(before_visited[i]));
                        } else if j < before_visited.len() {
                            assert(before_visited.contains(before_visited[j]));
                        }
                    }
                }
                *self = DirectoryWalk { pending, visited };
                Some(dir)
            },
            None => {
                *self = DirectoryWalk { pending, visited };
                None
            },
        }
    }

    /// Takes in the entries of a directory that was listed. Directories
    /// that are new are put on the work list; files that are new are
    /// yielded, in the order of the entries; symbolic links are left aside.
    pub fn offer(&mut self, entries: &Vec<DirEntry>) -> (files: Vec<String>)
        ensures
            final(self).wf(),
            (WalkView {
                pending: final(self).pending(),
                visited: final(self).visited(),
                files: files.deep_view(),
            }) == entries.deep_view().fold_left(
                WalkView {
                    pending: old(self).pending(),
                    visited: old(self).visited(),
                    files: Seq::empty(),
                },
                walk_step(),
            ),
            files.deep_view().no_duplicates(),
            forall|i: int|
                0 <= i < files.len() ==> final(self).visited().contains(
                    #[trigger] files.deep_view()[i],
                ),
    {
        proof {
            use_type_invariant(&*self);
        }
        let ghost all = entries.deep_view();
        let ghost start = WalkView {
            pending: self.pending.deep_view(),
            visited: self.visited.deep_view(),
            files: Seq::empty(),
        };
        let mut taken = DirectoryWalk::ended();
        std::mem::swap(self, &mut taken);
        let DirectoryWalk { pending, visited } = taken;
        let mut pending = pending;
        let mut visited = visited;
        let mut files: Vec<String> = Vec::new();
        let mut k: usize = 0;
        assert(files.deep_view() =~= Seq::<Seq<char>>::empty());
        while k < entries.len()
            invariant
                k <= entries.len(),
                all == entries.deep_view(),
                walk_wf(pending.deep_view(), visited.deep_view()),
                (WalkView {
                    pending: pending.deep_view(),
                    visited: visited.deep_view(),
                    files: files.deep_view(),
                }) == all.take(k as int).fold_left(start, walk_step()),
                files.deep_view().no_duplicates(),
                forall|i: int|
                    0 <= i < files.len() ==> visited.deep_view().contains(
                        #[trigger] files.deep_view()[i],
                    ),
            decreases entries.len() - k,
        {
            let e = &entries[k];
            assert(all[k as int] == e@);
            let ghost st = WalkView {
                pending: pending.deep_view(),
                visited: visited.deep_view(),
                files: files.deep_view(),
            };
            proof {
                lemma_walk_step(st, e@);
                lemma_fold_step(all, start, walk_step(), k as int);
            }
            match e.kind {
                EntryKind::Directory => {
                    if !contains_text(&visited, &e.path) && !contains_text(&pending, &e.path) {
                        pending.push(e.path.clone());
                        assert(pending.deep_view() =~= st.pending.push(e.path@));
                    }
                },
                EntryKind::File => {
                    if !contains_text(&visited, &e.path) && !contains_text(&pending, &e.path) {
                        visited.push(e.path.clone());
                        files.push(e.path.clone());
                        assert(visited.deep_view() =~= st.visited.push(e.path@));
                        assert(files.deep_view() =~= st.files.push(e.path@));
                    }
                },
                _ => {},
            }
            k += 1;
        }
        assert(all.take(k as int) =~= all);
        *self = DirectoryWalk { pending, visited };
        files
    }

    /// Whether the walk is over: no directory waits.
    pub fn is_done(&self) -> (b: bool)
        ensures
            b == (self.pending().len() == 0),
    {
        self.pending.len() == 0
    }
}

} // verus!
