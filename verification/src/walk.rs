//! The directory walk, as a state machine.
//!
//! Listing a directory is I/O and is the caller's business: the caller
//! asks [`WalkState::next_dir`] which directory to list, lists it, and
//! hands the entries back through [`WalkState::record_entries`], with
//! each entry's path in canonical form. Every decision is verified
//! here: a directory is handed out at most once (so symlink cycles
//! cannot recurse unboundedly), only regular files become candidates,
//! and a file reached through two roots is recorded once.

use vstd::prelude::*;

use crate::validate::FileKind;

verus! {

/// One directory entry as the caller listed it: its canonical path and
/// its file type.
pub struct DirEntry {
    pub path: String,
    pub kind: FileKind,
}

/// The paths of a list, as sequences of characters.
pub open spec fn paths_view(s: Seq<String>) -> Seq<Seq<char>> {
    s.map_values(|p: String| p@)
}

/// Index of the first pending directory not yet visited, from
/// position `i`; the length of `p` if every one was visited.
pub open spec fn first_unvisited(p: Seq<Seq<char>>, v: Seq<Seq<char>>, i: int) -> int
    decreases p.len() - i,
{
    if i < 0 || i >= p.len() {
        p.len() as int
    } else if v.contains(p[i]) {
        first_unvisited(p, v, i + 1)
    } else {
        i
    }
}

/// The candidate files after recording entries from position `i`:
/// each regular-file entry not seen before is appended, in entry
/// order; everything else is ignored.
pub open spec fn add_files(fs: Seq<Seq<char>>, es: Seq<DirEntry>, i: int) -> Seq<Seq<char>>
    decreases es.len() - i,
{
    if i < 0 || i >= es.len() {
        fs
    } else {
        let fs2 = if es[i].kind == FileKind::Regular && !fs.contains(es[i].path@) {
            fs.push(es[i].path@)
        } else {
            fs
        };
        add_files(fs2, es, i + 1)
    }
}

/// The pending directories after recording entries from position `i`:
/// in recursive mode each directory entry is enqueued, in entry order;
/// otherwise nothing is.
pub open spec fn add_dirs(pd: Seq<Seq<char>>, es: Seq<DirEntry>, rec: bool, i: int) -> Seq<
    Seq<char>,
>
    decreases es.len() - i,
{
    if i < 0 || i >= es.len() {
        pd
    } else {
        let pd2 = if rec && es[i].kind == FileKind::Directory {
            pd.push(es[i].path@)
        } else {
            pd
        };
        add_dirs(pd2, es, rec, i + 1)
    }
}

/// The state of one walk over one or more directory roots.
pub struct WalkState {
    recursive: bool,
    pending: Vec<String>,
    visited: Vec<String>,
    files: Vec<String>,
}

impl WalkState {
    /// Whether the walk descends into subdirectories.
    pub closed spec fn is_recursive(&self) -> bool {
        self.recursive
    }

    /// The directories still waiting to be listed, in order.
    pub closed spec fn pending_view(&self) -> Seq<Seq<char>> {
        paths_view(self.pending@)
    }

    /// The directories already handed out for listing.
    pub closed spec fn visited_view(&self) -> Seq<Seq<char>> {
        paths_view(self.visited@)
    }

    /// The candidate files collected so far, in discovery order.
    pub closed spec fn files_view(&self) -> Seq<Seq<char>> {
        paths_view(self.files@)
    }

    /// No directory is ever handed out twice and no candidate file is
    /// ever recorded twice.
    pub open spec fn wf(&self) -> bool {
        self.visited_view().no_duplicates() && self.files_view().no_duplicates()
    }

    /// Start a walk over the given roots.
    pub fn walk_start(roots: Vec<String>, recursive: bool) -> (s: WalkState)
        ensures
            s.wf(),
            s.is_recursive() == recursive,
            s.pending_view() == paths_view(roots@),
            s.visited_view() == Seq::<Seq<char>>::empty(),
            s.files_view() == Seq::<Seq<char>>::empty(),
    {
        let s = WalkState { recursive, pending: roots, visited: Vec::new(), files: Vec::new() };
        proof {
            assert(s.visited_view() =~= Seq::<Seq<char>>::empty());
            assert(s.files_view() =~= Seq::<Seq<char>>::empty());
        }
        s
    }

    /// The next directory to list: the first pending one that was
    /// never handed out before, which is marked visited; `None` when
    /// none is left, which ends the walk. Because every handed-out
    /// directory is fresh, a symlink cycle can never make the walk
    /// list the same directory twice.
    pub fn next_dir(&mut self) -> (r: Option<String>)
        requires
            old(self).wf(),
        ensures
            final(self).wf(),
            final(self).is_recursive() == old(self).is_recursive(),
            final(self).files_view() == old(self).files_view(),
            ({
                let f = first_unvisited(old(self).pending_view(), old(self).visited_view(), 0);
                if f == old(self).pending_view().len() {
                    &&& r is None
                    &&& final(self).pending_view() == Seq::<Seq<char>>::empty()
                    &&& final(self).visited_view() == old(self).visited_view()
                } else {
                    &&& r matches Some(d) && d@ == old(self).pending_view()[f]
                    &&& !old(self).visited_view().contains(old(self).pending_view()[f])
                    &&& final(self).pending_view() == old(self).pending_view().skip(f + 1)
                    &&& final(self).visited_view() == old(self).visited_view().push(
                        old(self).pending_view()[f],
                    )
                }
            }),
    {
        let ghost pv0 = self.pending_view();
        let ghost vv0 = self.visited_view();
        let ghost mut c: int = 0;
        loop
            invariant
                self.wf(),
                self.visited_view() == vv0,
                self.files_view() == old(self).files_view(),
                self.is_recursive() == old(self).is_recursive(),
                pv0 == old(self).pending_view(),
                vv0 == old(self).visited_view(),
                0 <= c <= pv0.len(),
                self.pending_view() =~= pv0.skip(c),
                first_unvisited(pv0, vv0, 0) == first_unvisited(pv0, vv0, c),
            decreases pv0.len() - c,
        {
            if self.pending.len() == 0 {
                proof {
                    assert(self.pending_view().len() == self.pending@.len());
                    assert(pv0.skip(c).len() == pv0.len() - c);
                    assert(c == pv0.len());
                    assert(first_unvisited(pv0, vv0, c) == pv0.len());
                    assert(self.pending_view() =~= Seq::<Seq<char>>::empty());
                }
                return None;
            }
            let ghost pend0 = self.pending@;
            let d = self.pending.remove(0);
            proof {
                assert(paths_view(pend0) == pv0.skip(c));
                assert(pv0.skip(c).len() == pv0.len() - c);
                assert(c < pv0.len());
                assert(d == pend0[0]);
                assert(paths_view(pend0)[0] == pend0[0]@);
                assert(d@ == pv0.skip(c)[0]);
                assert(pv0.skip(c)[0] == pv0[c]);
                assert(self.pending@ == pend0.remove(0));
                assert(self.pending_view() =~= pv0.skip(c + 1)) by {
                    assert forall|w: int| 0 <= w < self.pending@.len() implies self.pending_view()[w]
                        == pv0.skip(c + 1)[w] by {
                        assert(self.pending@[w] == pend0[w + 1]);
                        assert(self.pending_view()[w] == self.pending@[w]@);
                        assert(pv0.skip(c + 1)[w] == pv0[c + 1 + w]);
                        assert(paths_view(pend0)[w + 1] == pend0[w + 1]@);
                        assert(pv0.skip(c)[w + 1] == pv0[c + w + 1]);
                    }
                }
            }
            if contains_path(&self.visited, &d) {
                proof {
                    assert(vv0.contains(pv0[c]));
                    assert(first_unvisited(pv0, vv0, c) == first_unvisited(pv0, vv0, c + 1));
                }
                proof {
                    c = c + 1;
                }
            } else {
                proof {
                    assert(!vv0.contains(pv0[c]));
                    assert(first_unvisited(pv0, vv0, c) == c);
                }
                let ghost prev = self.visited_view();
                self.visited.push(d.clone());
                proof {
                    assert(self.visited_view() =~= prev.push(d@));
                    let vv = self.visited_view();
                    assert forall|k1: int, k2: int|
                        0 <= k1 < vv.len() && 0 <= k2 < vv.len() && k1 != k2 implies vv[k1]
                        != vv[k2] by {
                        if k1 == vv.len() - 1 {
                            assert(prev.contains(prev[k2]));
                        } else if k2 == vv.len() - 1 {
                            assert(prev.contains(prev[k1]));
                        }
                    }
                    assert(vv.no_duplicates());
                }
                return Some(d);
            }
        }
    }

    /// Record one listed directory's entries: regular files not seen
    /// before become candidates; in recursive mode directories are
    /// enqueued for listing. Symlinks and other entries never become
    /// candidates.
    pub fn record_entries(&mut self, entries: &Vec<DirEntry>)
        requires
            old(self).wf(),
        ensures
            final(self).wf(),
            final(self).is_recursive() == old(self).is_recursive(),
            final(self).visited_view() == old(self).visited_view(),
            final(self).files_view() == add_files(old(self).files_view(), entries@, 0),
            final(self).pending_view() == add_dirs(
                old(self).pending_view(),
                entries@,
                old(self).is_recursive(),
                0,
            ),
    {
        let n = entries.len();
        let mut i: usize = 0;
        while i < n
            invariant
                n == entries@.len(),
                0 <= i <= n,
                self.wf(),
                self.visited_view() == old(self).visited_view(),
                self.is_recursive() == old(self).is_recursive(),
                add_files(old(self).files_view(), entries@, 0) == add_files(
                    self.files_view(),
                    entries@,
                    i as int,
                ),
                add_dirs(
                    old(self).pending_view(),
                    entries@,
                    old(self).is_recursive(),
                    0,
                ) == add_dirs(self.pending_view(), entries@, self.is_recursive(), i as int),
            decreases n - i,
        {
            let e = &entries[i];
            match e.kind {
                FileKind::Regular => {
                    if !contains_path(&self.files, &e.path) {
                        let ghost prev = self.files_view();
                        self.files.push(e.path.clone());
                        proof {
                            assert(self.files_view() =~= prev.push(e.path@));
                            let fv = self.files_view();
                            assert forall|k1: int, k2: int|
                                0 <= k1 < fv.len() && 0 <= k2 < fv.len() && k1 != k2 implies fv[k1]
                                != fv[k2] by {
                                if k1 == fv.len() - 1 {
                                    assert(prev.contains(prev[k2]));
                                } else if k2 == fv.len() - 1 {
                                    assert(prev.contains(prev[k1]));
                                }
                            }
                            assert(fv.no_duplicates());
                        }
                    }
                },
                FileKind::Directory => {
                    if self.recursive {
                        let ghost prev = self.pending_view();
                        self.pending.push(e.path.clone());
                        proof {
                            assert(self.pending_view() =~= prev.push(e.path@));
                        }
                    }
                },
                _ => {},
            }
            i = i + 1;
        }
    }

    /// The candidate files collected so far, in discovery order.
    pub fn files(&self) -> (r: &Vec<String>)
        ensures
            paths_view(r@) == self.files_view(),
    {
        &self.files
    }

    /// End the walk and keep its candidate files.
    pub fn into_files(self) -> (r: Vec<String>)
        ensures
            paths_view(r@) == self.files_view(),
    {
        let WalkState { recursive: _, pending: _, visited: _, files } = self;
        files
    }
}

/// Whether `s` occurs in `v`.
fn contains_path(v: &Vec<String>, s: &String) -> (r: bool)
    ensures
        r == paths_view(v@).contains(s@),
{
    let n = v.len();
    let mut i: usize = 0;
    while i < n
        invariant
            n == v@.len(),
            0 <= i <= n,
            forall|k: int| 0 <= k < i ==> paths_view(v@)[k] != s@,
        decreases n - i,
    {
        if v[i] == *s {
            proof {
                assert(paths_view(v@)[i as int] == v@[i as int]@);
                assert(paths_view(v@)[i as int] == s@);
            }
            return true;
        }
        proof {
            assert(paths_view(v@)[i as int] == v@[i as int]@);
        }
        i = i + 1;
    }
    proof {
        assert forall|k: int| 0 <= k < n implies paths_view(v@)[k] != s@ by {}
        if paths_view(v@).contains(s@) {
            let k = choose|k: int| 0 <= k < paths_view(v@).len() && paths_view(v@)[k] == s@;
        }
    }
    false
}

/// Only-regular-files law of the walk: every candidate the walk ever
/// records was either already a candidate or is the path of a regular
/// directory entry; a symlink or directory entry never becomes a
/// candidate.
pub proof fn lemma_walk_adds_only_regular(fs: Seq<Seq<char>>, es: Seq<DirEntry>, i: int, p: Seq<char>)
    requires
        add_files(fs, es, i).contains(p),
    ensures
        fs.contains(p) || exists|k: int|
            i <= k < es.len() && (#[trigger] es[k]).kind == FileKind::Regular && es[k].path@ == p,
    decreases es.len() - i,
{
    if i < 0 || i >= es.len() {
    } else {
        let fs2 = if es[i].kind == FileKind::Regular && !fs.contains(es[i].path@) {
            fs.push(es[i].path@)
        } else {
            fs
        };
        lemma_walk_adds_only_regular(fs2, es, i + 1, p);
        if !fs.contains(p) {
            if fs2.contains(p) {
                let k = choose|k: int| 0 <= k < fs2.len() && fs2[k] == p;
                assert(fs2 == fs.push(es[i].path@));
                if k < fs.len() {
                    assert(fs.contains(fs[k]));
                }
                assert(es[i].kind == FileKind::Regular && es[i].path@ == p);
            } else {
                let k = choose|k: int|
                    i + 1 <= k < es.len() && (#[trigger] es[k]).kind == FileKind::Regular
                        && es[k].path@ == p;
                assert(i <= k < es.len() && es[k].kind == FileKind::Regular && es[k].path@ == p);
            }
        }
    }
}

} // verus!
