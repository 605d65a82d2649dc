//! The manifest: the record of which source files are translatable.
//!
//! Each entry keys a path relative to the source directory to its
//! status.  Relative paths are unique: marking a path already present
//! re-tags it in place, so the manifest never holds duplicate entries.

use vstd::pervasive::VecAdditionalExecFns;
use vstd::prelude::*;

use crate::relpath::{bytes_eq, copy_bytes};
use crate::FileStatus;

verus! {

/// One file known to the project, keyed by its path relative to the
/// source directory.
pub struct ManifestEntry {
    pub rel_path: Vec<u8>,
    pub status: FileStatus,
}

impl View for ManifestEntry {
    type V = (Seq<u8>, FileStatus);

    open spec fn view(&self) -> (Seq<u8>, FileStatus) {
        (self.rel_path@, self.status)
    }
}

/// The entries of `m` have pairwise distinct relative paths.
pub open spec fn wf_entries(m: Seq<(Seq<u8>, FileStatus)>) -> bool {
    forall|i: int, j: int| 0 <= i < j < m.len() ==> m[i].0 != m[j].0
}

/// Some entry of `m` has the relative path `p`.
pub open spec fn has_path(m: Seq<(Seq<u8>, FileStatus)>, p: Seq<u8>) -> bool {
    exists|i: int| 0 <= i < m.len() && m[i].0 == p
}

/// The index of the entry with relative path `p`.
pub open spec fn path_index(m: Seq<(Seq<u8>, FileStatus)>, p: Seq<u8>) -> int {
    choose|i: int| 0 <= i < m.len() && m[i].0 == p
}

/// The status recorded for the relative path `p`.
pub open spec fn status_of(m: Seq<(Seq<u8>, FileStatus)>, p: Seq<u8>) -> FileStatus {
    m[path_index(m, p)].1
}

/// What marking does: re-tag the entry in place when the path is
/// already present, append a new entry otherwise.
pub open spec fn spec_mark(
    m: Seq<(Seq<u8>, FileStatus)>,
    p: Seq<u8>,
    st: FileStatus,
) -> Seq<(Seq<u8>, FileStatus)> {
    if has_path(m, p) {
        m.update(path_index(m, p), (p, st))
    } else {
        m.push((p, st))
    }
}

/// The relative paths tagged translatable, in insertion order.
pub open spec fn translatable_of(m: Seq<(Seq<u8>, FileStatus)>) -> Seq<Seq<u8>>
    decreases m.len(),
{
    if m.len() == 0 {
        Seq::empty()
    } else {
        let rest = translatable_of(m.drop_last());
        if m.last().1 is Translatable {
            rest.push(m.last().0)
        } else {
            rest
        }
    }
}

/// The relative paths tagged untranslatable, in insertion order.
pub open spec fn untranslatable_of(m: Seq<(Seq<u8>, FileStatus)>) -> Seq<Seq<u8>>
    decreases m.len(),
{
    if m.len() == 0 {
        Seq::empty()
    } else {
        let rest = untranslatable_of(m.drop_last());
        if m.last().1 is Untranslatable {
            rest.push(m.last().0)
        } else {
            rest
        }
    }
}

/// The byte strings a vector of byte vectors holds.
pub open spec fn views_of(s: Seq<Vec<u8>>) -> Seq<Seq<u8>> {
    s.map_values(|v: Vec<u8>| v@)
}

/// The record of which files under the source directory are
/// translatable and which are not.
pub struct Manifest {
    entries: Vec<ManifestEntry>,
}

impl View for Manifest {
    type V = Seq<(Seq<u8>, FileStatus)>;

    closed spec fn view(&self) -> Seq<(Seq<u8>, FileStatus)> {
        self.entries@.map_values(|e: ManifestEntry| e@)
    }
}

impl Manifest {
    /// Relative paths are unique across the manifest.
    pub open spec fn wf(&self) -> bool {
        wf_entries(self@)
    }

    /// An empty manifest.
    pub fn new() -> (r: Manifest)
        ensures
            r.wf(),
            r@ == Seq::<(Seq<u8>, FileStatus)>::empty(),
    {
        let r = Manifest { entries: Vec::new() };
        proof {
            assert(r@ =~= Seq::<(Seq<u8>, FileStatus)>::empty());
        }
        r
    }

    /// How many files the manifest knows.
    pub fn len(&self) -> (n: usize)
        ensures
            n == self@.len(),
    {
        self.entries.len()
    }

    /// The index of the entry for `p`, if the path is known.
    fn find_index(&self, p: &Vec<u8>) -> (r: Option<usize>)
        ensures
            r is Some ==> 0 <= r->Some_0 < self@.len() && self@[r->Some_0 as int].0 == p@,
            r is None ==> !has_path(self@, p@),
    {
        let mut i: usize = 0;
        while i < self.entries.len()
            invariant
                i <= self.entries.len(),
                forall|j: int| 0 <= j < i ==> self@[j].0 != p@,
            decreases self.entries.len() - i,
        {
            if bytes_eq(&self.entries[i].rel_path, p) {
                return Some(i);
            }
            i = i + 1;
        }
        None
    }

    /// Whether the relative path `p` has an entry.
    pub fn contains(&self, p: &Vec<u8>) -> (r: bool)
        ensures
            r == has_path(self@, p@),
    {
        self.find_index(p).is_some()
    }

    /// The status recorded for `p`, if the path is known.
    pub fn status(&self, p: &Vec<u8>) -> (r: Option<FileStatus>)
        requires
            self.wf(),
        ensures
            r is Some <==> has_path(self@, p@),
            r is Some ==> r->Some_0 == status_of(self@, p@),
    {
        match self.find_index(p) {
            Some(i) => {
                proof {
                    lemma_path_index_unique(self@, p@, i as int);
                }
                Some(self.entries[i].status)
            },
            None => None,
        }
    }

    /// Tag `rel_path` with `status`.  A known path is re-tagged in
    /// place; a new one is appended.  Marking twice with the same
    /// status is a no-op in the second call.
    pub fn mark(&mut self, rel_path: Vec<u8>, status: FileStatus)
        requires
            old(self).wf(),
        ensures
            final(self).wf(),
            final(self)@ == spec_mark(old(self)@, rel_path@, status),
    {
        let ghost m0 = self@;
        match self.find_index(&rel_path) {
            Some(i) => {
                proof {
                    lemma_path_index_unique(m0, rel_path@, i as int);
                }
                self.entries.set(i, ManifestEntry { rel_path, status });
                proof {
                    assert(self@ =~= m0.update(path_index(m0, rel_path@), (rel_path@, status)));
                    lemma_mark_wf(m0, rel_path@, status);
                }
            },
            None => {
                self.entries.push(ManifestEntry { rel_path, status });
                proof {
                    assert(self@ =~= m0.push((rel_path@, status)));
                    lemma_mark_wf(m0, rel_path@, status);
                }
            },
        }
    }

    /// Drop the entry for `p`, if one exists; the other entries keep
    /// their order.
    pub fn remove(&mut self, p: &Vec<u8>)
        requires
            old(self).wf(),
        ensures
            final(self).wf(),
            final(self)@ == spec_remove(old(self)@, p@),
    {
        let ghost m0 = self@;
        match self.find_index(p) {
            Some(i) => {
                proof {
                    lemma_path_index_unique(m0, p@, i as int);
                }
                self.entries.remove(i);
                proof {
                    assert(self@ =~= m0.remove(path_index(m0, p@)));
                    lemma_remove_wf(m0, path_index(m0, p@));
                }
            },
            None => {},
        }
    }

    /// Prune: keep exactly the entries whose flag reports that the
    /// underlying file still exists on disk, in order.  The flags are
    /// aligned with the entries.
    pub fn retain_existing(&mut self, exists: &Vec<bool>)
        requires
            old(self).wf(),
            exists@.len() == old(self)@.len(),
        ensures
            final(self).wf(),
            final(self)@ == kept_of(old(self)@, exists@),
    {
        let ghost m0 = self@;
        let mut kept: Vec<ManifestEntry> = Vec::new();
        let mut i: usize = 0;
        while i < self.entries.len()
            invariant
                i <= self.entries.len(),
                self@ == m0,
                exists@.len() == m0.len(),
                kept@.map_values(|e: ManifestEntry| e@) == kept_of(
                    m0.subrange(0, i as int),
                    exists@.subrange(0, i as int),
                ),
            decreases self.entries.len() - i,
        {
            let ghost mp = m0.subrange(0, i as int);
            let ghost xp = exists@.subrange(0, i as int);
            if exists[i] {
                let e = &self.entries[i];
                let entry = ManifestEntry { rel_path: copy_bytes(&e.rel_path), status: e.status };
                kept.push(entry);
            }
            proof {
                let mn = m0.subrange(0, i + 1 as int);
                let xn = exists@.subrange(0, i + 1 as int);
                assert(mn.drop_last() =~= mp);
                assert(xn.drop_last() =~= xp);
                assert(mn.last() == m0[i as int]);
                if exists@[i as int] {
                    assert(kept@.map_values(|e: ManifestEntry| e@) =~= kept_of(mp, xp).push(
                        m0[i as int],
                    ));
                } else {
                    assert(kept@.map_values(|e: ManifestEntry| e@) =~= kept_of(mp, xp));
                }
            }
            i = i + 1;
        }
        self.entries = kept;
        proof {
            assert(m0.subrange(0, m0.len() as int) =~= m0);
            assert(exists@.subrange(0, exists@.len() as int) =~= exists@);
            lemma_kept_wf(m0, exists@);
        }
    }

    /// Every entry as a path and status pair, in insertion order.
    pub fn snapshot(&self) -> (r: Vec<(Vec<u8>, FileStatus)>)
        ensures
            r@.map_values(|e: (Vec<u8>, FileStatus)| (e.0@, e.1)) == self@,
    {
        let mut r: Vec<(Vec<u8>, FileStatus)> = Vec::new();
        let mut i: usize = 0;
        while i < self.entries.len()
            invariant
                i <= self.entries.len(),
                r@.map_values(|e: (Vec<u8>, FileStatus)| (e.0@, e.1)) == self@.subrange(
                    0,
                    i as int,
                ),
            decreases self.entries.len() - i,
        {
            let e = &self.entries[i];
            let pair = (copy_bytes(&e.rel_path), e.status);
            let ghost before = r@;
            r.push(pair);
            proof {
                assert(pair.0@ == self@[i as int].0);
                assert(pair.1 == self@[i as int].1);
                assert(r@ == before.push(pair));
                assert(r@.map_values(|e: (Vec<u8>, FileStatus)| (e.0@, e.1)) =~= before.map_values(
                    |e: (Vec<u8>, FileStatus)| (e.0@, e.1),
                ).push((pair.0@, pair.1)));
                assert(r@.map_values(|e: (Vec<u8>, FileStatus)| (e.0@, e.1)) =~= self@.subrange(
                    0,
                    i + 1 as int,
                ));
            }
            i = i + 1;
        }
        proof {
            assert(self@.subrange(0, self@.len() as int) =~= self@);
        }
        r
    }

    /// The translatable relative paths, in insertion order.
    pub fn list_translatable(&self) -> (r: Vec<Vec<u8>>)
        ensures
            views_of(r@) == translatable_of(self@),
    {
        let mut r: Vec<Vec<u8>> = Vec::new();
        let mut i: usize = 0;
        while i < self.entries.len()
            invariant
                i <= self.entries.len(),
                views_of(r@) == translatable_of(self@.subrange(0, i as int)),
            decreases self.entries.len() - i,
        {
            let ghost prefix = self@.subrange(0, i as int);
            let e = &self.entries[i];
            if matches!(e.status, FileStatus::Translatable) {
                let path = copy_bytes(&e.rel_path);
                r.push(path);
            }
            proof {
                let next = self@.subrange(0, i + 1 as int);
                assert(next.drop_last() =~= prefix);
                assert(next.last() == self@[i as int]);
                if self@[i as int].1 is Translatable {
                    assert(views_of(r@) =~= translatable_of(prefix).push(self@[i as int].0));
                } else {
                    assert(views_of(r@) =~= translatable_of(prefix));
                }
            }
            i = i + 1;
        }
        proof {
            assert(self@.subrange(0, self@.len() as int) =~= self@);
        }
        r
    }

    /// The untranslatable relative paths, in insertion order.
    pub fn list_untranslatable(&self) -> (r: Vec<Vec<u8>>)
        ensures
            views_of(r@) == untranslatable_of(self@),
    {
        let mut r: Vec<Vec<u8>> = Vec::new();
        let mut i: usize = 0;
        while i < self.entries.len()
            invariant
                i <= self.entries.len(),
                views_of(r@) == untranslatable_of(self@.subrange(0, i as int)),
            decreases self.entries.len() - i,
        {
            let ghost prefix = self@.subrange(0, i as int);
            let e = &self.entries[i];
            if matches!(e.status, FileStatus::Untranslatable) {
                let path = copy_bytes(&e.rel_path);
                r.push(path);
            }
            proof {
                let next = self@.subrange(0, i + 1 as int);
                assert(next.drop_last() =~= prefix);
                assert(next.last() == self@[i as int]);
                if self@[i as int].1 is Untranslatable {
                    assert(views_of(r@) =~= untranslatable_of(prefix).push(self@[i as int].0));
                } else {
                    assert(views_of(r@) =~= untranslatable_of(prefix));
                }
            }
            i = i + 1;
        }
        proof {
            assert(self@.subrange(0, self@.len() as int) =~= self@);
        }
        r
    }
}

/// What removing does: drop the entry for `p` when the path is known,
/// leave the manifest unchanged otherwise.
pub open spec fn spec_remove(m: Seq<(Seq<u8>, FileStatus)>, p: Seq<u8>) -> Seq<
    (Seq<u8>, FileStatus),
> {
    if has_path(m, p) {
        m.remove(path_index(m, p))
    } else {
        m
    }
}

/// In a well-formed manifest the entry for a path is unique, so any
/// index holding `p` is the one `path_index` picks.
pub proof fn lemma_path_index_unique(m: Seq<(Seq<u8>, FileStatus)>, p: Seq<u8>, i: int)
    requires
        wf_entries(m),
        0 <= i < m.len(),
        m[i].0 == p,
    ensures
        has_path(m, p),
        path_index(m, p) == i,
{
    assert(has_path(m, p));
    let j = path_index(m, p);
    if i < j {
        assert(m[i].0 != m[j].0);
    } else if j < i {
        assert(m[j].0 != m[i].0);
    }
}

/// Marking keeps the relative paths pairwise distinct.
pub proof fn lemma_mark_wf(m: Seq<(Seq<u8>, FileStatus)>, p: Seq<u8>, st: FileStatus)
    requires
        wf_entries(m),
    ensures
        wf_entries(spec_mark(m, p, st)),
        has_path(spec_mark(m, p, st), p),
        status_of(spec_mark(m, p, st), p) == st,
        has_path(m, p) ==> spec_mark(m, p, st).len() == m.len(),
        !has_path(m, p) ==> spec_mark(m, p, st).len() == m.len() + 1,
{
    let m1 = spec_mark(m, p, st);
    if has_path(m, p) {
        let i = path_index(m, p);
        assert(0 <= i < m.len() && m[i].0 == p);
        assert forall|a: int, b: int| 0 <= a < b < m1.len() implies m1[a].0 != m1[b].0 by {
            assert(m[a].0 != m[b].0);
        }
        lemma_path_index_unique(m1, p, i);
    } else {
        assert forall|a: int, b: int| 0 <= a < b < m1.len() implies m1[a].0 != m1[b].0 by {
            if b < m.len() {
                assert(m[a].0 != m[b].0);
            } else {
                assert(m1[b].0 == p);
                assert(m[a].0 != p);
            }
        }
        lemma_path_index_unique(m1, p, m.len() as int);
    }
}

/// The entries kept by pruning: those whose flag says the underlying
/// file still exists.
pub open spec fn kept_of(m: Seq<(Seq<u8>, FileStatus)>, ex: Seq<bool>) -> Seq<
    (Seq<u8>, FileStatus),
>
    decreases m.len(),
{
    if m.len() == 0 {
        Seq::empty()
    } else {
        let rest = kept_of(m.drop_last(), ex.drop_last());
        if ex.last() {
            rest.push(m.last())
        } else {
            rest
        }
    }
}

/// Pruning keeps the relative paths pairwise distinct, and introduces
/// no path that was not already present.
pub proof fn lemma_kept_wf(m: Seq<(Seq<u8>, FileStatus)>, ex: Seq<bool>)
    requires
        wf_entries(m),
        ex.len() == m.len(),
    ensures
        wf_entries(kept_of(m, ex)),
        forall|p: Seq<u8>| has_path(kept_of(m, ex), p) ==> has_path(m, p),
        kept_of(m, ex).len() <= m.len(),
    decreases m.len(),
{
    if m.len() == 0 {
    } else {
        let d = m.drop_last();
        let dx = ex.drop_last();
        assert forall|i: int, j: int| 0 <= i < j < d.len() implies d[i].0 != d[j].0 by {
            assert(m[i].0 != m[j].0);
        }
        lemma_kept_wf(d, dx);
        let k = kept_of(m, ex);
        let kd = kept_of(d, dx);
        if ex.last() {
            assert(k == kd.push(m.last()));
            assert forall|a: int, b: int| 0 <= a < b < k.len() implies k[a].0 != k[b].0 by {
                if b < kd.len() {
                    assert(kd[a].0 != kd[b].0);
                } else {
                    assert(k[b] == m.last());
                    assert(has_path(kd, kd[a].0));
                    assert(has_path(d, kd[a].0));
                    let i0 = choose|i0: int| 0 <= i0 < d.len() && d[i0].0 == kd[a].0;
                    assert(m[i0].0 != m[m.len() - 1].0);
                }
            }
            assert forall|p: Seq<u8>| has_path(k, p) implies has_path(m, p) by {
                let a = choose|a: int| 0 <= a < k.len() && k[a].0 == p;
                if a < kd.len() {
                    assert(has_path(kd, p));
                    assert(has_path(d, p));
                    let i0 = choose|i0: int| 0 <= i0 < d.len() && d[i0].0 == p;
                    assert(m[i0].0 == p);
                } else {
                    assert(m[m.len() - 1].0 == p);
                }
            }
        } else {
            assert(k == kd);
            assert forall|p: Seq<u8>| has_path(k, p) implies has_path(m, p) by {
                assert(has_path(d, p));
                let i0 = choose|i0: int| 0 <= i0 < d.len() && d[i0].0 == p;
                assert(m[i0].0 == p);
            }
        }
    }
}

/// The number of times the byte string `x` occurs in `s`.
pub open spec fn occurrences(s: Seq<Seq<u8>>, x: Seq<u8>) -> nat
    decreases s.len(),
{
    if s.len() == 0 {
        0
    } else {
        occurrences(s.drop_last(), x) + (if s.last() == x {
            1nat
        } else {
            0nat
        })
    }
}

/// A path occurs in the translatable listing once when its entry is
/// tagged translatable, and never otherwise.
pub proof fn lemma_translatable_occurrences(m: Seq<(Seq<u8>, FileStatus)>, p: Seq<u8>)
    requires
        wf_entries(m),
    ensures
        occurrences(translatable_of(m), p) == (if has_path(m, p) && status_of(m, p)
            is Translatable {
            1nat
        } else {
            0nat
        }),
    decreases m.len(),
{
    if m.len() == 0 {
    } else {
        let d = m.drop_last();
        assert forall|i: int, j: int| 0 <= i < j < d.len() implies d[i].0 != d[j].0 by {
            assert(m[i].0 != m[j].0);
        }
        lemma_translatable_occurrences(d, p);
        let t = translatable_of(m);
        let td = translatable_of(d);
        if m.last().0 == p {
            assert forall|i: int| 0 <= i < d.len() implies d[i].0 != p by {
                assert(m[i].0 != m[m.len() - 1].0);
            }
            assert(!has_path(d, p));
            lemma_path_index_unique(m, p, m.len() - 1);
            if m.last().1 is Translatable {
                assert(t == td.push(p));
                assert(t.drop_last() =~= td);
                assert(occurrences(t, p) == occurrences(td, p) + 1);
            } else {
                assert(t == td);
            }
        } else {
            if has_path(d, p) {
                let i = path_index(d, p);
                assert(0 <= i < d.len() && d[i].0 == p);
                assert(m[i].0 == p);
                lemma_path_index_unique(m, p, i);
                lemma_path_index_unique(d, p, i);
            } else {
                assert forall|i: int| 0 <= i < m.len() implies m[i].0 != p by {
                    if i < m.len() - 1 {
                        assert(d[i].0 != p);
                    }
                }
                assert(!has_path(m, p));
            }
            if m.last().1 is Translatable {
                assert(t == td.push(m.last().0));
                assert(t.drop_last() =~= td);
                assert(t.last() != p);
                assert(occurrences(t, p) == occurrences(td, p));
            } else {
                assert(t == td);
            }
        }
    }
}

/// Marking a valid relative path translatable puts it in the
/// translatable listing exactly once.
pub proof fn lemma_mark_then_list_once(m: Seq<(Seq<u8>, FileStatus)>, p: Seq<u8>)
    requires
        wf_entries(m),
    ensures
        occurrences(translatable_of(spec_mark(m, p, FileStatus::Translatable)), p) == 1,
{
    lemma_mark_wf(m, p, FileStatus::Translatable);
    lemma_translatable_occurrences(spec_mark(m, p, FileStatus::Translatable), p);
}

/// Re-marking a known path updates its status in place: the manifest
/// keeps its size and stays free of duplicate entries.
pub proof fn lemma_remark_in_place(m: Seq<(Seq<u8>, FileStatus)>, p: Seq<u8>, st: FileStatus)
    requires
        wf_entries(m),
        has_path(m, p),
    ensures
        spec_mark(m, p, st).len() == m.len(),
        wf_entries(spec_mark(m, p, st)),
        has_path(spec_mark(m, p, st), p),
        status_of(spec_mark(m, p, st), p) == st,
{
    lemma_mark_wf(m, p, st);
}

/// Removing an entry keeps the relative paths pairwise distinct.
pub proof fn lemma_remove_wf(m: Seq<(Seq<u8>, FileStatus)>, i: int)
    requires
        wf_entries(m),
        0 <= i < m.len(),
    ensures
        wf_entries(m.remove(i)),
{
    let m1 = m.remove(i);
    assert forall|a: int, b: int| 0 <= a < b < m1.len() implies m1[a].0 != m1[b].0 by {
        let a0 = if a < i {
            a
        } else {
            a + 1
        };
        let b0 = if b < i {
            b
        } else {
            b + 1
        };
        assert(m1[a] == m[a0]);
        assert(m1[b] == m[b0]);
        assert(m[a0].0 != m[b0].0);
    }
}

} // verus!
