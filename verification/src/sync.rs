//! The synchronizer: mirrors of untranslatable files.
//!
//! Every untranslatable manifest entry must have a copy at the same
//! relative path under every target-language directory.  The engine
//! plans the pass: it pairs each untranslatable path with each target
//! directory, filters the pairs whose mirror the caller found stale,
//! and aggregates the copy outcomes.  The caller performs the copies
//! and reports back; errors on single files never abort the pass.
//!
//! A mirror store is modelled as a map from (language, relative path)
//! to content, which is what makes the idempotence of the pass a
//! provable statement rather than a hope about the disk.

use vstd::prelude::*;

use crate::errors::MarkError;
use crate::lang::Language;
use crate::manifest::{untranslatable_of, views_of};
use crate::project::Project;
use crate::relpath::copy_bytes;

verus! {

/// One planned mirror: a relative path to copy into one target
/// directory.
pub struct SyncPair {
    pub rel_path: Vec<u8>,
    pub language: Language,
    pub dir_name: Vec<u8>,
}

impl View for SyncPair {
    type V = (Seq<u8>, Language, Seq<u8>);

    open spec fn view(&self) -> (Seq<u8>, Language, Seq<u8>) {
        (self.rel_path@, self.language, self.dir_name@)
    }
}

/// The views of a vector of pairs.
pub open spec fn pair_views(s: Seq<SyncPair>) -> Seq<(Seq<u8>, Language, Seq<u8>)> {
    s.map_values(|p: SyncPair| p@)
}

/// One untranslatable path paired with every target directory, in
/// target order.
pub open spec fn row_of(p: Seq<u8>, dirs: Seq<(Language, Seq<u8>)>) -> Seq<
    (Seq<u8>, Language, Seq<u8>),
> {
    dirs.map_values(|d: (Language, Seq<u8>)| (p, d.0, d.1))
}

/// Every untranslatable path paired with every target directory:
/// manifest order outside, target order inside.
pub open spec fn cross_of(paths: Seq<Seq<u8>>, dirs: Seq<(Language, Seq<u8>)>) -> Seq<
    (Seq<u8>, Language, Seq<u8>),
>
    decreases paths.len(),
{
    if paths.len() == 0 {
        Seq::empty()
    } else {
        cross_of(paths.drop_last(), dirs) + row_of(paths.last(), dirs)
    }
}

/// The pairs whose mirror was found stale, in plan order.
pub open spec fn stale_of(
    pairs: Seq<(Seq<u8>, Language, Seq<u8>)>,
    fresh: Seq<bool>,
) -> Seq<(Seq<u8>, Language, Seq<u8>)>
    decreases pairs.len(),
{
    if pairs.len() == 0 {
        Seq::empty()
    } else {
        let rest = stale_of(pairs.drop_last(), fresh.drop_last());
        if fresh.last() {
            rest
        } else {
            rest.push(pairs.last())
        }
    }
}

/// The relative paths of the copies that failed, in plan order.
pub open spec fn failed_of(
    actions: Seq<(Seq<u8>, Language, Seq<u8>)>,
    ok: Seq<bool>,
) -> Seq<Seq<u8>>
    decreases actions.len(),
{
    if actions.len() == 0 {
        Seq::empty()
    } else {
        let rest = failed_of(actions.drop_last(), ok.drop_last());
        if ok.last() {
            rest
        } else {
            rest.push(actions.last().0)
        }
    }
}

impl Project {
    /// The full synchronization plan: every untranslatable path under
    /// every target directory.  Fails when no source directory is set.
    pub fn sync_pairs(&self) -> (r: Result<Vec<SyncPair>, MarkError>)
        requires
            self.wf(),
        ensures
            r is Ok <==> self.config.source is Some,
            r is Err ==> r == Err::<Vec<SyncPair>, MarkError>(MarkError::NoSourceDirectory),
            r is Ok ==> pair_views(r->Ok_0@) == cross_of(
                untranslatable_of(self.manifest@),
                self.config.targets(),
            ),
    {
        if self.config.source.is_none() {
            return Err(MarkError::NoSourceDirectory);
        }
        let paths = self.manifest.list_untranslatable();
        let ghost ps = views_of(paths@);
        let ghost dirs = self.config.targets();
        let mut pairs: Vec<SyncPair> = Vec::new();
        let mut i: usize = 0;
        while i < paths.len()
            invariant
                i <= paths.len(),
                ps == views_of(paths@),
                dirs == self.config.targets(),
                pair_views(pairs@) == cross_of(ps.subrange(0, i as int), dirs),
            decreases paths.len() - i,
        {
            let ghost prefix = ps.subrange(0, i as int);
            let mut j: usize = 0;
            while j < self.config.lang_dirs.len()
                invariant
                    j <= self.config.lang_dirs.len(),
                    i < paths.len(),
                    ps == views_of(paths@),
                    dirs == self.config.targets(),
                    prefix == ps.subrange(0, i as int),
                    pair_views(pairs@) == cross_of(prefix, dirs) + row_of(
                        ps[i as int],
                        dirs.subrange(0, j as int),
                    ),
                decreases self.config.lang_dirs.len() - j,
            {
                let d = &self.config.lang_dirs[j];
                let pair = SyncPair {
                    rel_path: copy_bytes(&paths[i]),
                    language: d.language,
                    dir_name: copy_bytes(&d.dir_name),
                };
                let ghost before = pair_views(pairs@);
                pairs.push(pair);
                proof {
                    assert(pair@ == (ps[i as int], dirs[j as int].0, dirs[j as int].1));
                    assert(pair_views(pairs@) =~= before.push(pair@));
                    assert(row_of(ps[i as int], dirs.subrange(0, j + 1 as int)) =~= row_of(
                        ps[i as int],
                        dirs.subrange(0, j as int),
                    ).push(pair@));
                    assert((cross_of(prefix, dirs) + row_of(
                        ps[i as int],
                        dirs.subrange(0, j as int),
                    )).push(pair@) =~= cross_of(prefix, dirs) + row_of(
                        ps[i as int],
                        dirs.subrange(0, j + 1 as int),
                    ));
                }
                j = j + 1;
            }
            proof {
                let next = ps.subrange(0, i + 1 as int);
                assert(next.drop_last() =~= prefix);
                assert(next.last() == ps[i as int]);
                assert(dirs.subrange(0, dirs.len() as int) =~= dirs);
                assert(pair_views(pairs@) == cross_of(prefix, dirs) + row_of(ps[i as int], dirs));
            }
            i = i + 1;
        }
        proof {
            assert(ps.subrange(0, ps.len() as int) =~= ps);
        }
        Ok(pairs)
    }
}

/// The copies to perform: the pairs whose mirror the caller found
/// missing or out of date.  The flags are aligned with the plan.
pub fn sync_actions(pairs: &Vec<SyncPair>, fresh: &Vec<bool>) -> (r: Vec<SyncPair>)
    requires
        fresh@.len() == pairs@.len(),
    ensures
        pair_views(r@) == stale_of(pair_views(pairs@), fresh@),
{
    let mut r: Vec<SyncPair> = Vec::new();
    let mut i: usize = 0;
    while i < pairs.len()
        invariant
            i <= pairs.len(),
            fresh@.len() == pairs@.len(),
            pair_views(r@) == stale_of(
                pair_views(pairs@).subrange(0, i as int),
                fresh@.subrange(0, i as int),
            ),
        decreases pairs.len() - i,
    {
        let ghost pp = pair_views(pairs@).subrange(0, i as int);
        let ghost fp = fresh@.subrange(0, i as int);
        if !fresh[i] {
            let p = &pairs[i];
            let pair = SyncPair {
                rel_path: copy_bytes(&p.rel_path),
                language: p.language,
                dir_name: copy_bytes(&p.dir_name),
            };
            r.push(pair);
        }
        proof {
            let pn = pair_views(pairs@).subrange(0, i + 1 as int);
            let fn_ = fresh@.subrange(0, i + 1 as int);
            assert(pn.drop_last() =~= pp);
            assert(fn_.drop_last() =~= fp);
            assert(pn.last() == pair_views(pairs@)[i as int]);
            if fresh@[i as int] {
                assert(pair_views(r@) =~= stale_of(pp, fp));
            } else {
                assert(pair_views(r@) =~= stale_of(pp, fp).push(pair_views(pairs@)[i as int]));
            }
        }
        i = i + 1;
    }
    proof {
        assert(pair_views(pairs@).subrange(0, pair_views(pairs@).len() as int) =~= pair_views(
            pairs@,
        ));
        assert(fresh@.subrange(0, fresh@.len() as int) =~= fresh@);
    }
    r
}

/// The aggregate result of one synchronization pass.
pub struct SyncReport {
    pub attempted: usize,
    pub failed: Vec<Vec<u8>>,
}

/// Aggregate the copy outcomes: the pass succeeds only when every copy
/// succeeded, and the failing relative paths are listed in order.  The
/// flags are aligned with the actions.
pub fn sync_report(actions: &Vec<SyncPair>, ok: &Vec<bool>) -> (r: SyncReport)
    requires
        ok@.len() == actions@.len(),
    ensures
        r.attempted == actions@.len(),
        views_of(r.failed@) == failed_of(pair_views(actions@), ok@),
{
    let mut failed: Vec<Vec<u8>> = Vec::new();
    let mut i: usize = 0;
    while i < actions.len()
        invariant
            i <= actions.len(),
            ok@.len() == actions@.len(),
            views_of(failed@) == failed_of(
                pair_views(actions@).subrange(0, i as int),
                ok@.subrange(0, i as int),
            ),
        decreases actions.len() - i,
    {
        let ghost ap = pair_views(actions@).subrange(0, i as int);
        let ghost op = ok@.subrange(0, i as int);
        if !ok[i] {
            let path = copy_bytes(&actions[i].rel_path);
            failed.push(path);
        }
        proof {
            let an = pair_views(actions@).subrange(0, i + 1 as int);
            let on = ok@.subrange(0, i + 1 as int);
            assert(an.drop_last() =~= ap);
            assert(on.drop_last() =~= op);
            assert(an.last() == pair_views(actions@)[i as int]);
            if ok@[i as int] {
                assert(views_of(failed@) =~= failed_of(ap, op));
            } else {
                assert(views_of(failed@) =~= failed_of(ap, op).push(
                    pair_views(actions@)[i as int].0,
                ));
            }
        }
        i = i + 1;
    }
    proof {
        assert(pair_views(actions@).subrange(0, pair_views(actions@).len() as int) =~= pair_views(
            actions@,
        ));
        assert(ok@.subrange(0, ok@.len() as int) =~= ok@);
    }
    SyncReport { attempted: actions.len(), failed }
}

/// Whether a synchronization pass succeeded: no copy failed.
pub fn sync_succeeded(r: &SyncReport) -> (b: bool)
    ensures
        b == (views_of(r.failed@).len() == 0),
{
    r.failed.len() == 0
}

// ------------------------------------------------------------------
// The mirror-store model and the laws of the pass.
// ------------------------------------------------------------------
/// Where a pair's mirror lives in a mirror store.
pub open spec fn mirror_key(p: (Seq<u8>, Language, Seq<u8>)) -> (Language, Seq<u8>) {
    (p.1, p.0)
}

/// A pair's mirror is present and holds the source content.
pub open spec fn pair_fresh(
    src: Map<Seq<u8>, Seq<u8>>,
    mirrors: Map<(Language, Seq<u8>), Seq<u8>>,
    p: (Seq<u8>, Language, Seq<u8>),
) -> bool {
    mirrors.contains_key(mirror_key(p)) && mirrors[mirror_key(p)] == src[p.0]
}

/// The freshness flags a caller reading the mirror store would report.
pub open spec fn fresh_flags(
    src: Map<Seq<u8>, Seq<u8>>,
    mirrors: Map<(Language, Seq<u8>), Seq<u8>>,
    pairs: Seq<(Seq<u8>, Language, Seq<u8>)>,
) -> Seq<bool> {
    pairs.map_values(|p: (Seq<u8>, Language, Seq<u8>)| pair_fresh(src, mirrors, p))
}

/// The mirror store after performing the planned copies in order.
pub open spec fn apply_copies(
    src: Map<Seq<u8>, Seq<u8>>,
    mirrors: Map<(Language, Seq<u8>), Seq<u8>>,
    actions: Seq<(Seq<u8>, Language, Seq<u8>)>,
) -> Map<(Language, Seq<u8>), Seq<u8>>
    decreases actions.len(),
{
    if actions.len() == 0 {
        mirrors
    } else {
        apply_copies(src, mirrors, actions.drop_last()).insert(
            mirror_key(actions.last()),
            src[actions.last().0],
        )
    }
}

/// The mirror store after one full synchronization pass over `pairs`:
/// the stale pairs are copied, the fresh ones left alone.
pub open spec fn after_pass(
    src: Map<Seq<u8>, Seq<u8>>,
    mirrors: Map<(Language, Seq<u8>), Seq<u8>>,
    pairs: Seq<(Seq<u8>, Language, Seq<u8>)>,
) -> Map<(Language, Seq<u8>), Seq<u8>> {
    apply_copies(src, mirrors, stale_of(pairs, fresh_flags(src, mirrors, pairs)))
}

/// What a run of copies does to the store: every key an action wrote
/// holds its source content, every other key is untouched.
pub proof fn lemma_apply_copies(
    src: Map<Seq<u8>, Seq<u8>>,
    mirrors: Map<(Language, Seq<u8>), Seq<u8>>,
    actions: Seq<(Seq<u8>, Language, Seq<u8>)>,
)
    ensures
        forall|i: int|
            0 <= i < actions.len() ==> apply_copies(src, mirrors, actions).contains_key(
                mirror_key(#[trigger] actions[i]),
            ) && apply_copies(src, mirrors, actions)[mirror_key(actions[i])] == src[actions[i].0],
        forall|k: (Language, Seq<u8>)|
            (forall|i: int| 0 <= i < actions.len() ==> mirror_key(#[trigger] actions[i]) != k) ==> (
            #[trigger] apply_copies(src, mirrors, actions).contains_key(k)
                == mirrors.contains_key(k) && (mirrors.contains_key(k) ==> apply_copies(
                src,
                mirrors,
                actions,
            )[k] == mirrors[k])),
    decreases actions.len(),
{
    if actions.len() == 0 {
    } else {
        let d = actions.drop_last();
        let last = actions.last();
        lemma_apply_copies(src, mirrors, d);
        let prev = apply_copies(src, mirrors, d);
        let cur = apply_copies(src, mirrors, actions);
        assert(cur == prev.insert(mirror_key(last), src[last.0]));
        assert forall|i: int| 0 <= i < actions.len() implies cur.contains_key(
            mirror_key(#[trigger] actions[i]),
        ) && cur[mirror_key(actions[i])] == src[actions[i].0] by {
            let k = mirror_key(actions[i]);
            if i == actions.len() - 1 {
                assert(cur.contains_key(k) && cur[k] == src[last.0]);
            } else {
                assert(actions[i] == d[i]);
                assert(prev.contains_key(k) && prev[k] == src[d[i].0]);
                if k == mirror_key(last) {
                    assert(cur[k] == src[last.0]);
                    assert(last.0 == k.1 && actions[i].0 == k.1);
                } else {
                    assert(cur.contains_key(k) && cur[k] == prev[k]);
                }
            }
        }
        assert forall|k: (Language, Seq<u8>)|
            (forall|i: int|
                0 <= i < actions.len() ==> mirror_key(#[trigger] actions[i])
                    != k) implies (#[trigger] apply_copies(src, mirrors, actions).contains_key(k)
            == mirrors.contains_key(k) && (mirrors.contains_key(k) ==> apply_copies(
            src,
            mirrors,
            actions,
        )[k] == mirrors[k])) by {
            assert(mirror_key(actions[actions.len() - 1]) != k);
            assert forall|i: int| 0 <= i < d.len() implies mirror_key(#[trigger] d[i]) != k by {
                assert(d[i] == actions[i]);
            }
            assert(prev.contains_key(k) == mirrors.contains_key(k));
            assert(mirrors.contains_key(k) ==> prev[k] == mirrors[k]);
            assert(mirror_key(last) != k);
            assert(cur.contains_key(k) == prev.contains_key(k));
            assert(prev.contains_key(k) ==> cur[k] == prev[k]);
        }
    }
}

/// A pair found stale is among the planned copies.
pub proof fn lemma_stale_membership(
    pairs: Seq<(Seq<u8>, Language, Seq<u8>)>,
    fresh: Seq<bool>,
    i: int,
)
    requires
        fresh.len() == pairs.len(),
        0 <= i < pairs.len(),
        !fresh[i],
    ensures
        exists|j: int|
            0 <= j < stale_of(pairs, fresh).len() && #[trigger] stale_of(pairs, fresh)[j]
                == pairs[i],
    decreases pairs.len(),
{
    let s = stale_of(pairs, fresh);
    if i == pairs.len() - 1 {
        assert(s.last() == pairs[i]);
        assert(s[s.len() - 1] == pairs[i]);
    } else {
        lemma_stale_membership(pairs.drop_last(), fresh.drop_last(), i);
        let d = stale_of(pairs.drop_last(), fresh.drop_last());
        let j = choose|j: int| 0 <= j < d.len() && #[trigger] d[j] == pairs.drop_last()[i];
        if fresh.last() {
            assert(s[j] == pairs[i]);
        } else {
            assert(s[j] == d[j]);
            assert(s[j] == pairs[i]);
        }
    }
}

/// After one full pass — every stale mirror copied — every pair of the
/// plan is fresh.
pub proof fn lemma_sync_makes_fresh(
    src: Map<Seq<u8>, Seq<u8>>,
    mirrors: Map<(Language, Seq<u8>), Seq<u8>>,
    pairs: Seq<(Seq<u8>, Language, Seq<u8>)>,
)
    ensures
        forall|i: int|
            0 <= i < pairs.len() ==> pair_fresh(
                src,
                apply_copies(src, mirrors, stale_of(pairs, fresh_flags(src, mirrors, pairs))),
                #[trigger] pairs[i],
            ),
{
    let flags = fresh_flags(src, mirrors, pairs);
    let acts = stale_of(pairs, flags);
    let after = apply_copies(src, mirrors, acts);
    lemma_apply_copies(src, mirrors, acts);
    assert forall|i: int| 0 <= i < pairs.len() implies pair_fresh(
        src,
        after,
        #[trigger] pairs[i],
    ) by {
        let p = pairs[i];
        let k = mirror_key(p);
        assert(flags[i] == pair_fresh(src, mirrors, p));
        if !flags[i] {
            lemma_stale_membership(pairs, flags, i);
            let j = choose|j: int| 0 <= j < acts.len() && #[trigger] acts[j] == p;
            assert(after.contains_key(mirror_key(acts[j])) && after[mirror_key(acts[j])]
                == src[acts[j].0]);
        } else {
            if exists|j: int| 0 <= j < acts.len() && mirror_key(#[trigger] acts[j]) == k {
                let j = choose|j: int| 0 <= j < acts.len() && mirror_key(#[trigger] acts[j]) == k;
                assert(after.contains_key(mirror_key(acts[j])) && after[mirror_key(acts[j])]
                    == src[acts[j].0]);
                assert(acts[j].0 == k.1 && p.0 == k.1);
            } else {
                assert(pair_fresh(src, mirrors, p));
                assert(forall|j: int| 0 <= j < acts.len() ==> mirror_key(#[trigger] acts[j]) != k);
            }
        }
    }
}

/// When every pair is fresh, the pass plans no copy at all.
pub proof fn lemma_all_fresh_no_actions(
    pairs: Seq<(Seq<u8>, Language, Seq<u8>)>,
    fresh: Seq<bool>,
)
    requires
        fresh.len() == pairs.len(),
        forall|i: int| 0 <= i < fresh.len() ==> fresh[i],
    ensures
        stale_of(pairs, fresh).len() == 0,
    decreases pairs.len(),
{
    if pairs.len() == 0 {
    } else {
        lemma_all_fresh_no_actions(pairs.drop_last(), fresh.drop_last());
        assert(fresh[fresh.len() - 1]);
    }
}

/// Every planned pair carries the language of some configured target
/// directory.
pub proof fn lemma_cross_languages(paths: Seq<Seq<u8>>, dirs: Seq<(Language, Seq<u8>)>)
    ensures
        forall|i: int|
            0 <= i < cross_of(paths, dirs).len() ==> crate::config::has_lang(
                dirs,
                #[trigger] cross_of(paths, dirs)[i].1,
            ),
    decreases paths.len(),
{
    if paths.len() == 0 {
    } else {
        let d = paths.drop_last();
        lemma_cross_languages(d, dirs);
        let c = cross_of(paths, dirs);
        let cd = cross_of(d, dirs);
        let row = row_of(paths.last(), dirs);
        assert forall|i: int| 0 <= i < c.len() implies crate::config::has_lang(
            dirs,
            #[trigger] c[i].1,
        ) by {
            if i < cd.len() {
                assert(c[i] == cd[i]);
            } else {
                assert(c[i] == row[i - cd.len()]);
                assert(c[i].1 == dirs[i - cd.len()].0);
            }
        }
    }
}

/// Every copy a pass plans is one of the planned pairs.
pub proof fn lemma_stale_elements(pairs: Seq<(Seq<u8>, Language, Seq<u8>)>, fresh: Seq<bool>)
    requires
        fresh.len() == pairs.len(),
    ensures
        forall|j: int|
            0 <= j < stale_of(pairs, fresh).len() ==> exists|i: int|
                0 <= i < pairs.len() && #[trigger] stale_of(pairs, fresh)[j] == pairs[i],
    decreases pairs.len(),
{
    if pairs.len() == 0 {
    } else {
        lemma_stale_elements(pairs.drop_last(), fresh.drop_last());
        let s = stale_of(pairs, fresh);
        let sd = stale_of(pairs.drop_last(), fresh.drop_last());
        assert forall|j: int| 0 <= j < s.len() implies exists|i: int|
            0 <= i < pairs.len() && #[trigger] s[j] == pairs[i] by {
            if j < sd.len() {
                assert(s[j] == sd[j]);
                let i = choose|i: int|
                    0 <= i < pairs.drop_last().len() && #[trigger] sd[j] == pairs.drop_last()[i];
                assert(s[j] == pairs[i]);
            } else {
                assert(s[j] == pairs.last());
                assert(s[j] == pairs[pairs.len() - 1]);
            }
        }
    }
}

/// Once a language has no target directory, a synchronization pass
/// plans no copy for it: every mirror under that language's directory
/// is left exactly as it was.
pub proof fn lemma_removed_language_mirrors_untouched(
    src: Map<Seq<u8>, Seq<u8>>,
    mirrors: Map<(Language, Seq<u8>), Seq<u8>>,
    paths: Seq<Seq<u8>>,
    dirs: Seq<(Language, Seq<u8>)>,
    l: Language,
)
    requires
        !crate::config::has_lang(dirs, l),
    ensures
        forall|rel: Seq<u8>|
            #[trigger] after_pass(src, mirrors, cross_of(paths, dirs)).contains_key((l, rel))
                == mirrors.contains_key((l, rel)),
        forall|rel: Seq<u8>|
            mirrors.contains_key((l, rel)) ==> #[trigger] after_pass(
                src,
                mirrors,
                cross_of(paths, dirs),
            )[(l, rel)] == mirrors[(l, rel)],
{
    let pairs = cross_of(paths, dirs);
    let flags = fresh_flags(src, mirrors, pairs);
    let acts = stale_of(pairs, flags);
    let after = apply_copies(src, mirrors, acts);
    lemma_cross_languages(paths, dirs);
    lemma_stale_elements(pairs, flags);
    lemma_apply_copies(src, mirrors, acts);
    assert forall|rel: Seq<u8>|
        after.contains_key((l, rel)) == mirrors.contains_key((l, rel)) && (mirrors.contains_key(
            (l, rel),
        ) ==> after[(l, rel)] == mirrors[(l, rel)]) by {
        let k = (l, rel);
        assert forall|j: int| 0 <= j < acts.len() implies mirror_key(#[trigger] acts[j]) != k by {
            let i = choose|i: int| 0 <= i < pairs.len() && acts[j] == pairs[i];
            assert(crate::config::has_lang(dirs, pairs[i].1));
            if pairs[i].1 == l {
                assert(crate::config::has_lang(dirs, l));
            }
        }
        assert(apply_copies(src, mirrors, acts).contains_key(k) == mirrors.contains_key(k));
        assert(mirrors.contains_key(k) ==> apply_copies(src, mirrors, acts)[k] == mirrors[k]);
    }
}

/// Idempotence of synchronization: with no intervening change to the
/// sources or the mirrors, a second pass right after a completed one
/// performs zero copies.
pub proof fn lemma_sync_idempotent(
    src: Map<Seq<u8>, Seq<u8>>,
    mirrors: Map<(Language, Seq<u8>), Seq<u8>>,
    pairs: Seq<(Seq<u8>, Language, Seq<u8>)>,
)
    ensures
        stale_of(pairs, fresh_flags(src, after_pass(src, mirrors, pairs), pairs)).len() == 0,
{
    let after = after_pass(src, mirrors, pairs);
    lemma_sync_makes_fresh(src, mirrors, pairs);
    let flags2 = fresh_flags(src, after, pairs);
    assert forall|i: int| 0 <= i < flags2.len() implies flags2[i] by {
        assert(pair_fresh(src, after, pairs[i]));
    }
    lemma_all_fresh_no_actions(pairs, flags2);
}

} // verus!
