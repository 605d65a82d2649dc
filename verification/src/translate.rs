//! The translation submission pipeline.
//!
//! A submission is planned here and carried out by the caller, which
//! owns the provider connection.  Credentials are checked once, before
//! any file is considered; without them nothing is attempted.  A
//! single file's failure never aborts the remaining submissions: the
//! caller reports every outcome back and the aggregate tally lists the
//! failing paths.

use vstd::prelude::*;

use crate::errors::{ProviderOutcome, TranslateError};
use crate::lang::Language;
use crate::manifest::{has_path, status_of, translatable_of, views_of};
use crate::project::Project;
use crate::relpath::{copy_bytes, is_under, rel_of, strip_dir};

verus! {

/// The manifest path a translate request refers to: a path under the
/// source directory is taken relative to it, anything else is treated
/// as already relative.
pub open spec fn request_rel(src_dir: Seq<u8>, path: Seq<u8>) -> Seq<u8> {
    if is_under(src_dir, path) {
        rel_of(src_dir, path)
    } else {
        path
    }
}

impl Project {
    /// Plan the submission of one file to `target`.  Credentials are
    /// checked first; then the target language must have a directory
    /// and the file must be a translatable manifest entry.  On success
    /// the submission is the file's relative path.
    pub fn plan_translate_file(&self, path: &Vec<u8>, target: Language, has_credentials: bool) -> (r:
        Result<Vec<u8>, TranslateError>)
        requires
            self.wf(),
        ensures
            !has_credentials ==> r == Err::<Vec<u8>, TranslateError>(TranslateError::AuthMissing),
            has_credentials && self.config.source is None ==> r == Err::<Vec<u8>, TranslateError>(
                TranslateError::NoSourceDirectory,
            ),
            has_credentials && self.config.source is Some && !crate::config::has_lang(
                self.config.targets(),
                target,
            ) ==> r == Err::<Vec<u8>, TranslateError>(TranslateError::UnknownTargetLanguage),
            has_credentials && self.config.source is Some && crate::config::has_lang(
                self.config.targets(),
                target,
            ) ==> {
                let rel = request_rel(self.config.source->Some_0.dir_name@, path@);
                if has_path(self.manifest@, rel) && status_of(self.manifest@, rel)
                    is Translatable {
                    r is Ok && r->Ok_0@ == rel
                } else {
                    r == Err::<Vec<u8>, TranslateError>(TranslateError::NotTranslatable)
                }
            },
    {
        if !has_credentials {
            return Err(TranslateError::AuthMissing);
        }
        let rel = match self.config.source {
            None => {
                return Err(TranslateError::NoSourceDirectory);
            },
            Some(ref sd) => {
                match strip_dir(&sd.dir_name, path) {
                    Some(rel) => rel,
                    None => copy_bytes(path),
                }
            },
        };
        if !self.config.has_target(target) {
            return Err(TranslateError::UnknownTargetLanguage);
        }
        match self.manifest.status(&rel) {
            Some(st) => {
                if matches!(st, crate::FileStatus::Translatable) {
                    Ok(rel)
                } else {
                    Err(TranslateError::NotTranslatable)
                }
            },
            None => Err(TranslateError::NotTranslatable),
        }
    }

    /// Plan the submission of every translatable file to `target`, in
    /// the manifest's insertion order.  Credentials are checked once,
    /// before any file is considered; without them, or without a
    /// source directory or a directory for `target`, no file is
    /// submitted at all.
    pub fn plan_translate_all(&self, target: Language, has_credentials: bool) -> (r: Result<
        Vec<Vec<u8>>,
        TranslateError,
    >)
        requires
            self.wf(),
        ensures
            !has_credentials ==> r == Err::<Vec<Vec<u8>>, TranslateError>(
                TranslateError::AuthMissing,
            ),
            has_credentials && self.config.source is None ==> r == Err::<
                Vec<Vec<u8>>,
                TranslateError,
            >(TranslateError::NoSourceDirectory),
            has_credentials && self.config.source is Some && !crate::config::has_lang(
                self.config.targets(),
                target,
            ) ==> r == Err::<Vec<Vec<u8>>, TranslateError>(TranslateError::UnknownTargetLanguage),
            has_credentials && self.config.source is Some && crate::config::has_lang(
                self.config.targets(),
                target,
            ) ==> r is Ok && views_of(r->Ok_0@) == translatable_of(self.manifest@),
    {
        if !has_credentials {
            return Err(TranslateError::AuthMissing);
        }
        if self.config.source.is_none() {
            return Err(TranslateError::NoSourceDirectory);
        }
        if !self.config.has_target(target) {
            return Err(TranslateError::UnknownTargetLanguage);
        }
        Ok(self.manifest.list_translatable())
    }
}

/// How many submissions came back translated.
pub open spec fn done_count_of(os: Seq<ProviderOutcome>) -> nat
    decreases os.len(),
{
    if os.len() == 0 {
        0
    } else {
        done_count_of(os.drop_last()) + (if os.last() is Done {
            1nat
        } else {
            0nat
        })
    }
}

/// The submissions that failed, in submission order.
pub open spec fn failed_paths_of(planned: Seq<Seq<u8>>, os: Seq<ProviderOutcome>) -> Seq<Seq<u8>>
    decreases planned.len(),
{
    if planned.len() == 0 {
        Seq::empty()
    } else {
        let rest = failed_paths_of(planned.drop_last(), os.drop_last());
        if os.last() is Done {
            rest
        } else {
            rest.push(planned.last())
        }
    }
}

/// The aggregate result of a bulk submission: how many files
/// succeeded, how many failed, and which.
pub struct TranslateReport {
    pub successes: usize,
    pub failures: usize,
    pub failed: Vec<Vec<u8>>,
}

/// Aggregate the per-file outcomes of a bulk submission.  Every
/// planned file has exactly one outcome, so the tally always adds up
/// to the number of planned files, however many failed.
pub fn translate_report(planned: &Vec<Vec<u8>>, outcomes: &Vec<ProviderOutcome>) -> (r:
    TranslateReport)
    requires
        outcomes@.len() == planned@.len(),
    ensures
        r.successes == done_count_of(outcomes@),
        r.successes + r.failures == planned@.len(),
        views_of(r.failed@) == failed_paths_of(views_of(planned@), outcomes@),
        r.failed@.len() == r.failures,
{
    let mut successes: usize = 0;
    let mut failed: Vec<Vec<u8>> = Vec::new();
    let mut i: usize = 0;
    while i < planned.len()
        invariant
            i <= planned.len(),
            outcomes@.len() == planned@.len(),
            successes == done_count_of(outcomes@.subrange(0, i as int)),
            successes + failed@.len() == i,
            views_of(failed@) == failed_paths_of(
                views_of(planned@).subrange(0, i as int),
                outcomes@.subrange(0, i as int),
            ),
        decreases planned.len() - i,
    {
        let ghost pp = views_of(planned@).subrange(0, i as int);
        let ghost op = outcomes@.subrange(0, i as int);
        if matches!(outcomes[i], ProviderOutcome::Done) {
            successes = successes + 1;
        } else {
            let path = copy_bytes(&planned[i]);
            failed.push(path);
        }
        proof {
            let pn = views_of(planned@).subrange(0, i + 1 as int);
            let on = outcomes@.subrange(0, i + 1 as int);
            assert(pn.drop_last() =~= pp);
            assert(on.drop_last() =~= op);
            assert(pn.last() == views_of(planned@)[i as int]);
            assert(on.last() == outcomes@[i as int]);
            if outcomes@[i as int] is Done {
                assert(views_of(failed@) =~= failed_paths_of(pp, op));
            } else {
                assert(views_of(failed@) =~= failed_paths_of(pp, op).push(
                    views_of(planned@)[i as int],
                ));
            }
        }
        i = i + 1;
    }
    proof {
        assert(views_of(planned@).subrange(0, views_of(planned@).len() as int) =~= views_of(
            planned@,
        ));
        assert(outcomes@.subrange(0, outcomes@.len() as int) =~= outcomes@);
    }
    TranslateReport { successes, failures: failed.len(), failed }
}

/// Every submission is accounted for: the tally's two counts always
/// sum to the number of planned files, and a file is listed among the
/// failures exactly when its outcome was not a completed translation.
pub proof fn lemma_report_accounts_for_all(planned: Seq<Seq<u8>>, os: Seq<ProviderOutcome>)
    requires
        os.len() == planned.len(),
    ensures
        done_count_of(os) + failed_paths_of(planned, os).len() == planned.len(),
    decreases planned.len(),
{
    if planned.len() == 0 {
    } else {
        lemma_report_accounts_for_all(planned.drop_last(), os.drop_last());
    }
}

} // verus!
