//! The project aggregate: one configuration and one manifest.
//!
//! The project is the sole authority over both.  Operations on the
//! manifest are meaningful only once a source directory is set, and
//! fail fast before that point.  Filesystem facts the engine needs —
//! whether a file exists — are passed in as plain values, so every
//! decision here is checked for any state of the disk.

use vstd::prelude::*;

use crate::config::ProjectConfig;
use crate::errors::{ConfigError, MarkError};
use crate::lang::Language;
use crate::manifest::{kept_of, spec_mark, translatable_of, views_of, Manifest};
use crate::relpath::{is_under, rel_of, strip_dir};
use crate::FileStatus;

verus! {

/// A directory-translation project.
pub struct Project {
    pub config: ProjectConfig,
    pub manifest: Manifest,
}

impl Project {
    /// Both halves of the project are well formed.
    pub open spec fn wf(&self) -> bool {
        &&& self.config.wf()
        &&& self.manifest.wf()
    }

    /// A fresh project: named, no source directory, no targets, an
    /// empty manifest.
    pub fn init(name: Vec<u8>) -> (r: Project)
        ensures
            r.wf(),
            r.config.name@ == name@,
            r.config.source is None,
            r.config.targets() == Seq::<(Language, Seq<u8>)>::empty(),
            r.manifest@ == Seq::<(Seq<u8>, FileStatus)>::empty(),
    {
        Project { config: ProjectConfig::new(name), manifest: Manifest::new() }
    }

    /// Set the source directory; see `ProjectConfig::set_source`.
    /// The manifest is untouched.
    pub fn set_source_dir(&mut self, dir_name: Vec<u8>, language: Language) -> (r: Result<
        (),
        ConfigError,
    >)
        requires
            old(self).wf(),
        ensures
            final(self).wf(),
            final(self).manifest == old(self).manifest,
            old(self).config.source is Some ==> r == Err::<(), ConfigError>(
                ConfigError::SourceAlreadySet,
            ) && final(self).config == old(self).config,
            old(self).config.source is None && crate::config::has_lang(
                old(self).config.targets(),
                language,
            ) ==> r == Err::<(), ConfigError>(ConfigError::DuplicateLanguage) && final(self).config
                == old(self).config,
            old(self).config.source is None && !crate::config::has_lang(
                old(self).config.targets(),
                language,
            ) ==> {
                &&& r == Ok::<(), ConfigError>(())
                &&& final(self).config.source is Some
                &&& final(self).config.source->Some_0.dir_name@ == dir_name@
                &&& final(self).config.source->Some_0.language == language
                &&& final(self).config.targets() == old(self).config.targets()
                &&& final(self).config.name@ == old(self).config.name@
            },
    {
        self.config.set_source(dir_name, language)
    }

    /// Add a target language; see `ProjectConfig::add_lang`.  The
    /// manifest is untouched.
    pub fn add_lang(&mut self, language: Language) -> (r: Result<(), ConfigError>)
        requires
            old(self).wf(),
        ensures
            final(self).wf(),
            final(self).manifest == old(self).manifest,
            final(self).config.source == old(self).config.source,
            r is Err <==> old(self).config.source_lang() == Some(language)
                || crate::config::has_lang(old(self).config.targets(), language),
            r is Err ==> r == Err::<(), ConfigError>(ConfigError::DuplicateLanguage) && final(self).config == old(self).config,
            r is Ok ==> final(self).config.targets() == old(self).config.targets().push(
                (language, crate::lang::spec_lang_code(language)),
            ),
            r is Ok ==> forall|l: Language|
                crate::config::has_lang(final(self).config.targets(), l) <==> (
                crate::config::has_lang(old(self).config.targets(), l) || l == language),
    {
        self.config.add_lang(language)
    }

    /// Remove a target language; see `ProjectConfig::remove_lang`.
    /// Neither the manifest nor anything on disk is touched: mirrored
    /// files under the removed directory stay where they are.
    pub fn remove_lang(&mut self, language: Language) -> (r: Result<(), ConfigError>)
        requires
            old(self).wf(),
        ensures
            final(self).wf(),
            final(self).manifest == old(self).manifest,
            final(self).config.source == old(self).config.source,
            r is Err <==> !crate::config::has_lang(old(self).config.targets(), language),
            r is Err ==> r == Err::<(), ConfigError>(ConfigError::LanguageNotFound) && final(self).config == old(self).config,
            r is Ok ==> final(self).config.targets() == old(self).config.targets().remove(
                crate::config::lang_index(old(self).config.targets(), language),
            ),
            r is Ok ==> forall|l: Language|
                crate::config::has_lang(final(self).config.targets(), l) <==> (
                crate::config::has_lang(old(self).config.targets(), l) && l != language),
    {
        self.config.remove_lang(language)
    }

    /// Tag a file in the manifest.  The path must lie under the source
    /// directory and the file must exist on disk — the caller reports
    /// existence in `file_exists`.  On any error nothing changes.
    pub fn mark_file(&mut self, path: &Vec<u8>, status: FileStatus, file_exists: bool) -> (r:
        Result<(), MarkError>)
        requires
            old(self).wf(),
        ensures
            final(self).wf(),
            final(self).config == old(self).config,
            old(self).config.source is None ==> r == Err::<(), MarkError>(
                MarkError::NoSourceDirectory,
            ) && final(self).manifest == old(self).manifest,
            old(self).config.source is Some && !is_under(
                old(self).config.source->Some_0.dir_name@,
                path@,
            ) ==> r == Err::<(), MarkError>(MarkError::NotInSourceDirectory) && final(self).manifest
                == old(self).manifest,
            old(self).config.source is Some && is_under(
                old(self).config.source->Some_0.dir_name@,
                path@,
            ) && !file_exists ==> r == Err::<(), MarkError>(MarkError::FileNotFound) && final(self).manifest == old(self).manifest,
            old(self).config.source is Some && is_under(
                old(self).config.source->Some_0.dir_name@,
                path@,
            ) && file_exists ==> r == Ok::<(), MarkError>(()) && final(self).manifest@ == spec_mark(
                old(self).manifest@,
                rel_of(old(self).config.source->Some_0.dir_name@, path@),
                status,
            ),
    {
        let rel = match self.config.source {
            None => {
                return Err(MarkError::NoSourceDirectory);
            },
            Some(ref sd) => {
                match strip_dir(&sd.dir_name, path) {
                    None => {
                        return Err(MarkError::NotInSourceDirectory);
                    },
                    Some(rel) => rel,
                }
            },
        };
        if !file_exists {
            return Err(MarkError::FileNotFound);
        }
        self.manifest.mark(rel, status);
        Ok(())
    }

    /// Tag a file translatable; see `mark_file`.
    pub fn make_translatable_file(&mut self, path: &Vec<u8>, file_exists: bool) -> (r: Result<
        (),
        MarkError,
    >)
        requires
            old(self).wf(),
        ensures
            final(self).wf(),
            final(self).config == old(self).config,
            crate::project::mark_result(*old(self), *final(self), path@, FileStatus::Translatable, file_exists, r),
    {
        self.mark_file(path, FileStatus::Translatable, file_exists)
    }

    /// Tag a file untranslatable; see `mark_file`.
    pub fn make_untranslatable_file(&mut self, path: &Vec<u8>, file_exists: bool) -> (r: Result<
        (),
        MarkError,
    >)
        requires
            old(self).wf(),
        ensures
            final(self).wf(),
            final(self).config == old(self).config,
            crate::project::mark_result(*old(self), *final(self), path@, FileStatus::Untranslatable, file_exists, r),
    {
        self.mark_file(path, FileStatus::Untranslatable, file_exists)
    }

    /// The translatable relative paths, in insertion order.  Fails
    /// when no source directory is set, since the manifest is only
    /// meaningful after that point.
    pub fn get_translatable_files(&self) -> (r: Result<Vec<Vec<u8>>, MarkError>)
        requires
            self.wf(),
        ensures
            r is Ok <==> self.config.source is Some,
            r is Err ==> r == Err::<Vec<Vec<u8>>, MarkError>(MarkError::NoSourceDirectory),
            r is Ok ==> views_of(r->Ok_0@) == translatable_of(self.manifest@),
    {
        if self.config.source.is_none() {
            return Err(MarkError::NoSourceDirectory);
        }
        Ok(self.manifest.list_translatable())
    }

    /// Prune manifest entries whose source file no longer exists; the
    /// flags are aligned with the manifest's entries.  Invoked during
    /// synchronization, not by direct caller action.
    pub fn prune_missing(&mut self, exists: &Vec<bool>)
        requires
            old(self).wf(),
            exists@.len() == old(self).manifest@.len(),
        ensures
            final(self).wf(),
            final(self).config == old(self).config,
            final(self).manifest@ == kept_of(old(self).manifest@, exists@),
    {
        self.manifest.retain_existing(exists)
    }
}

/// How a marking call relates the old and new project: exactly one of
/// the four outcomes, decided by the configuration, the path and the
/// file's existence.
pub open spec fn mark_result(
    before: Project,
    after: Project,
    path: Seq<u8>,
    status: FileStatus,
    file_exists: bool,
    r: Result<(), MarkError>,
) -> bool {
    match before.config.source {
        None => r == Err::<(), MarkError>(MarkError::NoSourceDirectory) && after.manifest
            == before.manifest,
        Some(sd) => {
            if !is_under(sd.dir_name@, path) {
                r == Err::<(), MarkError>(MarkError::NotInSourceDirectory) && after.manifest
                    == before.manifest
            } else if !file_exists {
                r == Err::<(), MarkError>(MarkError::FileNotFound) && after.manifest
                    == before.manifest
            } else {
                r == Ok::<(), MarkError>(()) && after.manifest@ == spec_mark(
                    before.manifest@,
                    rel_of(sd.dir_name@, path),
                    status,
                )
            }
        },
    }
}

/// The running tally of one bulk marking action: an explicit
/// accumulator the caller can render after the pass.
pub struct BulkTally {
    pub successes: usize,
    pub errors: usize,
    pub no_match: Vec<Vec<u8>>,
}

impl BulkTally {
    /// A tally with nothing recorded yet.
    pub fn new() -> (r: BulkTally)
        ensures
            r.successes == 0,
            r.errors == 0,
            r.no_match@ == Seq::<Vec<u8>>::empty(),
    {
        let r = BulkTally { successes: 0, errors: 0, no_match: Vec::new() };
        proof {
            assert(r.no_match@ =~= Seq::<Vec<u8>>::empty());
        }
        r
    }

    /// One more file marked successfully.
    pub fn record_success(&mut self)
        requires
            old(self).successes < usize::MAX,
        ensures
            final(self).successes == old(self).successes + 1,
            final(self).errors == old(self).errors,
            final(self).no_match == old(self).no_match,
    {
        self.successes = self.successes + 1;
    }

    /// One more per-file or per-pattern error.
    pub fn record_error(&mut self)
        requires
            old(self).errors < usize::MAX,
        ensures
            final(self).errors == old(self).errors + 1,
            final(self).successes == old(self).successes,
            final(self).no_match == old(self).no_match,
    {
        self.errors = self.errors + 1;
    }

    /// Several errors at once, as when matched entries were unreadable.
    pub fn record_errors(&mut self, n: usize)
        requires
            old(self).errors + n <= usize::MAX,
        ensures
            final(self).errors == old(self).errors + n,
            final(self).successes == old(self).successes,
            final(self).no_match == old(self).no_match,
    {
        self.errors = self.errors + n;
    }

    /// A pattern that matched nothing and was not retried as a literal.
    pub fn record_no_match(&mut self, pattern: Vec<u8>)
        ensures
            final(self).no_match@ == old(self).no_match@.push(pattern),
            final(self).successes == old(self).successes,
            final(self).errors == old(self).errors,
    {
        self.no_match.push(pattern);
    }

    /// Whether the bulk action failed for any item.
    pub fn any_errors(&self) -> (r: bool)
        ensures
            r == (self.errors > 0),
    {
        self.errors > 0
    }
}

} // verus!
