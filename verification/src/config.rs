//! The project configuration: one optional source directory and the
//! ordered collection of target-language directories.
//!
//! Target languages are unique and always differ from the source
//! language.  The source directory is set at most once per project.

use vstd::prelude::*;

use crate::errors::ConfigError;
use crate::lang::{lang_code, spec_lang_code, Language};
use crate::relpath::copy_bytes;

verus! {

/// The directory the originals live in, and their language.
pub struct SourceDirectory {
    pub dir_name: Vec<u8>,
    pub language: Language,
}

/// One target-language directory.
pub struct LangDirectory {
    pub language: Language,
    pub dir_name: Vec<u8>,
}

impl View for LangDirectory {
    type V = (Language, Seq<u8>);

    open spec fn view(&self) -> (Language, Seq<u8>) {
        (self.language, self.dir_name@)
    }
}

/// The configuration of a project: its name, its source directory once
/// set, and its target-language directories in the order they were
/// added.
pub struct ProjectConfig {
    pub name: Vec<u8>,
    pub source: Option<SourceDirectory>,
    pub lang_dirs: Vec<LangDirectory>,
}

/// The language `l` is a configured target in `dirs`.
pub open spec fn has_lang(dirs: Seq<(Language, Seq<u8>)>, l: Language) -> bool {
    exists|i: int| 0 <= i < dirs.len() && dirs[i].0 == l
}

/// The index of the target directory for `l`.
pub open spec fn lang_index(dirs: Seq<(Language, Seq<u8>)>, l: Language) -> int {
    choose|i: int| 0 <= i < dirs.len() && dirs[i].0 == l
}

/// The languages of `dirs` are pairwise distinct.
pub open spec fn distinct_langs(dirs: Seq<(Language, Seq<u8>)>) -> bool {
    forall|i: int, j: int| 0 <= i < j < dirs.len() ==> dirs[i].0 != dirs[j].0
}

impl ProjectConfig {
    /// The target directories as language and directory-name pairs.
    pub open spec fn targets(&self) -> Seq<(Language, Seq<u8>)> {
        self.lang_dirs@.map_values(|d: LangDirectory| d@)
    }

    /// The source language, when the source directory is set.
    pub open spec fn source_lang(&self) -> Option<Language> {
        match self.source {
            Some(sd) => Some(sd.language),
            None => None,
        }
    }

    /// Target languages are pairwise distinct and never the source
    /// language.
    pub open spec fn wf(&self) -> bool {
        &&& distinct_langs(self.targets())
        &&& self.source is Some ==> forall|i: int|
            0 <= i < self.targets().len() ==> self.targets()[i].0 != self.source->Some_0.language
    }

    /// A fresh configuration: named, no source, no targets.
    pub fn new(name: Vec<u8>) -> (r: ProjectConfig)
        ensures
            r.wf(),
            r.name@ == name@,
            r.source is None,
            r.targets() == Seq::<(Language, Seq<u8>)>::empty(),
    {
        let r = ProjectConfig { name, source: None, lang_dirs: Vec::new() };
        proof {
            assert(r.targets() =~= Seq::<(Language, Seq<u8>)>::empty());
        }
        r
    }

    /// The index of the target directory for `l`, if `l` is configured.
    fn find_lang(&self, l: Language) -> (r: Option<usize>)
        ensures
            r is Some ==> 0 <= r->Some_0 < self.targets().len() && self.targets()[r->Some_0 as int].0
                == l,
            r is None ==> !has_lang(self.targets(), l),
    {
        let mut i: usize = 0;
        while i < self.lang_dirs.len()
            invariant
                i <= self.lang_dirs.len(),
                forall|j: int| 0 <= j < i ==> self.targets()[j].0 != l,
            decreases self.lang_dirs.len() - i,
        {
            if self.lang_dirs[i].language == l {
                return Some(i);
            }
            i = i + 1;
        }
        None
    }

    /// Whether `l` has a configured target directory.
    pub fn has_target(&self, l: Language) -> (r: bool)
        ensures
            r == has_lang(self.targets(), l),
    {
        self.find_lang(l).is_some()
    }

    /// The directory name configured for the target language `l`.
    pub fn target_dir_name(&self, l: Language) -> (r: Option<Vec<u8>>)
        requires
            self.wf(),
        ensures
            r is Some <==> has_lang(self.targets(), l),
            r is Some ==> r->Some_0@ == self.targets()[lang_index(self.targets(), l)].1,
    {
        match self.find_lang(l) {
            Some(i) => {
                proof {
                    lemma_lang_index_unique(self.targets(), l, i as int);
                }
                Some(copy_bytes(&self.lang_dirs[i].dir_name))
            },
            None => None,
        }
    }

    /// Set the source directory.  It can be set once: a second call is
    /// rejected with `SourceAlreadySet`, and a language that already
    /// has a target directory is rejected with `DuplicateLanguage`.
    /// On error nothing changes.
    pub fn set_source(&mut self, dir_name: Vec<u8>, language: Language) -> (r: Result<
        (),
        ConfigError,
    >)
        requires
            old(self).wf(),
        ensures
            final(self).wf(),
            old(self).source is Some ==> r == Err::<(), ConfigError>(ConfigError::SourceAlreadySet)
                && *final(self) == *old(self),
            old(self).source is None && has_lang(old(self).targets(), language) ==> r == Err::<
                (),
                ConfigError,
            >(ConfigError::DuplicateLanguage) && *final(self) == *old(self),
            old(self).source is None && !has_lang(old(self).targets(), language) ==> {
                &&& r == Ok::<(), ConfigError>(())
                &&& final(self).source is Some
                &&& final(self).source->Some_0.dir_name@ == dir_name@
                &&& final(self).source->Some_0.language == language
                &&& final(self).targets() == old(self).targets()
                &&& final(self).name@ == old(self).name@
            },
    {
        if self.source.is_some() {
            return Err(ConfigError::SourceAlreadySet);
        }
        if self.has_target(language) {
            return Err(ConfigError::DuplicateLanguage);
        }
        self.source = Some(SourceDirectory { dir_name, language });
        Ok(())
    }

    /// Add a target language.  A language equal to the source language
    /// or to an existing target is rejected with `DuplicateLanguage`
    /// and nothing changes; otherwise a directory named after the
    /// language code is appended.
    pub fn add_lang(&mut self, language: Language) -> (r: Result<(), ConfigError>)
        requires
            old(self).wf(),
        ensures
            final(self).wf(),
            final(self).source == old(self).source,
            final(self).name@ == old(self).name@,
            r is Err <==> old(self).source_lang() == Some(language) || has_lang(
                old(self).targets(),
                language,
            ),
            r is Err ==> r == Err::<(), ConfigError>(ConfigError::DuplicateLanguage) && *final(self)
                == *old(self),
            r is Ok ==> final(self).targets() == old(self).targets().push(
                (language, spec_lang_code(language)),
            ),
            r is Ok ==> forall|l: Language|
                has_lang(final(self).targets(), l) <==> (has_lang(old(self).targets(), l) || l
                    == language),
    {
        match self.source {
            Some(ref sd) => {
                if sd.language == language {
                    return Err(ConfigError::DuplicateLanguage);
                }
            },
            None => {},
        }
        if self.has_target(language) {
            return Err(ConfigError::DuplicateLanguage);
        }
        let ghost t0 = self.targets();
        let dir_name = lang_code(language);
        self.lang_dirs.push(LangDirectory { language, dir_name });
        proof {
            assert(self.targets() =~= t0.push((language, spec_lang_code(language))));
            assert forall|l: Language| has_lang(self.targets(), l) implies (has_lang(t0, l) || l
                == language) by {
                let i = choose|i: int| 0 <= i < self.targets().len() && self.targets()[i].0 == l;
                if i < t0.len() {
                    assert(t0[i].0 == l);
                }
            }
            assert forall|l: Language| (has_lang(t0, l) || l == language) implies has_lang(
                self.targets(),
                l,
            ) by {
                if has_lang(t0, l) {
                    let i = choose|i: int| 0 <= i < t0.len() && t0[i].0 == l;
                    assert(self.targets()[i].0 == l);
                } else {
                    assert(self.targets()[t0.len() as int].0 == l);
                }
            }
        }
        Ok(())
    }

    /// Remove a target language.  An absent language is rejected with
    /// `LanguageNotFound` and nothing changes; otherwise its entry
    /// leaves the collection and the other targets keep their order.
    /// Nothing else is touched: in particular no mirrored file under
    /// the removed directory is deleted.
    pub fn remove_lang(&mut self, language: Language) -> (r: Result<(), ConfigError>)
        requires
            old(self).wf(),
        ensures
            final(self).wf(),
            final(self).source == old(self).source,
            final(self).name@ == old(self).name@,
            r is Err <==> !has_lang(old(self).targets(), language),
            r is Err ==> r == Err::<(), ConfigError>(ConfigError::LanguageNotFound) && *final(self)
                == *old(self),
            r is Ok ==> final(self).targets() == old(self).targets().remove(
                lang_index(old(self).targets(), language),
            ),
            r is Ok ==> forall|l: Language|
                has_lang(final(self).targets(), l) <==> (has_lang(old(self).targets(), l) && l
                    != language),
    {
        let ghost t0 = self.targets();
        match self.find_lang(language) {
            Some(i) => {
                proof {
                    lemma_lang_index_unique(t0, language, i as int);
                }
                self.lang_dirs.remove(i);
                proof {
                    assert(self.targets() =~= t0.remove(lang_index(t0, language)));
                    lemma_remove_lang_membership(t0, i as int);
                }
                Ok(())
            },
            None => Err(ConfigError::LanguageNotFound),
        }
    }
}

/// In a well-formed configuration the target for a language is unique,
/// so any index holding `l` is the one `lang_index` picks.
pub proof fn lemma_lang_index_unique(dirs: Seq<(Language, Seq<u8>)>, l: Language, i: int)
    requires
        distinct_langs(dirs),
        0 <= i < dirs.len(),
        dirs[i].0 == l,
    ensures
        has_lang(dirs, l),
        lang_index(dirs, l) == i,
{
    assert(has_lang(dirs, l));
    let j = lang_index(dirs, l);
    if i < j {
        assert(dirs[i].0 != dirs[j].0);
    } else if j < i {
        assert(dirs[j].0 != dirs[i].0);
    }
}

/// Removing one target keeps the languages pairwise distinct, and the
/// removed language is exactly the one that loses membership.
pub proof fn lemma_remove_lang_membership(dirs: Seq<(Language, Seq<u8>)>, i: int)
    requires
        distinct_langs(dirs),
        0 <= i < dirs.len(),
    ensures
        distinct_langs(dirs.remove(i)),
        forall|l: Language|
            has_lang(dirs.remove(i), l) <==> (has_lang(dirs, l) && l != dirs[i].0),
{
    let d1 = dirs.remove(i);
    assert forall|a: int, b: int| 0 <= a < b < d1.len() implies d1[a].0 != d1[b].0 by {
        let a0 = if a < i {
            a
        } else {
            a + 1
        };
        let b0 = if b < i {
            b
        } else {
            b + 1
        };
        assert(d1[a] == dirs[a0]);
        assert(d1[b] == dirs[b0]);
        assert(dirs[a0].0 != dirs[b0].0);
    }
    assert forall|l: Language| has_lang(d1, l) implies (has_lang(dirs, l) && l != dirs[i].0) by {
        let a = choose|a: int| 0 <= a < d1.len() && d1[a].0 == l;
        let a0 = if a < i {
            a
        } else {
            a + 1
        };
        assert(d1[a] == dirs[a0]);
        assert(dirs[a0].0 == l);
        if a0 < i {
            assert(dirs[a0].0 != dirs[i].0);
        } else {
            assert(dirs[i].0 != dirs[a0].0);
        }
    }
    assert forall|l: Language| (has_lang(dirs, l) && l != dirs[i].0) implies has_lang(d1, l) by {
        let a0 = choose|a0: int| 0 <= a0 < dirs.len() && dirs[a0].0 == l;
        if a0 < i {
            assert(d1[a0].0 == l);
        } else {
            assert(a0 != i);
            assert(d1[a0 - 1].0 == l);
        }
    }
}

} // verus!
