//! A directory-translation project engine.
//!
//! A project pairs one source directory, written in a single source
//! language, with any number of target-language directories that mirror
//! its structure.  The engine tracks which source files are eligible for
//! translation (the manifest), keeps the set of target-language
//! directories consistent, resolves glob and literal file patterns,
//! plans the mirroring of untranslatable files, and plans translation
//! submissions.  All filesystem effects and provider calls are driven by
//! the caller from the plans and reports computed here.

pub mod config;
pub mod errors;
pub mod lang;
pub mod manifest;
pub mod matcher;
pub mod project;
pub mod relpath;
pub mod sync;
pub mod translate;

use vstd::prelude::*;

verus! {

/// The status a file in the manifest is tagged with.
#[derive(Clone, Copy, Debug, PartialEq, Eq, Structural)]
pub enum FileStatus {
    Translatable,
    Untranslatable,
}

} // verus!
