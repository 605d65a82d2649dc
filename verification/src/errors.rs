//! The errors the engine's operations report.

use vstd::prelude::*;

verus! {

/// Failures of the language-directory configuration.
#[derive(Clone, Copy, Debug, PartialEq, Eq, Structural)]
pub enum ConfigError {
    /// The source directory was already set; it is set at most once.
    SourceAlreadySet,
    /// The language is the source language or an existing target.
    DuplicateLanguage,
    /// The language is not a configured target.
    LanguageNotFound,
}

/// Failures of marking a file in the manifest.
#[derive(Clone, Copy, Debug, PartialEq, Eq, Structural)]
pub enum MarkError {
    /// The project has no source directory yet.
    NoSourceDirectory,
    /// The path does not lie under the source directory.
    NotInSourceDirectory,
    /// The path lies under the source directory but no file is there.
    FileNotFound,
}

/// Failures that stop a translation submission before the provider is
/// asked anything.
#[derive(Clone, Copy, Debug, PartialEq, Eq, Structural)]
pub enum TranslateError {
    /// No provider credentials are configured; nothing is attempted.
    AuthMissing,
    /// The project has no source directory yet.
    NoSourceDirectory,
    /// The requested target language has no configured directory.
    UnknownTargetLanguage,
    /// The file is not a translatable manifest entry.
    NotTranslatable,
}

/// What the external translation provider reported for one file.
#[derive(Clone, Copy, Debug, PartialEq, Eq, Structural)]
pub enum ProviderOutcome {
    /// The translated content came back and was written.
    Done,
    /// A transient provider error; the caller may retry later.
    Transient,
    /// A permanent provider error for this file.
    Permanent,
    /// The result could not be written to the target directory.
    WriteFailed,
}

} // verus!
