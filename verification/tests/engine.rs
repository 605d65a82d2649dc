//! Manifest and language-set behaviour through the public engine API.

use translate_dir::errors::{ConfigError, MarkError};
use translate_dir::lang::{lang_code, Language};
use translate_dir::project::Project;
use translate_dir::FileStatus;

fn b(s: &str) -> Vec<u8> {
    s.as_bytes().to_vec()
}

fn project_with_source() -> Project {
    let mut p = Project::init(b("demo"));
    p.set_source_dir(b("src_en"), Language::English).unwrap();
    p
}

#[test]
fn mark_then_list_contains_exactly_once() {
    let mut p = project_with_source();
    p.mark_file(&b("src_en/a.txt"), FileStatus::Translatable, true)
        .unwrap();
    p.mark_file(&b("src_en/b.txt"), FileStatus::Translatable, true)
        .unwrap();
    let files = p.get_translatable_files().unwrap();
    let hits = files.iter().filter(|f| **f == b("a.txt")).count();
    assert_eq!(hits, 1);
    assert_eq!(files, vec![b("a.txt"), b("b.txt")]);
}

#[test]
fn remark_same_status_is_noop() {
    let mut p = project_with_source();
    p.mark_file(&b("src_en/a.txt"), FileStatus::Translatable, true)
        .unwrap();
    p.mark_file(&b("src_en/a.txt"), FileStatus::Translatable, true)
        .unwrap();
    assert_eq!(p.manifest.len(), 1);
    assert_eq!(p.get_translatable_files().unwrap(), vec![b("a.txt")]);
}

#[test]
fn remark_other_status_updates_without_duplicate() {
    let mut p = project_with_source();
    p.mark_file(&b("src_en/a.txt"), FileStatus::Translatable, true)
        .unwrap();
    assert_eq!(p.manifest.len(), 1);
    p.mark_file(&b("src_en/a.txt"), FileStatus::Untranslatable, true)
        .unwrap();
    assert_eq!(p.manifest.len(), 1);
    assert_eq!(
        p.manifest.status(&b("a.txt")),
        Some(FileStatus::Untranslatable)
    );
    assert!(p.get_translatable_files().unwrap().is_empty());
}

#[test]
fn mark_requires_source_directory() {
    let mut p = Project::init(b("demo"));
    let r = p.mark_file(&b("src_en/a.txt"), FileStatus::Translatable, true);
    assert_eq!(r, Err(MarkError::NoSourceDirectory));
}

#[test]
fn mark_rejects_path_outside_source() {
    let mut p = project_with_source();
    let r = p.mark_file(&b("elsewhere/a.txt"), FileStatus::Translatable, true);
    assert_eq!(r, Err(MarkError::NotInSourceDirectory));
    let r2 = p.mark_file(&b("src_en"), FileStatus::Translatable, true);
    assert_eq!(r2, Err(MarkError::NotInSourceDirectory));
}

#[test]
fn mark_rejects_missing_file() {
    let mut p = project_with_source();
    let r = p.mark_file(&b("src_en/ghost.txt"), FileStatus::Translatable, false);
    assert_eq!(r, Err(MarkError::FileNotFound));
    assert_eq!(p.manifest.len(), 0);
}

#[test]
fn list_translatable_requires_source() {
    let p = Project::init(b("demo"));
    assert_eq!(
        p.get_translatable_files(),
        Err(MarkError::NoSourceDirectory)
    );
}

#[test]
fn list_translatable_keeps_insertion_order() {
    let mut p = project_with_source();
    p.make_translatable_file(&b("src_en/z.txt"), true).unwrap();
    p.make_untranslatable_file(&b("src_en/m.bin"), true).unwrap();
    p.make_translatable_file(&b("src_en/a.txt"), true).unwrap();
    assert_eq!(
        p.get_translatable_files().unwrap(),
        vec![b("z.txt"), b("a.txt")]
    );
}

#[test]
fn set_source_twice_rejected() {
    let mut p = project_with_source();
    let r = p.set_source_dir(b("other"), Language::French);
    assert_eq!(r, Err(ConfigError::SourceAlreadySet));
    assert_eq!(p.config.source.as_ref().unwrap().dir_name, b("src_en"));
}

#[test]
fn add_source_language_rejected() {
    let mut p = project_with_source();
    let r = p.add_lang(Language::English);
    assert_eq!(r, Err(ConfigError::DuplicateLanguage));
    assert!(p.config.lang_dirs.is_empty());
}

#[test]
fn add_existing_target_rejected() {
    let mut p = project_with_source();
    p.add_lang(Language::French).unwrap();
    let r = p.add_lang(Language::French);
    assert_eq!(r, Err(ConfigError::DuplicateLanguage));
    assert_eq!(p.config.lang_dirs.len(), 1);
}

#[test]
fn target_membership_is_adds_minus_removes() {
    let mut p = project_with_source();
    p.add_lang(Language::French).unwrap();
    p.add_lang(Language::German).unwrap();
    p.add_lang(Language::Japanese).unwrap();
    p.remove_lang(Language::German).unwrap();
    let langs: Vec<Language> = p.config.lang_dirs.iter().map(|d| d.language).collect();
    assert_eq!(langs, vec![Language::French, Language::Japanese]);
    assert!(p.config.has_target(Language::French));
    assert!(!p.config.has_target(Language::German));
}

#[test]
fn remove_absent_language_rejected() {
    let mut p = project_with_source();
    let r = p.remove_lang(Language::Chinese);
    assert_eq!(r, Err(ConfigError::LanguageNotFound));
}

#[test]
fn target_directory_named_after_language_code() {
    let mut p = project_with_source();
    p.add_lang(Language::French).unwrap();
    p.add_lang(Language::Chinese).unwrap();
    assert_eq!(p.config.target_dir_name(Language::French), Some(b("fr")));
    assert_eq!(p.config.target_dir_name(Language::Chinese), Some(b("zh")));
    assert_eq!(p.config.target_dir_name(Language::Spanish), None);
    assert_eq!(lang_code(Language::German), b("de"));
    assert_eq!(lang_code(Language::Japanese), b("ja"));
    assert_eq!(lang_code(Language::English), b("en"));
    assert_eq!(lang_code(Language::Spanish), b("es"));
}

#[test]
fn prune_drops_entries_of_missing_files() {
    let mut p = project_with_source();
    p.make_translatable_file(&b("src_en/a.txt"), true).unwrap();
    p.make_untranslatable_file(&b("src_en/b.bin"), true).unwrap();
    p.make_translatable_file(&b("src_en/c.txt"), true).unwrap();
    // b.bin vanished from disk.
    p.prune_missing(&vec![true, false, true]);
    assert_eq!(p.manifest.len(), 2);
    assert_eq!(
        p.get_translatable_files().unwrap(),
        vec![b("a.txt"), b("c.txt")]
    );
    assert!(!p.manifest.contains(&b("b.bin")));
}
