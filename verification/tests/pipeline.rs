//! Synchronization and translation submission, against an in-memory
//! mirror store.

use translate_dir::errors::{ProviderOutcome, TranslateError};
use translate_dir::lang::Language;
use translate_dir::project::Project;
use translate_dir::sync::{sync_actions, sync_report, sync_succeeded, SyncPair};
use translate_dir::translate::translate_report;

fn b(s: &str) -> Vec<u8> {
    s.as_bytes().to_vec()
}

/// An in-memory mirror store: (language, relative path) to content.
struct MirrorStore {
    entries: Vec<((Language, Vec<u8>), Vec<u8>)>,
}

impl MirrorStore {
    fn new() -> MirrorStore {
        MirrorStore {
            entries: Vec::new(),
        }
    }

    fn get(&self, key: &(Language, Vec<u8>)) -> Option<&Vec<u8>> {
        self.entries.iter().find(|(k, _)| k == key).map(|(_, v)| v)
    }

    fn put(&mut self, key: (Language, Vec<u8>), value: Vec<u8>) {
        if let Some(slot) = self.entries.iter_mut().find(|(k, _)| *k == key) {
            slot.1 = value;
        } else {
            self.entries.push((key, value));
        }
    }
}

/// The source content of a relative path in these scenarios.
fn source_content(rel: &[u8]) -> Vec<u8> {
    let mut c = b"content of ".to_vec();
    c.extend_from_slice(rel);
    c
}

fn fresh_flags(store: &MirrorStore, pairs: &[SyncPair]) -> Vec<bool> {
    pairs
        .iter()
        .map(|p| {
            store.get(&(p.language, p.rel_path.clone()))
                == Some(&source_content(&p.rel_path))
        })
        .collect()
}

fn project_for_sync() -> Project {
    let mut p = Project::init(b("demo"));
    p.set_source_dir(b("src_en"), Language::English).unwrap();
    p.add_lang(Language::French).unwrap();
    p.add_lang(Language::German).unwrap();
    p.make_untranslatable_file(&b("src_en/logo.png"), true).unwrap();
    p.make_translatable_file(&b("src_en/intro.txt"), true).unwrap();
    p.make_untranslatable_file(&b("src_en/data.bin"), true).unwrap();
    p
}

#[test]
fn sync_plans_every_untranslatable_file_per_target() {
    let p = project_for_sync();
    let pairs = p.sync_pairs().unwrap();
    let plan: Vec<(Vec<u8>, Language, Vec<u8>)> = pairs
        .iter()
        .map(|q| (q.rel_path.clone(), q.language, q.dir_name.clone()))
        .collect();
    assert_eq!(
        plan,
        vec![
            (b("logo.png"), Language::French, b("fr")),
            (b("logo.png"), Language::German, b("de")),
            (b("data.bin"), Language::French, b("fr")),
            (b("data.bin"), Language::German, b("de")),
        ]
    );
}

#[test]
fn sync_requires_source_directory() {
    let p = Project::init(b("demo"));
    assert!(p.sync_pairs().is_err());
}

#[test]
fn sync_twice_copies_nothing_the_second_time() {
    let p = project_for_sync();
    let mut store = MirrorStore::new();

    // First pass: everything is stale, all copies succeed.
    let pairs = p.sync_pairs().unwrap();
    let flags = fresh_flags(&store, &pairs);
    let actions = sync_actions(&pairs, &flags);
    assert_eq!(actions.len(), 4);
    for a in &actions {
        store.put(
            (a.language, a.rel_path.clone()),
            source_content(&a.rel_path),
        );
    }
    let ok = vec![true; actions.len()];
    let report = sync_report(&actions, &ok);
    assert!(sync_succeeded(&report));
    assert_eq!(report.attempted, 4);

    // Second pass with no intervening change: zero copies, success.
    let pairs2 = p.sync_pairs().unwrap();
    let flags2 = fresh_flags(&store, &pairs2);
    let actions2 = sync_actions(&pairs2, &flags2);
    assert_eq!(actions2.len(), 0);
    let report2 = sync_report(&actions2, &Vec::new());
    assert!(sync_succeeded(&report2));
}

#[test]
fn sync_reports_failed_copies_without_aborting() {
    let p = project_for_sync();
    let pairs = p.sync_pairs().unwrap();
    let flags = vec![false; pairs.len()];
    let actions = sync_actions(&pairs, &flags);
    // The copy into fr fails for data.bin; the rest succeed.
    let ok = vec![true, true, false, true];
    let report = sync_report(&actions, &ok);
    assert!(!sync_succeeded(&report));
    assert_eq!(report.attempted, 4);
    assert_eq!(report.failed, vec![b("data.bin")]);
}

#[test]
fn removing_language_keeps_mirrored_files() {
    let mut p = project_for_sync();
    let mut store = MirrorStore::new();
    let pairs = p.sync_pairs().unwrap();
    let flags = fresh_flags(&store, &pairs);
    for a in &sync_actions(&pairs, &flags) {
        store.put(
            (a.language, a.rel_path.clone()),
            source_content(&a.rel_path),
        );
    }
    assert!(store.get(&(Language::German, b("logo.png"))).is_some());

    p.remove_lang(Language::German).unwrap();

    // The store was never touched: the mirrors under de/ survive, the
    // language only stops being synchronized.
    assert!(store.get(&(Language::German, b("logo.png"))).is_some());
    assert!(store.get(&(Language::German, b("data.bin"))).is_some());
    let pairs2 = p.sync_pairs().unwrap();
    assert!(pairs2.iter().all(|q| q.language != Language::German));
}

fn project_for_translate() -> Project {
    let mut p = Project::init(b("demo"));
    p.set_source_dir(b("src_en"), Language::English).unwrap();
    p.add_lang(Language::French).unwrap();
    p.make_translatable_file(&b("src_en/one.txt"), true).unwrap();
    p.make_translatable_file(&b("src_en/two.txt"), true).unwrap();
    p.make_translatable_file(&b("src_en/three.txt"), true).unwrap();
    p
}

#[test]
fn translate_without_credentials_fails_before_any_file() {
    let p = project_for_translate();
    assert_eq!(
        p.plan_translate_all(Language::French, false),
        Err(TranslateError::AuthMissing)
    );
    assert_eq!(
        p.plan_translate_file(&b("src_en/one.txt"), Language::French, false),
        Err(TranslateError::AuthMissing)
    );
}

#[test]
fn translate_rejects_unknown_target() {
    let p = project_for_translate();
    assert_eq!(
        p.plan_translate_all(Language::Chinese, true),
        Err(TranslateError::UnknownTargetLanguage)
    );
    assert_eq!(
        p.plan_translate_file(&b("src_en/one.txt"), Language::Chinese, true),
        Err(TranslateError::UnknownTargetLanguage)
    );
}

#[test]
fn translate_rejects_untranslatable_file() {
    let mut p = project_for_translate();
    p.make_untranslatable_file(&b("src_en/raw.bin"), true).unwrap();
    assert_eq!(
        p.plan_translate_file(&b("src_en/raw.bin"), Language::French, true),
        Err(TranslateError::NotTranslatable)
    );
    assert_eq!(
        p.plan_translate_file(&b("src_en/unknown.txt"), Language::French, true),
        Err(TranslateError::NotTranslatable)
    );
}

#[test]
fn translate_file_resolves_relative_path() {
    let p = project_for_translate();
    assert_eq!(
        p.plan_translate_file(&b("src_en/two.txt"), Language::French, true),
        Ok(b("two.txt"))
    );
    assert_eq!(
        p.plan_translate_file(&b("two.txt"), Language::French, true),
        Ok(b("two.txt"))
    );
}

#[test]
fn translate_requires_source_directory() {
    let p = Project::init(b("demo"));
    assert_eq!(
        p.plan_translate_all(Language::French, true),
        Err(TranslateError::NoSourceDirectory)
    );
}

#[test]
fn translate_all_reports_every_outcome() {
    let p = project_for_translate();
    let planned = p.plan_translate_all(Language::French, true).unwrap();
    assert_eq!(planned, vec![b("one.txt"), b("two.txt"), b("three.txt")]);

    // File two fails permanently; one and three are still attempted
    // and succeed.
    let outcomes = vec![
        ProviderOutcome::Done,
        ProviderOutcome::Permanent,
        ProviderOutcome::Done,
    ];
    let report = translate_report(&planned, &outcomes);
    assert_eq!(report.successes, 2);
    assert_eq!(report.failures, 1);
    assert_eq!(report.failed, vec![b("two.txt")]);
}

#[test]
fn translate_all_counts_transient_and_write_failures() {
    let p = project_for_translate();
    let planned = p.plan_translate_all(Language::French, true).unwrap();
    let outcomes = vec![
        ProviderOutcome::Transient,
        ProviderOutcome::Done,
        ProviderOutcome::WriteFailed,
    ];
    let report = translate_report(&planned, &outcomes);
    assert_eq!(report.successes, 1);
    assert_eq!(report.failures, 2);
    assert_eq!(report.failed, vec![b("one.txt"), b("three.txt")]);
}

#[test]
fn sync_with_nothing_to_mirror_is_empty_success() {
    let mut p = Project::init(b("demo"));
    p.set_source_dir(b("src_en"), Language::English).unwrap();
    p.add_lang(Language::French).unwrap();
    let pairs = p.sync_pairs().unwrap();
    assert!(pairs.is_empty());
    let report = sync_report(&pairs, &Vec::new());
    assert!(sync_succeeded(&report));
    assert_eq!(report.attempted, 0);
}

#[test]
fn translate_all_with_no_translatable_files() {
    let mut p = Project::init(b("demo"));
    p.set_source_dir(b("src_en"), Language::English).unwrap();
    p.add_lang(Language::French).unwrap();
    let planned = p.plan_translate_all(Language::French, true).unwrap();
    assert!(planned.is_empty());
    let report = translate_report(&planned, &Vec::new());
    assert_eq!(report.successes, 0);
    assert_eq!(report.failures, 0);
    assert!(report.failed.is_empty());
}
