//! The pattern matcher: the literal-fallback asymmetry and glob
//! expansion against the real filesystem.

use translate_dir::errors::MarkError;
use translate_dir::lang::Language;
use translate_dir::matcher::{classify_expansion, has_glob_meta, resolve_patterns, ResolutionKind};
use translate_dir::project::Project;
use translate_dir::FileStatus;

fn b(s: &str) -> Vec<u8> {
    s.as_bytes().to_vec()
}

#[test]
fn metacharacters_are_detected() {
    assert!(has_glob_meta(&b("*.txt")));
    assert!(has_glob_meta(&b("docs/?.md")));
    assert!(has_glob_meta(&b("a[bc]d")));
    assert!(has_glob_meta(&b("a{b}d")));
    assert!(!has_glob_meta(&b("notes.txt")));
    assert!(!has_glob_meta(&b("docs/readme.md")));
}

#[test]
fn glob_pattern_with_no_match_is_no_match() {
    // "*.txt" holds a metacharacter: an empty expansion stays "no
    // match" and is never retried as a literal path.
    let r = classify_expansion(b("*.txt"), Some(Vec::new()));
    assert!(matches!(r.kind, ResolutionKind::NoMatch));
    assert_eq!(r.entry_errors, 0);
}

#[test]
fn literal_pattern_with_no_match_falls_back() {
    // "notes.txt" holds no metacharacter: an empty expansion retries
    // it as a literal path.
    let r = classify_expansion(b("notes.txt"), Some(Vec::new()));
    match r.kind {
        ResolutionKind::Literal(p) => assert_eq!(p, b("notes.txt")),
        _ => panic!("expected a literal fallback"),
    }
}

#[test]
fn absent_literal_fails_with_file_not_found() {
    // The fallback path's existence is checked by the consuming
    // operation: marking it with the file absent reports FileNotFound.
    let mut p = Project::init(b("demo"));
    p.set_source_dir(b("src_en"), Language::English).unwrap();
    let r = classify_expansion(b("src_en/notes.txt"), Some(Vec::new()));
    let literal = match r.kind {
        ResolutionKind::Literal(path) => path,
        _ => panic!("expected a literal fallback"),
    };
    let marked = p.mark_file(&literal, FileStatus::Translatable, false);
    assert_eq!(marked, Err(MarkError::FileNotFound));
}

#[test]
fn malformed_pattern_is_skipped() {
    let r = classify_expansion(b("a[b"), None);
    assert!(matches!(r.kind, ResolutionKind::BadPattern));
    assert_eq!(r.entry_errors, 0);
}

#[test]
fn matched_entries_win_over_fallback() {
    let entries = vec![Ok(b("docs/a.md")), Err(b("docs/locked")), Ok(b("docs/b.md"))];
    let r = classify_expansion(b("docs/*"), Some(entries));
    assert_eq!(r.entry_errors, 1);
    match r.kind {
        ResolutionKind::Matched(paths) => {
            assert_eq!(paths, vec![b("docs/a.md"), b("docs/b.md")]);
        }
        _ => panic!("expected matched paths"),
    }
}

#[test]
fn resolve_patterns_against_real_filesystem() {
    // A real glob expansion backs each resolution.  The filesystem
    // root always holds something, the made-up names never do.
    let patterns = vec![
        b("/*"),
        b("/no_such_dir_qq/*.qq"),
        b("/surely_absent_qq.txt"),
    ];
    let rs = resolve_patterns(&patterns);
    assert_eq!(rs.len(), 3);
    match &rs[0].kind {
        ResolutionKind::Matched(paths) => {
            // Real expansions, not the pattern handed back: concrete
            // paths hold no metacharacter.
            assert!(!paths.is_empty());
            assert!(paths.iter().all(|p| !p.contains(&b'*')));
        }
        _ => panic!("expected the root directory to match"),
    }
    assert!(matches!(rs[1].kind, ResolutionKind::NoMatch));
    match &rs[2].kind {
        ResolutionKind::Literal(p) => assert_eq!(p, &b("/surely_absent_qq.txt")),
        _ => panic!("expected a literal fallback"),
    }
}

#[test]
fn no_patterns_resolve_to_nothing() {
    let rs = resolve_patterns(&Vec::new());
    assert!(rs.is_empty());
}
