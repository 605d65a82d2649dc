//! Byte-path helpers and the bulk-marking tally.

use translate_dir::project::BulkTally;
use translate_dir::relpath::{bytes_eq, copy_bytes, join_under, strip_dir};

fn b(s: &str) -> Vec<u8> {
    s.as_bytes().to_vec()
}

#[test]
fn strip_dir_peels_the_source_prefix() {
    assert_eq!(strip_dir(&b("src_en"), &b("src_en/a.txt")), Some(b("a.txt")));
    assert_eq!(
        strip_dir(&b("src_en"), &b("src_en/docs/a.txt")),
        Some(b("docs/a.txt"))
    );
    assert_eq!(strip_dir(&b("src_en"), &b("other/a.txt")), None);
    assert_eq!(strip_dir(&b("src_en"), &b("src_en")), None);
    assert_eq!(strip_dir(&b("src_en"), &b("src_en/")), None);
    assert_eq!(strip_dir(&b("src_en"), &b("src_enx/a.txt")), None);
}

#[test]
fn join_under_builds_the_mirror_path() {
    assert_eq!(join_under(&b("fr"), &b("docs/a.txt")), b("fr/docs/a.txt"));
    assert_eq!(join_under(&b("de"), &b("x")), b("de/x"));
}

#[test]
fn bytes_eq_compares_contents() {
    assert!(bytes_eq(&b("abc"), &b("abc")));
    assert!(!bytes_eq(&b("abc"), &b("abd")));
    assert!(!bytes_eq(&b("abc"), &b("ab")));
    assert_eq!(copy_bytes(&b("abc")), b("abc"));
}

#[test]
fn tally_accumulates_outcomes() {
    let mut t = BulkTally::new();
    t.record_success();
    t.record_success();
    t.record_error();
    t.record_errors(2);
    t.record_no_match(b("*.qq"));
    assert_eq!(t.successes, 2);
    assert_eq!(t.errors, 3);
    assert_eq!(t.no_match, vec![b("*.qq")]);
    assert!(t.any_errors());

    let t2 = BulkTally::new();
    assert!(!t2.any_errors());
}
