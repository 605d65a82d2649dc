//! Pattern resolution: globs and literal paths.
//!
//! Each user-supplied pattern is first expanded as a glob.  A malformed
//! pattern is skipped.  A pattern that expands to nothing falls back to
//! a literal path only when it holds none of the glob metacharacters
//! `*`, `?`, `[`, `{`; a glob-looking pattern that matches nothing is a
//! deliberate "no match" instead.  Resolution itself changes nothing on
//! disk.

use vstd::prelude::*;

use crate::manifest::views_of;
use crate::relpath::copy_bytes;

verus! {

/// The glob metacharacters: `*`, `?`, `[` and `{`.
pub open spec fn is_meta(b: u8) -> bool {
    b == 42 || b == 63 || b == 91 || b == 123
}

/// The pattern holds at least one glob metacharacter.
pub open spec fn has_meta(s: Seq<u8>) -> bool {
    exists|i: int| 0 <= i < s.len() && is_meta(s[i])
}

/// Whether `pattern` holds any of the glob metacharacters.
pub fn has_glob_meta(pattern: &Vec<u8>) -> (r: bool)
    ensures
        r == has_meta(pattern@),
{
    let mut i: usize = 0;
    while i < pattern.len()
        invariant
            i <= pattern.len(),
            forall|j: int| 0 <= j < i ==> !is_meta(pattern@[j]),
        decreases pattern.len() - i,
    {
        let b = pattern[i];
        if b == 42u8 || b == 63u8 || b == 91u8 || b == 123u8 {
            return true;
        }
        i = i + 1;
    }
    false
}

/// How one pattern resolved.
pub enum ResolutionKind {
    /// The pattern itself was malformed; it is skipped entirely.
    BadPattern,
    /// A glob-looking pattern that matched no file; not retried as a
    /// literal path.
    NoMatch,
    /// A literal-looking pattern that matched no file; retried as this
    /// literal path, whose existence the consuming operation checks.
    Literal(Vec<u8>),
    /// The paths the glob matched, in the expansion's order.
    Matched(Vec<Vec<u8>>),
}

/// The resolution of one pattern, with the count of matched entries
/// that could not be read.
pub struct PatternOutcome {
    pub entry_errors: usize,
    pub kind: ResolutionKind,
}

/// The readable paths of an expansion, in order.
pub open spec fn oks_of(es: Seq<Result<Vec<u8>, Vec<u8>>>) -> Seq<Seq<u8>>
    decreases es.len(),
{
    if es.len() == 0 {
        Seq::empty()
    } else {
        let rest = oks_of(es.drop_last());
        if es.last() is Ok {
            rest.push(es.last()->Ok_0@)
        } else {
            rest
        }
    }
}

/// How many entries of an expansion could not be read.
pub open spec fn err_count_of(es: Seq<Result<Vec<u8>, Vec<u8>>>) -> nat
    decreases es.len(),
{
    if es.len() == 0 {
        0
    } else {
        err_count_of(es.drop_last()) + (if es.last() is Err {
            1nat
        } else {
            0nat
        })
    }
}

/// The asymmetric resolution rule.  An expansion of `None` means the
/// pattern was malformed.  Otherwise the readable paths win if there
/// are any; an empty expansion falls back to the literal pattern
/// exactly when the pattern holds no glob metacharacter.
pub fn classify_expansion(pattern: Vec<u8>, expansion: Option<Vec<Result<Vec<u8>, Vec<u8>>>>) -> (r:
    PatternOutcome)
    ensures
        expansion is None ==> r.kind is BadPattern && r.entry_errors == 0,
        expansion is Some ==> {
            let es = expansion->Some_0@;
            &&& r.entry_errors == err_count_of(es)
            &&& oks_of(es).len() > 0 ==> r.kind is Matched && views_of(r.kind->Matched_0@)
                == oks_of(es)
            &&& oks_of(es).len() == 0 && !has_meta(pattern@) ==> r.kind is Literal
                && r.kind->Literal_0@ == pattern@
            &&& oks_of(es).len() == 0 && has_meta(pattern@) ==> r.kind is NoMatch
        },
{
    let entries = match expansion {
        None => {
            return PatternOutcome { entry_errors: 0, kind: ResolutionKind::BadPattern };
        },
        Some(entries) => entries,
    };
    let mut oks: Vec<Vec<u8>> = Vec::new();
    let mut errs: usize = 0;
    let mut i: usize = 0;
    while i < entries.len()
        invariant
            i <= entries.len(),
            views_of(oks@) == oks_of(entries@.subrange(0, i as int)),
            errs == err_count_of(entries@.subrange(0, i as int)),
            errs <= i,
        decreases entries.len() - i,
    {
        let ghost prefix = entries@.subrange(0, i as int);
        match &entries[i] {
            Ok(p) => {
                let path = copy_bytes(p);
                oks.push(path);
            },
            Err(_) => {
                errs = errs + 1;
            },
        }
        proof {
            let next = entries@.subrange(0, i + 1 as int);
            assert(next.drop_last() =~= prefix);
            assert(next.last() == entries@[i as int]);
            if entries@[i as int] is Ok {
                assert(views_of(oks@) =~= oks_of(prefix).push(entries@[i as int]->Ok_0@));
            } else {
                assert(views_of(oks@) =~= oks_of(prefix));
            }
        }
        i = i + 1;
    }
    proof {
        assert(entries@.subrange(0, entries@.len() as int) =~= entries@);
    }
    if oks.len() > 0 {
        return PatternOutcome { entry_errors: errs, kind: ResolutionKind::Matched(oks) };
    }
    if !has_glob_meta(&pattern) {
        PatternOutcome { entry_errors: errs, kind: ResolutionKind::Literal(pattern) }
    } else {
        PatternOutcome { entry_errors: errs, kind: ResolutionKind::NoMatch }
    }
}

/// What any resolution guarantees about its pattern: the fallback
/// asymmetry, independent of what the filesystem held.
pub open spec fn outcome_shape(pat: Seq<u8>, o: PatternOutcome) -> bool {
    &&& o.kind is Literal ==> o.kind->Literal_0@ == pat && !has_meta(pat)
    &&& o.kind is NoMatch ==> has_meta(pat)
    &&& o.kind is Matched ==> o.kind->Matched_0@.len() > 0
}

/// Relies on glob::glob: expands a pattern against the filesystem.
/// `None` reports a malformed pattern.  Each matched entry comes back
/// as `Ok` with the path's bytes; an entry that could not be read comes
/// back as `Err` with the bytes of the unreadable path.  What is
/// matched depends on the state of the disk, so nothing more is
/// promised of the result.
#[verifier::external_body]
fn expand_glob(pattern: &Vec<u8>) -> Option<Vec<Result<Vec<u8>, Vec<u8>>>> {
    let text = String::from_utf8_lossy(pattern).into_owned();
    match glob::glob(&text) {
        Ok(paths) => Some(
            paths.map(
                |entry| match entry {
                    Ok(p) => Ok(p.to_string_lossy().into_owned().into_bytes()),
                    Err(e) => Err(e.path().to_string_lossy().into_owned().into_bytes()),
                },
            ).collect(),
        ),
        Err(_) => None,
    }
}

/// Resolve each pattern in input order: expand it as a glob, then apply
/// the literal-fallback rule to whatever the expansion returned.
pub fn resolve_patterns(patterns: &Vec<Vec<u8>>) -> (r: Vec<PatternOutcome>)
    ensures
        r@.len() == patterns@.len(),
        forall|i: int| 0 <= i < r@.len() ==> outcome_shape(patterns@[i]@, #[trigger] r@[i]),
{
    let mut r: Vec<PatternOutcome> = Vec::new();
    let mut i: usize = 0;
    while i < patterns.len()
        invariant
            i <= patterns.len(),
            r@.len() == i,
            forall|j: int| 0 <= j < i ==> outcome_shape(patterns@[j]@, #[trigger] r@[j]),
        decreases patterns.len() - i,
    {
        let pattern = copy_bytes(&patterns[i]);
        let expansion = expand_glob(&patterns[i]);
        let outcome = classify_expansion(pattern, expansion);
        r.push(outcome);
        i = i + 1;
    }
    r
}

} // verus!
