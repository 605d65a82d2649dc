//! Byte-level path helpers.
//!
//! Paths are carried as byte vectors so the engine can reason about them
//! exactly; the caller converts to and from its platform path type.

use vstd::prelude::*;

verus! {

/// The path separator byte, `/`.
pub open spec fn sep() -> u8 {
    47u8
}

/// `path` lies strictly under the directory `dir`: it starts with `dir`,
/// followed by a separator, followed by a non-empty remainder.
pub open spec fn is_under(dir: Seq<u8>, path: Seq<u8>) -> bool {
    &&& path.len() > dir.len() + 1
    &&& path.subrange(0, dir.len() as int) == dir
    &&& path[dir.len() as int] == sep()
}

/// The remainder of `path` after the directory prefix and its separator.
pub open spec fn rel_of(dir: Seq<u8>, path: Seq<u8>) -> Seq<u8> {
    path.subrange(dir.len() as int + 1, path.len() as int)
}

/// Whether two byte strings hold the same bytes.
pub fn bytes_eq(a: &Vec<u8>, b: &Vec<u8>) -> (r: bool)
    ensures
        r <==> a@ == b@,
{
    if a.len() != b.len() {
        return false;
    }
    let mut i: usize = 0;
    while i < a.len()
        invariant
            i <= a.len(),
            a.len() == b.len(),
            forall|j: int| 0 <= j < i ==> a@[j] == b@[j],
        decreases a.len() - i,
    {
        if a[i] != b[i] {
            return false;
        }
        i = i + 1;
    }
    proof {
        assert(a@ =~= b@);
    }
    true
}

/// If `path` lies under `dir`, the path relative to `dir`; `None` otherwise.
pub fn strip_dir(dir: &Vec<u8>, path: &Vec<u8>) -> (r: Option<Vec<u8>>)
    ensures
        r is Some <==> is_under(dir@, path@),
        r is Some ==> r->Some_0@ == rel_of(dir@, path@),
{
    if path.len() <= dir.len() || path.len() - dir.len() <= 1 {
        return None;
    }
    let mut i: usize = 0;
    while i < dir.len()
        invariant
            i <= dir.len(),
            path.len() > dir.len() + 1,
            forall|j: int| 0 <= j < i ==> path@[j] == dir@[j],
        decreases dir.len() - i,
    {
        if path[i] != dir[i] {
            proof {
                assert(path@.subrange(0, dir@.len() as int)[i as int] != dir@[i as int]);
            }
            return None;
        }
        i = i + 1;
    }
    if path[dir.len()] != 47u8 {
        return None;
    }
    proof {
        assert(path@.subrange(0, dir@.len() as int) =~= dir@);
    }
    let mut rel: Vec<u8> = Vec::new();
    let mut k: usize = dir.len() + 1;
    while k < path.len()
        invariant
            dir.len() + 1 <= k <= path.len(),
            rel@ == path@.subrange(dir@.len() as int + 1, k as int),
        decreases path.len() - k,
    {
        let byte = path[k];
        rel.push(byte);
        proof {
            assert(rel@ =~= path@.subrange(dir@.len() as int + 1, k + 1 as int));
        }
        k = k + 1;
    }
    Some(rel)
}

/// A fresh copy of a byte string.
pub fn copy_bytes(a: &Vec<u8>) -> (r: Vec<u8>)
    ensures
        r@ == a@,
{
    let mut r: Vec<u8> = Vec::new();
    let mut i: usize = 0;
    while i < a.len()
        invariant
            i <= a.len(),
            r@ == a@.subrange(0, i as int),
        decreases a.len() - i,
    {
        let byte = a[i];
        r.push(byte);
        proof {
            assert(r@ =~= a@.subrange(0, i + 1 as int));
        }
        i = i + 1;
    }
    proof {
        assert(r@ =~= a@);
    }
    r
}

/// `dir`, a separator, then `rel`: the mirrored location of a relative
/// path under a target directory.
pub fn join_under(dir: &Vec<u8>, rel: &Vec<u8>) -> (r: Vec<u8>)
    ensures
        r@ == dir@ + seq![sep()] + rel@,
{
    let mut r = copy_bytes(dir);
    r.push(47u8);
    let mut i: usize = 0;
    while i < rel.len()
        invariant
            i <= rel.len(),
            r@ == dir@ + seq![sep()] + rel@.subrange(0, i as int),
        decreases rel.len() - i,
    {
        let byte = rel[i];
        r.push(byte);
        proof {
            assert(r@ =~= dir@ + seq![sep()] + rel@.subrange(0, i + 1 as int));
        }
        i = i + 1;
    }
    proof {
        assert(rel@.subrange(0, rel@.len() as int) =~= rel@);
    }
    r
}

} // verus!
