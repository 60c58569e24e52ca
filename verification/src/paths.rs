//! Arithmetic on byte-string paths.
//!
//! Paths are byte strings with `/` as separator, as the operating system
//! presents them.  The daemon canonicalises every path before it enters the
//! registry, so these functions need no notion of `.` or `..`.

use vstd::prelude::*;

verus! {

/// `i` is the position of the last `/` in `p`.
pub open spec fn spec_is_last_slash(p: Seq<u8>, i: int) -> bool {
    &&& 0 <= i < p.len()
    &&& p[i] == 47u8
    &&& forall|j: int| i < j < p.len() ==> p[j] != 47u8
}

/// The parent of `p`: everything before the last `/`, the root `/` when
/// that separator comes first, nothing when `p` has no separator or is the
/// root itself.
pub open spec fn spec_parent(p: Seq<u8>) -> Option<Seq<u8>> {
    if exists|i: int| spec_is_last_slash(p, i) {
        let i = choose|i: int| spec_is_last_slash(p, i);
        if i == 0 {
            if p.len() == 1 {
                None
            } else {
                Some(seq![47u8])
            }
        } else {
            Some(p.subrange(0, i))
        }
    } else {
        None
    }
}

/// A parent is strictly shorter than its child.
pub proof fn lemma_parent_shorter(p: Seq<u8>)
    ensures
        spec_parent(p) matches Some(q) ==> q.len() < p.len(),
{
    if exists|i: int| spec_is_last_slash(p, i) {
        let i = choose|i: int| spec_is_last_slash(p, i);
        if i == 0 && p.len() > 1 {
        }
    }
}

/// The parent of `p`, or nothing when `p` is the root or has no separator.
pub fn parent_of(p: &Vec<u8>) -> (r: Option<Vec<u8>>)
    ensures
        match r {
            None => spec_parent(p@) is None,
            Some(q) => spec_parent(p@) matches Some(sq) && q@ == sq,
        },
{
    let mut i: usize = p.len();
    while i > 0
        invariant
            i <= p@.len(),
            forall|j: int| i <= j < p@.len() ==> p@[j] != 47u8,
        decreases i,
    {
        i = i - 1;
        if p[i] == 47 {
            proof {
                assert(spec_is_last_slash(p@, i as int));
                let w = choose|w: int| spec_is_last_slash(p@, w);
                assert(w == i) by {
                    if w < i {
                        assert(p@[i as int] != 47u8);
                    } else if w > i {
                        assert(p@[w] != 47u8);
                    }
                }
            }
            if i == 0 {
                if p.len() == 1 {
                    return None;
                }
                let mut root: Vec<u8> = Vec::new();
                root.push(47);
                proof {
                    assert(root@ =~= seq![47u8]);
                }
                return Some(root);
            }
            let mut out: Vec<u8> = Vec::new();
            let mut k: usize = 0;
            while k < i
                invariant
                    k <= i,
                    i < p@.len(),
                    out@ == p@.subrange(0, k as int),
                decreases i - k,
            {
                out.push(p[k]);
                assert(out@ =~= p@.subrange(0, k + 1));
                k = k + 1;
            }
            return Some(out);
        }
    }
    proof {
        if exists|w: int| spec_is_last_slash(p@, w) {
            let w = choose|w: int| spec_is_last_slash(p@, w);
            assert(p@[w] != 47u8);
        }
    }
    None
}

/// The event name for a target `path` seen by a watch rooted at `root`:
/// nothing when the target is the root itself, the remainder after the
/// root and its separator when the target lies below the root, and nothing
/// when the target is unrelated.
pub open spec fn spec_relative_name(root: Seq<u8>, path: Seq<u8>) -> Option<Seq<u8>> {
    if path == root {
        None
    } else if root.len() == 1 && root[0] == 47u8 && path.len() > 1 && path[0] == 47u8 {
        Some(path.subrange(1, path.len() as int))
    } else if path.len() > root.len() + 1 && path.subrange(0, root.len() as int) == root
        && path[root.len() as int] == 47u8 {
        Some(path.subrange(root.len() as int + 1, path.len() as int))
    } else {
        None
    }
}

/// `p` lies strictly below the directory `root`: below `/` that means any
/// longer absolute path, below any other root it means the root's bytes,
/// a separator, and at least nothing more.
pub open spec fn spec_descends_from(root: Seq<u8>, p: Seq<u8>) -> bool {
    if root.len() == 1 && root[0] == 47u8 {
        p.len() > 1 && p[0] == 47u8
    } else {
        p.len() > root.len() && p.subrange(0, root.len() as int) == root && p[root.len() as int]
            == 47u8
    }
}

/// A path with a relative name under `root` lies below `root`.
pub proof fn lemma_relative_name_descends(root: Seq<u8>, p: Seq<u8>)
    requires
        spec_relative_name(root, p) is Some,
    ensures
        spec_descends_from(root, p),
        p != root,
{
}

/// The parent of a path below `root` is the root itself or again below it.
pub proof fn lemma_parent_stays_below(root: Seq<u8>, p: Seq<u8>)
    requires
        root.len() >= 1,
        spec_descends_from(root, p),
    ensures
        spec_parent(p) matches Some(pp) && (pp == root || spec_descends_from(root, pp)),
{
    let slash_at: int = if root.len() == 1 && root[0] == 47u8 {
        0
    } else {
        root.len() as int
    };
    assert(p[slash_at] == 47u8);
    assert(exists|i: int| spec_is_last_slash(p, i)) by {
        let j = last_slash_from(p, slash_at);
        assert(spec_is_last_slash(p, j));
    }
    let i = choose|i: int| spec_is_last_slash(p, i);
    assert(i >= slash_at) by {
        if i < slash_at {
            assert(p[slash_at] != 47u8);
        }
    }
    if root.len() == 1 && root[0] == 47u8 {
        if i == 0 {
            assert(spec_parent(p) == Some(seq![47u8]));
            assert(seq![47u8] =~= root);
        } else {
            let pp = p.subrange(0, i);
            if i == 1 {
                assert(pp =~= root);
            } else {
                assert(pp[0] == 47u8);
            }
        }
    } else {
        assert(i >= root.len() >= 1);
        let pp = p.subrange(0, i);
        if i == root.len() {
            assert(pp =~= root);
        } else {
            assert(pp.subrange(0, root.len() as int) =~= p.subrange(0, root.len() as int));
            assert(pp[root.len() as int] == p[root.len() as int]);
        }
    }
}

/// Position of the last separator at or after `from`, given one at `from`.
proof fn last_slash_from(p: Seq<u8>, from: int) -> (i: int)
    requires
        0 <= from < p.len(),
        p[from] == 47u8,
    ensures
        spec_is_last_slash(p, i),
        i >= from,
    decreases p.len() - from,
{
    if exists|j: int| from < j < p.len() && p[j] == 47u8 {
        let j = choose|j: int| from < j < p.len() && p[j] == 47u8;
        let i = last_slash_from(p, j);
        i
    } else {
        from
    }
}

/// Whether `path` begins with the bytes of `prefix`.
fn starts_with(prefix: &Vec<u8>, path: &Vec<u8>) -> (r: bool)
    ensures
        r == (prefix@.len() <= path@.len() && path@.subrange(0, prefix@.len() as int)
            == prefix@),
{
    if path.len() < prefix.len() {
        return false;
    }
    let mut k: usize = 0;
    while k < prefix.len()
        invariant
            k <= prefix@.len(),
            prefix@.len() <= path@.len(),
            forall|j: int| 0 <= j < k ==> path@[j] == prefix@[j],
        decreases prefix@.len() - k,
    {
        if path[k] != prefix[k] {
            proof {
                assert(path@.subrange(0, prefix@.len() as int)[k as int] != prefix@[k as int]);
            }
            return false;
        }
        k = k + 1;
    }
    proof {
        assert(path@.subrange(0, prefix@.len() as int) =~= prefix@);
    }
    true
}

/// The event name for `path` relative to `root`.
pub fn relative_name(root: &Vec<u8>, path: &Vec<u8>) -> (r: Option<Vec<u8>>)
    ensures
        match r {
            None => spec_relative_name(root@, path@) is None,
            Some(q) => spec_relative_name(root@, path@) matches Some(sq) && q@ == sq,
        },
{
    if crate::registry::bytes_eq(root, path) {
        return None;
    }
    let start: usize;
    if root.len() == 1 && root[0] == 47 && path.len() > 1 && path[0] == 47 {
        start = 1;
    } else if path.len() > root.len() && path.len() - root.len() > 1 && path[root.len()] == 47
        && starts_with(root, path) {
        start = root.len() + 1;
    } else {
        return None;
    }
    Some(suffix_from(path, start))
}

/// The bytes of `path` from `start` to its end.
fn suffix_from(path: &Vec<u8>, start: usize) -> (r: Vec<u8>)
    requires
        start <= path@.len(),
    ensures
        r@ == path@.subrange(start as int, path@.len() as int),
{
    let mut out: Vec<u8> = Vec::new();
    let mut k: usize = start;
    while k < path.len()
        invariant
            start <= k <= path@.len(),
            out@ == path@.subrange(start as int, k as int),
        decreases path@.len() - k,
    {
        out.push(path[k]);
        assert(out@ =~= path@.subrange(start as int, k + 1));
        k = k + 1;
    }
    assert(out@ =~= path@.subrange(start as int, path@.len() as int));
    out
}

} // verus!
