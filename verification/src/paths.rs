//! Confinement of request paths to the service root. A client-supplied
//! filename is split into the directory part — which the embedding program
//! canonicalizes on the real filesystem, resolving symlinks — and the final
//! component, which is never resolved, so that a write request may create a
//! file that does not yet exist. The canonical directory joined with the
//! final component is then admitted only when it lies below the service
//! root.

use vstd::prelude::*;
use crate::packet::push_all;

verus! {

/// The path separator byte, `/`.
pub const SEPARATOR: u8 = 47;

/// The index of the last separator of a path, or -1 when it has none.
pub open spec fn last_slash_index(s: Seq<u8>) -> int
    decreases s.len(),
{
    if s.len() == 0 {
        -1
    } else if s[s.len() - 1] == 47u8 {
        s.len() - 1
    } else {
        last_slash_index(s.drop_last())
    }
}

proof fn lemma_last_slash_at(s: Seq<u8>, k: int)
    requires
        0 <= k < s.len(),
        s[k] == 47u8,
        forall|j: int| k < j < s.len() ==> s[j] != 47u8,
    ensures
        last_slash_index(s) == k,
    decreases s.len(),
{
    if k < s.len() - 1 {
        lemma_last_slash_at(s.drop_last(), k);
    }
}

proof fn lemma_last_slash_none(s: Seq<u8>)
    requires
        forall|j: int| 0 <= j < s.len() ==> s[j] != 47u8,
    ensures
        last_slash_index(s) == -1,
    decreases s.len(),
{
    if s.len() > 0 {
        lemma_last_slash_none(s.drop_last());
    }
}

/// The directory part a filename asks the program to canonicalize: the
/// bytes before the last separator; `.` for a bare name, `/` when the
/// separator is the leading byte.
pub open spec fn dir_part(s: Seq<u8>) -> Seq<u8> {
    let k = last_slash_index(s);
    if k == -1 {
        seq![46u8]
    } else if k == 0 {
        seq![47u8]
    } else {
        s.take(k)
    }
}

/// The final component of a filename: the bytes after its last separator.
pub open spec fn base_part(s: Seq<u8>) -> Seq<u8> {
    s.skip(last_slash_index(s) + 1)
}

/// True of a final component a request may carry: non-empty and neither
/// of the relative components `.` and `..`, which name no file.
pub open spec fn valid_base(base: Seq<u8>) -> bool {
    base.len() > 0 && base != seq![46u8] && base != seq![46u8, 46u8]
}

/// Splits a request filename into the directory part to canonicalize and
/// the final component to append. Refused when the filename leaves no
/// usable final component: it is empty, ends in a separator, or ends in
/// `.` or `..`.
pub fn split_request_path(filename: &[u8]) -> (r: Option<(Vec<u8>, Vec<u8>)>)
    ensures
        r is Some <==> valid_base(base_part(filename@)),
        r matches Some(p) ==> p.0@ == dir_part(filename@) && p.1@ == base_part(filename@),
{
    let ghost s = filename@;
    let n = filename.len();
    let mut k: usize = n;
    while k > 0 && filename[k - 1] != 47u8
        invariant
            s == filename@,
            0 <= k <= n,
            n == s.len(),
            forall|j: int| k <= j < s.len() ==> s[j] != 47u8,
        decreases k,
    {
        k -= 1;
    }
    // Here k is one past the last separator (0 when there is none).
    proof {
        if k == 0 {
            lemma_last_slash_none(s);
        } else {
            lemma_last_slash_at(s, k - 1);
        }
        assert(last_slash_index(s) == k - 1);
    }
    let blen = n - k;
    if blen == 0 {
        proof {
            assert(base_part(s).len() == 0);
        }
        return None;
    }
    let ghost base = base_part(s);
    proof {
        assert(base =~= s.skip(k as int));
        assert(base.len() == blen);
        assert(forall|j: int| 0 <= j < base.len() ==> base[j] == s[k + j]);
    }
    if blen == 1 && filename[k] == 46u8 {
        proof {
            assert(base =~= seq![46u8]);
        }
        return None;
    }
    if blen == 2 && filename[k] == 46u8 && filename[k + 1] == 46u8 {
        proof {
            assert(base =~= seq![46u8, 46u8]);
        }
        return None;
    }
    proof {
        assert(base != seq![46u8]) by {
            if base == seq![46u8] {
                assert(base[0] == 46u8 && base.len() == 1);
            }
        }
        assert(base != seq![46u8, 46u8]) by {
            if base == seq![46u8, 46u8] {
                assert(base[0] == 46u8 && base[1] == 46u8 && base.len() == 2);
            }
        }
    }
    let mut basename: Vec<u8> = Vec::new();
    let mut i: usize = k;
    while i < n
        invariant
            s == filename@,
            k <= i <= n,
            n == s.len(),
            basename@ == s.subrange(k as int, i as int),
        decreases n - i,
    {
        basename.push(filename[i]);
        proof {
            assert(basename@ =~= s.subrange(k as int, i as int + 1));
        }
        i += 1;
    }
    proof {
        assert(basename@ =~= base);
    }
    let mut dir: Vec<u8> = Vec::new();
    if k == 0 {
        dir.push(46u8);
        proof {
            assert(dir@ =~= dir_part(s));
        }
    } else if k == 1 {
        dir.push(47u8);
        proof {
            assert(dir@ =~= dir_part(s));
        }
    } else {
        let mut j: usize = 0;
        while j < k - 1
            invariant
                s == filename@,
                0 <= j <= k - 1,
                k <= n == s.len(),
                dir@ == s.subrange(0, j as int),
            decreases k - j,
        {
            dir.push(filename[j]);
            proof {
                assert(dir@ =~= s.subrange(0, j as int + 1));
            }
            j += 1;
        }
        proof {
            assert(dir@ =~= s.take(k - 1));
        }
    }
    Some((dir, basename))
}

/// The canonical directory with the final component appended.
pub open spec fn joined(parent: Seq<u8>, base: Seq<u8>) -> Seq<u8> {
    parent + seq![47u8] + base
}

/// True when a path lies below the service root: it begins with the root,
/// and what follows starts at a component boundary.
pub open spec fn confined(root: Seq<u8>, p: Seq<u8>) -> bool {
    &&& root.len() < p.len()
    &&& p.take(root.len() as int) == root
    &&& (p[root.len() as int] == 47u8 || (root.len() > 0 && root.last() == 47u8))
}

/// Joins the canonicalized directory with the final component and admits
/// the result only when it lies below the service root: every path this
/// function returns begins with the root. Anything else is refused.
pub fn confine(parent: &[u8], base: &[u8], root: &[u8]) -> (r: Option<Vec<u8>>)
    ensures
        r matches Some(p) ==> p@ == joined(parent@, base@) && confined(root@, p@),
        r is None <==> !confined(root@, joined(parent@, base@)),
{
    let mut path: Vec<u8> = Vec::new();
    push_all(&mut path, parent);
    path.push(47u8);
    push_all(&mut path, base);
    proof {
        assert(path@ =~= joined(parent@, base@));
    }
    let rootlen = root.len();
    if rootlen >= path.len() {
        return None;
    }
    let mut i: usize = 0;
    while i < rootlen
        invariant
            path@ == joined(parent@, base@),
            0 <= i <= rootlen < path@.len(),
            root@.len() == rootlen,
            forall|j: int| 0 <= j < i ==> path@[j] == root@[j],
        decreases rootlen - i,
    {
        if path[i] != root[i] {
            proof {
                assert(path@.take(rootlen as int) != root@) by {
                    assert(path@.take(rootlen as int)[i as int] == path@[i as int]);
                }
            }
            return None;
        }
        i += 1;
    }
    proof {
        assert(path@.take(rootlen as int) =~= root@);
    }
    if path[rootlen] == 47u8 || (rootlen > 0 && root[rootlen - 1] == 47u8) {
        Some(path)
    } else {
        None
    }
}

} // verus!
