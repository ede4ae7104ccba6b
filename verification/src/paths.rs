//! Derived names: the parent directory of a target path, and the name of the
//! temporary artifact that holds the new contents until the commit step.
//!
//! Paths are byte strings. The separator is `/`; the temporary artifact is the
//! target with its final extension replaced by `tmp` (or with `.tmp` appended
//! when the final component has no extension). Two targets that differ only in
//! their extension therefore share one temporary name: a documented limitation
//! of the naming scheme, not something this module hides.

use vstd::prelude::*;

verus! {

/// Byte value of `/`, the path separator.
pub const SLASH: u8 = 47;

/// Byte value of `.`, the extension separator.
pub const DOT: u8 = 46;

/// Byte value of `t`.
pub const CH_T: u8 = 116;

/// Byte value of `m`.
pub const CH_M: u8 = 109;

/// Byte value of `p`.
pub const CH_P: u8 = 112;

/// The index of the last occurrence of `b` in `p` at position `lo` or later,
/// or -1 when there is none.
pub open spec fn last_index_of(p: Seq<u8>, lo: int, b: u8) -> int
    decreases p.len(),
{
    if p.len() == 0 || p.len() <= lo {
        -1
    } else if p[p.len() - 1] == b {
        p.len() - 1
    } else {
        last_index_of(p.drop_last(), lo, b)
    }
}

/// What `last_index_of` finds: the occurrence it names is the last one at
/// `lo` or later, and -1 means there is none.
pub proof fn lemma_last_index_of(p: Seq<u8>, lo: int, b: u8)
    requires
        lo >= 0,
    ensures
        ({
            let k = last_index_of(p, lo, b);
            &&& -1 <= k < p.len()
            &&& k == -1 ==> forall|j: int| lo <= j < p.len() ==> p[j] != b
            &&& k >= 0 ==> lo <= k < p.len() && p[k] == b && (forall|j: int|
                k < j < p.len() ==> p[j] != b)
        }),
    decreases p.len(),
{
    if p.len() == 0 || p.len() <= lo {
    } else if p[p.len() - 1] == b {
    } else {
        lemma_last_index_of(p.drop_last(), lo, b);
        assert(forall|j: int| 0 <= j < p.len() - 1 ==> p.drop_last()[j] == p[j]);
    }
}

/// Converse: a last occurrence at `m` pins `last_index_of` to `m`.
pub proof fn lemma_last_index_of_at(p: Seq<u8>, lo: int, b: u8, m: int)
    requires
        0 <= lo <= m < p.len(),
        p[m] == b,
        forall|j: int| m < j < p.len() ==> p[j] != b,
    ensures
        last_index_of(p, lo, b) == m,
{
    lemma_last_index_of(p, lo, b);
}

/// Converse: no occurrence at `lo` or later pins `last_index_of` to -1.
pub proof fn lemma_last_index_of_none(p: Seq<u8>, lo: int, b: u8)
    requires
        lo >= 0,
        forall|j: int| lo <= j < p.len() ==> p[j] != b,
    ensures
        last_index_of(p, lo, b) == -1,
{
    lemma_last_index_of(p, lo, b);
}

/// Where the final path component begins: just after the last separator,
/// or at the start when there is no separator.
pub open spec fn component_start(p: Seq<u8>) -> int {
    last_index_of(p, 0, SLASH) + 1
}

/// The parent directory of `p`: everything before the last separator, a lone
/// separator when that separator is the first byte, and `.` (the working
/// directory) when `p` has no separator at all.
pub open spec fn parent_spec(p: Seq<u8>) -> Seq<u8> {
    let k = last_index_of(p, 0, SLASH);
    if k == -1 {
        seq![DOT]
    } else if k == 0 {
        seq![SLASH]
    } else {
        p.take(k)
    }
}

/// The separator of the final component's extension: the last dot strictly
/// after the component's first byte, or -1 when the component has no
/// extension (a leading dot alone, as in a hidden file, is not one).
pub open spec fn ext_dot_index(p: Seq<u8>) -> int {
    last_index_of(p, component_start(p) + 1, DOT)
}

/// The four bytes `.tmp`, the marker of the temporary artifact.
pub open spec fn tmp_suffix() -> Seq<u8> {
    seq![DOT, CH_T, CH_M, CH_P]
}

/// The temporary artifact's path for target `p`: the final extension
/// replaced by `tmp`, or `.tmp` appended when there is none.
pub open spec fn temp_spec(p: Seq<u8>) -> Seq<u8> {
    let j = ext_dot_index(p);
    if j >= 0 {
        p.take(j) + tmp_suffix()
    } else {
        p + tmp_suffix()
    }
}

/// The derived parent name is never empty: it is `.`, `/`, or a prefix of
/// at least one byte.
pub proof fn lemma_parent_nonempty(p: Seq<u8>)
    ensures
        parent_spec(p).len() > 0,
{
    lemma_last_index_of(p, 0, SLASH);
}

/// The temporary artifact is co-located with its target: deriving the
/// temporary name does not change the parent directory.
pub proof fn lemma_temp_parent(p: Seq<u8>)
    ensures
        parent_spec(temp_spec(p)) == parent_spec(p),
{
    let k = last_index_of(p, 0, SLASH);
    lemma_last_index_of(p, 0, SLASH);
    let j = ext_dot_index(p);
    lemma_last_index_of(p, k + 2, DOT);
    let t = temp_spec(p);
    let pre: Seq<u8> = if j >= 0 {
        p.take(j)
    } else {
        p
    };
    assert(t == pre + tmp_suffix());
    assert(forall|m: int| 0 <= m < pre.len() ==> pre[m] == p[m]);
    assert(forall|m: int| 0 <= m < 4 ==> tmp_suffix()[m] != SLASH);
    assert(forall|m: int| pre.len() <= m < t.len() ==> t[m] == tmp_suffix()[m - pre.len()]);
    if k == -1 {
        assert(forall|m: int| 0 <= m < t.len() ==> t[m] != SLASH);
        lemma_last_index_of_none(t, 0, SLASH);
    } else {
        assert(k < pre.len());
        assert(t[k] == SLASH);
        assert(forall|m: int| k < m < t.len() ==> t[m] != SLASH);
        lemma_last_index_of_at(t, 0, SLASH, k);
        if k > 0 {
            assert(t.take(k) =~= p.take(k));
        }
    }
}

/// Scans `p` backwards for byte `b`, reporting the last occurrence at index
/// `lo` or later.
fn rfind_from(p: &[u8], lo: usize, b: u8) -> (r: Option<usize>)
    ensures
        match r {
            Some(i) => i < p@.len() && i == last_index_of(p@, lo as int, b),
            None => last_index_of(p@, lo as int, b) == -1,
        },
{
    let mut i: usize = p.len();
    while i > lo
        invariant
            i <= p.len(),
            forall|j: int| i <= j < p@.len() ==> p@[j] != b,
        decreases i,
    {
        if p[i - 1] == b {
            proof {
                lemma_last_index_of_at(p@, lo as int, b, i - 1);
            }
            return Some(i - 1);
        }
        i = i - 1;
    }
    proof {
        lemma_last_index_of_none(p@, lo as int, b);
    }
    None
}

/// Copies the first `n` bytes of `p` into a fresh vector.
pub fn prefix_vec(p: &[u8], n: usize) -> (r: Vec<u8>)
    requires
        n <= p@.len(),
    ensures
        r@ == p@.take(n as int),
{
    let mut r: Vec<u8> = Vec::new();
    let mut i: usize = 0;
    while i < n
        invariant
            i <= n <= p@.len(),
            r@ == p@.take(i as int),
        decreases n - i,
    {
        r.push(p[i]);
        proof {
            assert(r@ =~= p@.take(i + 1 as int));
        }
        i = i + 1;
    }
    r
}

/// Copies a byte slice into a fresh vector.
pub fn copy_bytes(p: &[u8]) -> (r: Vec<u8>)
    ensures
        r@ == p@,
{
    let r = prefix_vec(p, p.len());
    proof {
        assert(p@.take(p@.len() as int) =~= p@);
    }
    r
}

/// The parent directory of `path`, as the atomic writer derives it: the
/// prefix before the last separator, or `.` when there is none.
pub fn parent_dir(path: &[u8]) -> (r: Vec<u8>)
    ensures
        r@ == parent_spec(path@),
{
    match rfind_from(path, 0, SLASH) {
        None => {
            let mut r: Vec<u8> = Vec::new();
            r.push(DOT);
            proof {
                assert(r@ =~= seq![DOT]);
            }
            r
        },
        Some(k) => {
            if k == 0 {
                let mut r: Vec<u8> = Vec::new();
                r.push(SLASH);
                proof {
                    assert(r@ =~= seq![SLASH]);
                }
                r
            } else {
                prefix_vec(path, k)
            }
        },
    }
}

/// The temporary artifact's path for `path`: the final component's extension
/// replaced by `tmp`, or `.tmp` appended when it has none.
pub fn temp_path(path: &[u8]) -> (r: Vec<u8>)
    ensures
        r@ == temp_spec(path@),
{
    let plen: usize = path.len();
    let start: usize = match rfind_from(path, 0, SLASH) {
        None => 0,
        Some(k) => {
            proof {
                assert(k < plen);
            }
            k + 1
        },
    };
    let dot: Option<usize> = if start >= path.len() {
        None
    } else {
        rfind_from(path, start + 1, DOT)
    };
    let mut r: Vec<u8> = match dot {
        Some(j) => prefix_vec(path, j),
        None => copy_bytes(path),
    };
    r.push(DOT);
    r.push(CH_T);
    r.push(CH_M);
    r.push(CH_P);
    proof {
        let j = ext_dot_index(path@);
        if j >= 0 {
            assert(r@ =~= path@.take(j) + tmp_suffix());
        } else {
            assert(r@ =~= path@ + tmp_suffix());
        }
    }
    r
}

} // verus!
