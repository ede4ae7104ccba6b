//! The filesystem as the protocol sees it: a map from paths to file
//! contents and a set of existing directories. The functions here state what
//! one successful atomic write does to that model; the simulated filesystem
//! in [`crate::sim`] realises the model, and [`crate::laws`] proves the
//! properties a caller relies on over it.

use vstd::prelude::*;

use crate::paths::parent_spec;
use crate::paths::temp_spec;
use crate::paths::SLASH;

verus! {

/// What a reader finds at `p`: the file's contents, or nothing.
pub open spec fn lookup(files: Map<Seq<u8>, Seq<u8>>, p: Seq<u8>) -> Option<Seq<u8>> {
    if files.contains_key(p) {
        Some(files[p])
    } else {
        None
    }
}

/// `i` is a component boundary of `p`: the end of `p`, or the position of a
/// separator.
pub open spec fn boundary(p: Seq<u8>, i: int) -> bool {
    i == p.len() || (0 <= i < p.len() && p[i] == SLASH)
}

/// The directory chain leading to `p`, `p` itself included: every nonempty
/// prefix of `p` that ends at a component boundary. Creating a directory
/// creates exactly this chain.
pub open spec fn dir_chain(p: Seq<u8>) -> Set<Seq<u8>> {
    Set::new(
        |q: Seq<u8>| exists|i: int| 0 < i <= p.len() && #[trigger] boundary(p, i) && q == p.take(i),
    )
}

/// A nonempty directory name lies on its own chain.
pub proof fn lemma_self_in_chain(p: Seq<u8>)
    requires
        p.len() > 0,
    ensures
        dir_chain(p).contains(p),
{
    assert(boundary(p, p.len() as int));
    assert(p.take(p.len() as int) =~= p);
}

/// The files of the model after a successful atomic write of `content` to
/// `target`: the temporary artifact is gone, the target holds exactly
/// `content`, and every other path is untouched.
pub open spec fn files_after_write(
    files: Map<Seq<u8>, Seq<u8>>,
    target: Seq<u8>,
    content: Seq<u8>,
) -> Map<Seq<u8>, Seq<u8>> {
    files.remove(temp_spec(target)).insert(target, content)
}

/// The directories of the model after a successful atomic write to `target`:
/// the parent chain exists, whether or not it did before, and no other
/// directory is touched.
pub open spec fn dirs_after_write(dirs: Set<Seq<u8>>, target: Seq<u8>) -> Set<Seq<u8>> {
    dirs.union(dir_chain(parent_spec(target)))
}

} // verus!
