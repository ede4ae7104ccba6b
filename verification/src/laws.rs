//! What a caller of the atomic writer may rely on, proved over the model of
//! [`crate::model`]. The verified driver [`crate::protocol::safe_write`]
//! ensures that a successful write takes the filesystem to exactly
//! `files_after_write` and `dirs_after_write`; the laws here say what those
//! outcomes mean, and what every intermediate step of the protocol leaves
//! visible.

use vstd::prelude::*;

use crate::model::dir_chain;
use crate::model::dirs_after_write;
use crate::model::files_after_write;
use crate::model::lookup;
use crate::paths::parent_spec;
use crate::paths::temp_spec;

verus! {

/// Round-trip: after a write of any contents — the empty sequence included —
/// the target reads back exactly those contents, whether or not it existed
/// before; and every path other than the target and its temporary artifact
/// is untouched.
pub proof fn lemma_round_trip(files: Map<Seq<u8>, Seq<u8>>, target: Seq<u8>, content: Seq<u8>)
    ensures
        lookup(files_after_write(files, target, content), target) == Some(content),
        forall|q: Seq<u8>|
            q != target && q != temp_spec(target) ==> lookup(
                files_after_write(files, target, content),
                q,
            ) == lookup(files, q),
{
}

/// Overwrite: writing `first` and then `second` to one target leaves exactly
/// `second` readable there, no temporary artifact behind, and the filesystem
/// as if only `second` had ever been written — no trace of `first` remains.
/// A target whose own name is already the derived temporary name is the
/// documented collision of the naming scheme and is excluded.
pub proof fn lemma_overwrite(
    files: Map<Seq<u8>, Seq<u8>>,
    target: Seq<u8>,
    first: Seq<u8>,
    second: Seq<u8>,
)
    requires
        temp_spec(target) != target,
    ensures
        ({
            let once = files_after_write(files, target, first);
            let twice = files_after_write(once, target, second);
            &&& lookup(twice, target) == Some(second)
            &&& !twice.contains_key(temp_spec(target))
            &&& twice == files_after_write(files, target, second)
        }),
{
    let once = files_after_write(files, target, first);
    let twice = files_after_write(once, target, second);
    assert(twice =~= files_after_write(files, target, second));
}

/// Directory auto-creation: after a write, every directory on the chain
/// leading to the target's parent — the parent itself included — exists,
/// however much of the chain was missing before.
pub proof fn lemma_directory_creation(dirs: Set<Seq<u8>>, target: Seq<u8>)
    ensures
        dir_chain(parent_spec(target)).subset_of(dirs_after_write(dirs, target)),
        dirs.subset_of(dirs_after_write(dirs, target)),
{
}

/// No partial visibility, on the platform whose rename replaces atomically:
/// a reader of the target sees, at every step of a write, exactly what it
/// saw before the write — until the single commit step, after which it sees
/// the complete new contents. No intermediate step exposes a partial state
/// at the target. The excluded case is the naming-scheme collision, where
/// the target itself is the temporary name.
pub proof fn lemma_no_partial_visibility(
    files: Map<Seq<u8>, Seq<u8>>,
    target: Seq<u8>,
    content: Seq<u8>,
)
    requires
        temp_spec(target) != target,
    ensures
        ({
            let temp = temp_spec(target);
            let after_clear = files.remove(temp);
            let after_create = after_clear.insert(temp, Seq::<u8>::empty());
            let after_payload = after_create.insert(temp, content);
            let after_commit = after_payload.remove(temp).insert(target, content);
            &&& lookup(after_clear, target) == lookup(files, target)
            &&& lookup(after_create, target) == lookup(files, target)
            &&& lookup(after_payload, target) == lookup(files, target)
            &&& lookup(after_commit, target) == Some(content)
            &&& after_commit == files_after_write(files, target, content)
        }),
{
    let temp = temp_spec(target);
    let after_payload = files.remove(temp).insert(temp, Seq::<u8>::empty()).insert(temp, content);
    assert(after_payload.remove(temp).insert(target, content) =~= files_after_write(
        files,
        target,
        content,
    ));
}

/// On the platform that must remove the target before the rename, a reader
/// sees the old contents up to the removal, then — in the documented
/// exposure window — nothing at all, then the complete new contents; never
/// a partial state.
pub proof fn lemma_no_partial_visibility_remove_then_rename(
    files: Map<Seq<u8>, Seq<u8>>,
    target: Seq<u8>,
    content: Seq<u8>,
)
    requires
        temp_spec(target) != target,
    ensures
        ({
            let temp = temp_spec(target);
            let after_payload = files.remove(temp).insert(temp, Seq::<u8>::empty()).insert(
                temp,
                content,
            );
            let window = after_payload.remove(target);
            let after_commit = window.remove(temp).insert(target, content);
            &&& lookup(after_payload, target) == lookup(files, target)
            &&& lookup(window, target) == None::<Seq<u8>>
            &&& lookup(after_commit, target) == Some(content)
            &&& after_commit == files_after_write(files, target, content)
        }),
{
    let temp = temp_spec(target);
    let after_payload = files.remove(temp).insert(temp, Seq::<u8>::empty()).insert(temp, content);
    assert(after_payload.remove(target).remove(temp).insert(target, content)
        =~= files_after_write(files, target, content));
}

/// Stale-temp recovery: a leftover temporary artifact from an interrupted
/// run — whatever it holds — changes nothing about the outcome of the next
/// write to the same target.
pub proof fn lemma_stale_temp_recovery(
    files: Map<Seq<u8>, Seq<u8>>,
    target: Seq<u8>,
    stale: Seq<u8>,
    content: Seq<u8>,
)
    ensures
        files_after_write(files.insert(temp_spec(target), stale), target, content)
            == files_after_write(files, target, content),
{
    assert(files_after_write(files.insert(temp_spec(target), stale), target, content)
        =~= files_after_write(files, target, content));
}

/// Idempotent directory creation: a second write under the same parent
/// directory finds the chain already in place and adds nothing.
pub proof fn lemma_directory_creation_idempotent(
    dirs: Set<Seq<u8>>,
    first_target: Seq<u8>,
    second_target: Seq<u8>,
)
    requires
        parent_spec(first_target) == parent_spec(second_target),
    ensures
        dirs_after_write(dirs_after_write(dirs, first_target), second_target) == dirs_after_write(
            dirs,
            first_target,
        ),
{
    assert(dirs_after_write(dirs_after_write(dirs, first_target), second_target)
        =~= dirs_after_write(dirs, first_target));
}

} // verus!
