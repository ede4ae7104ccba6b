//! The atomic-replace protocol. A [`Writer`] session decides the ordered
//! sequence of filesystem steps: create the parent chain, clear a stale
//! temporary artifact, create the artifact exclusively, write the payload,
//! force it durable, and commit by rename. The session only decides; whoever
//! runs it performs each [`Action`] and reports an [`Event`] back. The
//! function [`safe_write`] runs a session against the in-memory filesystem
//! of [`crate::sim`] and is proved to produce exactly the model outcome of
//! [`crate::model`].
//!
//! The commit diverges by platform, chosen once at session construction: a
//! platform whose rename replaces an existing file atomically commits in one
//! step; one that does not must remove the existing target first, which opens
//! the documented window in which the target is absent.

use vstd::prelude::*;

use crate::model::dirs_after_write;
use crate::model::files_after_write;
use crate::paths::lemma_temp_parent;
use crate::paths::parent_dir;
use crate::paths::parent_spec;
use crate::paths::temp_path;
use crate::paths::temp_spec;
use crate::sim::SimFs;

verus! {

/// Where a write session stands.
#[derive(Clone, Copy, Debug, PartialEq, Eq, Structural)]
pub enum Phase {
    /// Nothing done yet; the parent directory chain comes first.
    Start,
    /// The parent chain exists; look for a stale temporary artifact.
    ParentReady,
    /// A stale temporary artifact occupies the derived name; remove it.
    StalePresent,
    /// The derived name is free; create the artifact exclusively.
    TempClear,
    /// The artifact is open; write the payload to it.
    TempOpen,
    /// The payload is written; force it to durable storage and close.
    Written,
    /// Durable, but this platform cannot rename over an existing file;
    /// look whether the target exists.
    TargetUnknown,
    /// The target exists and is in the way; remove it (the non-atomic
    /// window of the remove-then-rename platform).
    TargetPresent,
    /// Commit: rename the artifact onto the target.
    ReadyToRename,
    /// The write is complete.
    Done,
    /// A step failed, or an event arrived that the pending action cannot
    /// produce; the session performs nothing further.
    Failed,
}

/// The single filesystem step a session asks for next.
#[derive(Clone, Copy, Debug, PartialEq, Eq, Structural)]
pub enum Action {
    /// Create the parent directory chain (idempotent).
    EnsureDir,
    /// Report whether a file occupies the temporary path.
    ProbeTemp,
    /// Remove the file at the temporary path.
    RemoveTemp,
    /// Create the file at the temporary path, failing if one appeared.
    CreateTemp,
    /// Write the whole payload to the temporary file.
    WriteContent,
    /// Flush and sync the temporary file to storage, then close it.
    SyncClose,
    /// Report whether a file occupies the target path.
    ProbeTarget,
    /// Remove the file at the target path.
    RemoveTarget,
    /// Rename the temporary path onto the target path.
    Rename,
    /// Nothing: the session is finished or has failed.
    Idle,
}

/// What the performed action reported.
#[derive(Clone, Copy, Debug, PartialEq, Eq, Structural)]
pub enum Event {
    /// The step succeeded.
    Success,
    /// The step failed; the session stops.
    Failure,
    /// The probed path holds a file.
    Present,
    /// The probed path holds nothing.
    Absent,
}

/// The action pending in phase `ph`.
pub open spec fn phase_action(ph: Phase) -> Action {
    match ph {
        Phase::Start => Action::EnsureDir,
        Phase::ParentReady => Action::ProbeTemp,
        Phase::StalePresent => Action::RemoveTemp,
        Phase::TempClear => Action::CreateTemp,
        Phase::TempOpen => Action::WriteContent,
        Phase::Written => Action::SyncClose,
        Phase::TargetUnknown => Action::ProbeTarget,
        Phase::TargetPresent => Action::RemoveTarget,
        Phase::ReadyToRename => Action::Rename,
        Phase::Done => Action::Idle,
        Phase::Failed => Action::Idle,
    }
}

/// The phase that follows `ph` when the pending action reports `ev`;
/// `replace_via_rename` is the platform capability fixed at construction.
/// Any failure, and any event the pending action cannot produce, ends in
/// `Failed`.
pub open spec fn next_phase(ph: Phase, replace_via_rename: bool, ev: Event) -> Phase {
    match (ph, ev) {
        (Phase::Start, Event::Success) => Phase::ParentReady,
        (Phase::ParentReady, Event::Present) => Phase::StalePresent,
        (Phase::ParentReady, Event::Absent) => Phase::TempClear,
        (Phase::StalePresent, Event::Success) => Phase::TempClear,
        (Phase::TempClear, Event::Success) => Phase::TempOpen,
        (Phase::TempOpen, Event::Success) => Phase::Written,
        (Phase::Written, Event::Success) => if replace_via_rename {
            Phase::ReadyToRename
        } else {
            Phase::TargetUnknown
        },
        (Phase::TargetUnknown, Event::Present) => Phase::TargetPresent,
        (Phase::TargetUnknown, Event::Absent) => Phase::ReadyToRename,
        (Phase::TargetPresent, Event::Success) => Phase::ReadyToRename,
        (Phase::ReadyToRename, Event::Success) => Phase::Done,
        (_, _) => Phase::Failed,
    }
}

/// One atomic write in flight: the paths it derived, the platform's commit
/// capability, and the phase reached. The session holds no file contents;
/// the runner hands the payload to the write step itself.
pub struct Writer {
    /// The path being replaced.
    pub target: Vec<u8>,
    /// The temporary artifact's path, derived from `target`.
    pub temp: Vec<u8>,
    /// The parent directory of `target`, derived from it.
    pub parent: Vec<u8>,
    /// Whether this platform's rename atomically replaces an existing file.
    pub replace_via_rename: bool,
    /// Where the session stands.
    pub phase: Phase,
}

impl Writer {
    /// The derived names belong to the target.
    pub open spec fn wf(self) -> bool {
        &&& self.temp@ == temp_spec(self.target@)
        &&& self.parent@ == parent_spec(self.target@)
    }

    /// Opens a session for `target`: derives the temporary and parent paths
    /// and stands at the first step.
    pub fn new(target: &[u8], replace_via_rename: bool) -> (w: Writer)
        ensures
            w.wf(),
            w.target@ == target@,
            w.replace_via_rename == replace_via_rename,
            w.phase == Phase::Start,
    {
        let temp = temp_path(target);
        let parent = parent_dir(target);
        Writer {
            target: crate::paths::copy_bytes(target),
            temp,
            parent,
            replace_via_rename,
            phase: Phase::Start,
        }
    }

    /// The step to perform now.
    pub fn action(&self) -> (a: Action)
        ensures
            a == phase_action(self.phase),
    {
        match self.phase {
            Phase::Start => Action::EnsureDir,
            Phase::ParentReady => Action::ProbeTemp,
            Phase::StalePresent => Action::RemoveTemp,
            Phase::TempClear => Action::CreateTemp,
            Phase::TempOpen => Action::WriteContent,
            Phase::Written => Action::SyncClose,
            Phase::TargetUnknown => Action::ProbeTarget,
            Phase::TargetPresent => Action::RemoveTarget,
            Phase::ReadyToRename => Action::Rename,
            Phase::Done => Action::Idle,
            Phase::Failed => Action::Idle,
        }
    }

    /// Takes the performed step's report and moves to the next phase;
    /// everything else about the session stays as it was.
    pub fn advance(&mut self, ev: Event)
        ensures
            final(self).phase == next_phase(old(self).phase, old(self).replace_via_rename, ev),
            final(self).target == old(self).target,
            final(self).temp == old(self).temp,
            final(self).parent == old(self).parent,
            final(self).replace_via_rename == old(self).replace_via_rename,
    {
        let next: Phase = match (self.phase, ev) {
            (Phase::Start, Event::Success) => Phase::ParentReady,
            (Phase::ParentReady, Event::Present) => Phase::StalePresent,
            (Phase::ParentReady, Event::Absent) => Phase::TempClear,
            (Phase::StalePresent, Event::Success) => Phase::TempClear,
            (Phase::TempClear, Event::Success) => Phase::TempOpen,
            (Phase::TempOpen, Event::Success) => Phase::Written,
            (Phase::Written, Event::Success) => if self.replace_via_rename {
                Phase::ReadyToRename
            } else {
                Phase::TargetUnknown
            },
            (Phase::TargetUnknown, Event::Present) => Phase::TargetPresent,
            (Phase::TargetUnknown, Event::Absent) => Phase::ReadyToRename,
            (Phase::TargetPresent, Event::Success) => Phase::ReadyToRename,
            (Phase::ReadyToRename, Event::Success) => Phase::Done,
            (_, _) => Phase::Failed,
        };
        self.phase = next;
    }
}

/// Replaces the contents of `target` with `content` on the filesystem `fs`,
/// running the protocol session step by step. On a platform whose rename
/// replaces atomically (`replace_via_rename`), any existing target is
/// swapped in one step; on the other platform the target is removed first,
/// and a target that collides with its own temporary name is excluded there,
/// since removing the target would remove the artifact just written.
///
/// The result is exactly the model outcome: the target holds `content`, the
/// temporary artifact is gone, the parent chain exists, and nothing else
/// changed.
pub fn safe_write(fs: &mut SimFs, target: &[u8], content: &[u8], replace_via_rename: bool)
    requires
        old(fs).inv(),
        !replace_via_rename ==> temp_spec(target@) != target@,
    ensures
        final(fs).inv(),
        final(fs).files_view() == files_after_write(old(fs).files_view(), target@, content@),
        final(fs).dirs_view() == dirs_after_write(old(fs).dirs_view(), target@),
{
    let mut w = Writer::new(target, replace_via_rename);

    // Step 1: the parent directory chain, created idempotently.
    fs.ensure_dir(w.parent.as_slice());
    w.advance(Event::Success);

    // Step 2: a stale temporary artifact from an interrupted run is removed.
    let stale = fs.file_exists(w.temp.as_slice());
    if stale {
        w.advance(Event::Present);
        fs.remove_file(w.temp.as_slice());
        w.advance(Event::Success);
    } else {
        w.advance(Event::Absent);
    }
    proof {
        assert(fs.files_view() =~= old(fs).files_view().remove(temp_spec(target@)));
    }

    // Step 3: the artifact is created exclusively, beside the target.
    proof {
        lemma_temp_parent(target@);
        crate::paths::lemma_parent_nonempty(target@);
        crate::model::lemma_self_in_chain(parent_spec(target@));
    }
    fs.create_exclusive(w.temp.as_slice());
    w.advance(Event::Success);

    // Step 4: the whole payload goes into the artifact.
    fs.write_all(w.temp.as_slice(), content);
    w.advance(Event::Success);

    // Step 5: the durability barrier; the model is already durable, so the
    // step only moves the session on.
    w.advance(Event::Success);

    // Step 6: commit. Without replace-via-rename an existing target must be
    // removed first: the non-atomic window.
    if !w.replace_via_rename {
        let in_way = fs.file_exists(w.target.as_slice());
        if in_way {
            w.advance(Event::Present);
            fs.remove_file(w.target.as_slice());
            w.advance(Event::Success);
        } else {
            w.advance(Event::Absent);
        }
    }
    fs.rename(w.temp.as_slice(), w.target.as_slice());
    w.advance(Event::Success);
    assert(w.phase == Phase::Done);

    proof {
        assert(fs.files_view() =~= files_after_write(old(fs).files_view(), target@, content@));
    }
}

} // verus!
