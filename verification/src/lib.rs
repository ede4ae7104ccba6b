//! An atomic file writer: a target path is replaced by new contents in an
//! all-or-nothing step, so a reader (or a crash) never sees a partial write.
//!
//! The protocol orders the filesystem operations: create the parent
//! directory chain, remove a stale temporary artifact, create the artifact
//! exclusively beside the target, write the payload, force it to durable
//! storage, then commit by renaming the artifact onto the target. The commit
//! diverges by platform: where rename replaces an existing file atomically
//! it is one step; where it does not, the existing target is removed first —
//! a documented non-atomic window.
//!
//! The modules divide the work:
//! - [`paths`] derives the parent directory and the temporary artifact's name;
//! - [`model`] states what a successful write does to a model filesystem;
//! - [`protocol`] is the protocol itself: a session that decides each step,
//!   and a driver proved correct against the in-memory filesystem;
//! - [`sim`] is that in-memory filesystem, each operation verified against
//!   the model;
//! - [`laws`] proves the properties a caller relies on.

pub mod laws;
pub mod model;
pub mod paths;
pub mod protocol;
pub mod sim;

pub use paths::parent_dir;
pub use paths::temp_path;
pub use protocol::safe_write;
pub use protocol::Action;
pub use protocol::Event;
pub use protocol::Phase;
pub use protocol::Writer;
pub use sim::SimFs;
