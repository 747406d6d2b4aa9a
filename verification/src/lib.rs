//! Preserves the on-screen geometry and visibility of an application's
//! windows across process restarts.
//!
//! The core is a cache mapping each window's label to its last-known
//! geometry and visibility, together with the protocol that keeps the
//! cache synchronized with live window events, the protocol that
//! restores or snapshots a window when it becomes ready, and a binary
//! codec for persisting the whole cache to a single file.

use vstd::prelude::*;

pub mod codec;
pub mod config;
pub mod laws;
pub mod metadata;
pub mod protocol;
pub mod store;

pub use codec::deserialize_store;
pub use codec::load_store;
pub use codec::serialize_store;
pub use config::Builder;
pub use metadata::Position;
pub use metadata::Size;
pub use metadata::WindowMetadata;
pub use protocol::ReadyAction;
pub use protocol::ReadyOutcome;
pub use protocol::on_close_requested;
pub use protocol::on_moved;
pub use protocol::on_resized;
pub use protocol::window_ready;
pub use store::WindowStore;

verus! {

/// The name of the persistence file inside the application's data
/// directory.
pub const STATE_FILENAME: &'static str = ".window-state";

} // verus!
