pub mod common;
pub mod errors;
pub mod feed;
pub mod notifications;
pub mod message_store;
pub mod post_store;
pub mod text;
pub mod user_directory;

use vstd::prelude::*;

verus! {

/// Identifier for a registered account. The transport layer resolves its own
/// opaque caller identities into these before invoking any operation; the
/// store only compares and orders them.
pub type UserId = u64;

/// A point in time as reported by the host's clock. Operations that stamp
/// records take the current time as an argument rather than reading a clock.
pub type Timestamp = u64;

} // verus!
