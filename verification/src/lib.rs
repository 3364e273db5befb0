//! Session routing and state consistency for a chat relay.
//!
//! The relay core tracks which live connections belong to which users,
//! decides where each chat message goes, and computes the frames that a
//! profile change fans out to. It performs no I/O: every handler takes what
//! the profile store answered as a plain value and returns the frames to
//! push, each addressed to a connection.

pub mod allocator;
pub mod handler;
pub mod identity;
pub mod index;
pub mod protocol;
pub mod registry;
pub mod router;

pub use allocator::Allocation;
pub use handler::{ChatServer, ProfileUpdate, RelayError};
pub use identity::{IDInfo, IDInfoView, WSData};
pub use protocol::Outbound;
pub use registry::SessionRegistry;
pub use router::Route;
pub use index::ConnectionIndex;
