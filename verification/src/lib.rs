//! Peer-to-peer file transfer engine: content import into a content-addressed
//! store, manifest construction, ticket-based peer addressing, a resumable
//! fetch protocol, export back to the filesystem, and progress reporting.
//!
//! The store, the network transport and the host UI are outside collaborators;
//! the engine's decisions are implemented and verified here, and the host
//! drives the I/O around them.

pub mod error;
pub mod export;
pub mod human;
pub mod identity;
pub mod hex;
pub mod import;
pub mod manifest;
pub mod order;
pub mod progress;
pub mod receive;
pub mod registry;
pub mod send;
pub mod text;
pub mod ticket;

pub use error::SendmeError;
pub use human::format_bytes;
pub use progress::{ProgressInfo, ProgressOperation, ProgressStream};
pub use receive::ReceiveResult;
pub use registry::SendmeState;
pub use send::SendResult;
pub use ticket::validate_ticket;
