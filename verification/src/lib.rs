//! Core of a chat client that synchronizes a local view of rooms and
//! messages against a remote chat service.
//!
//! The crate holds the verified logic: the message ledger that diffs a
//! freshly fetched page against what has already been seen, the room
//! catalog normalization done once at startup, the session state that
//! decides which requests the transport workers perform, and the JSON
//! encoding of outgoing message bodies. Transport, configuration files
//! and presentation are left to the surrounding application.

pub mod catalog;
pub mod config;
pub mod json;
pub mod ledger;
pub mod model;
pub mod order;
pub mod present;
pub mod session;
