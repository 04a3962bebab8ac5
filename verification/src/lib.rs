//! Verified core of a LINE backup browser and cleanup planner.
//!
//! The library holds the decisions of the tool: path and name rules for
//! backup entries, the cleanup plan and its accounting, candidate archive
//! checks, pagination and text rules. Disk, archive and SQLite access stay
//! with the caller, which hands plain values in and takes plain values back.

pub mod text;
pub mod order;
pub mod cancel;
pub mod digest;
pub mod error;
pub mod model;
pub mod paths;
pub mod catalog;
pub mod source;
pub mod server;
pub mod candidate;
pub mod empty_chats;
pub mod fingerprint;
pub mod chats;
pub mod conversation;
pub mod scan;
