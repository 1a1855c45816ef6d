//! Discovery of local development servers.
//!
//! The library turns the text produced by the host's socket/process
//! enumeration tools into a deduplicated, port-sorted list of development
//! servers: it parses raw listener records out of the enumerator output,
//! decides which owning processes look like development tooling, labels each
//! discovered port with a likely framework or service, and merges the
//! listener records that share a port into one logical entry.  It also
//! models the sequential force-termination of the owning processes and a
//! few small helpers around project scaffolding.  Everything here is pure
//! computation; running the enumeration commands and issuing the kill
//! signals is left to the surrounding application.

pub mod aggregate;
pub mod classify;
pub mod kill;
pub mod listener;
pub mod queen;
pub mod scan;
pub mod service;
pub mod split;
pub mod text;
