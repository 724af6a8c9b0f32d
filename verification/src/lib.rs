//! A small distributed job-dispatch platform: a central coordinator keeps a
//! fleet of remote agents, claims jobs whose trigger time has arrived,
//! delivers one command per required agent over a framed TCP protocol,
//! ingests per-agent completion reports, and marks a job completed once every
//! required agent has acknowledged.
//!
//! This crate holds the verified core: the wire codec and framing, the
//! document-store state transitions (claiming, `$addToSet` completion
//! bookkeeping, the completion check), the registry and dispatch decisions,
//! and the agent-side executor classification. Sockets, processes and the
//! backing store live outside the library and drive it with plain values.

pub mod agents;
pub mod codec;
pub mod dispatch;
pub mod executor;
pub mod framing;
pub mod info;
pub mod ingest;
pub mod jobs;
pub mod messages;
pub mod runs;
pub mod util;

use vstd::prelude::*;

verus! {

/// Address the coordinator listens on for inbound agent reports.
pub const SERVER_ADDRESS: &'static str = "0.0.0.0:8080";

/// Release tag shown in the startup banners.
pub const VERSION: &'static str = "0.1.0";

} // verus!
