//! Verified core of a serial hub: TX admission and framing, configuration
//! validation, the event schema, ledger ring and segment store, replay,
//! workflows, Telnet/RFC 2217 decoding, the API's credential checks and the
//! supervisor's cross-profile resource checks.

pub mod text;
pub mod config;
pub mod policy;
pub mod netaddr;
pub mod codec;
pub mod schema;
pub mod store;
pub mod ledger;
pub mod broker;
pub mod bridge;
pub mod workflow;
pub mod runner;
pub mod endpoint;
pub mod rfc2217;
pub mod api;
pub mod supervisor;
pub mod serial;
pub mod replay;
pub mod observe;
