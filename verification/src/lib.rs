//! Request-dispatch and protocol-framing core of a system-monitoring
//! JSON-RPC ("MCP") server.
//!
//! The crate centres on three verified layers shared by both transports:
//! a JSON codec ([`json`] for the model and serializer, [`jparse`] for
//! the parser), the request/response envelope discipline ([`protocol`]),
//! and the method router ([`server`]).  The stdio `Content-Length`
//! framing lives in [`stdio`], the HTTP reply and status decisions in
//! [`http`], the monitor latch in [`monitor`], and the numeric text
//! readers the collectors lean on in [`helpers`].  Host data collection
//! itself (process listings, procfs reads) is an external collaborator:
//! it hands the router plain snapshot values ([`system`]) and performs
//! the operations the router asks for.

pub mod constants;
pub mod helpers;
pub mod http;
pub mod jparse;
pub mod json;
pub mod monitor;
pub mod protocol;
pub mod server;
pub mod stdio;
pub mod system;
