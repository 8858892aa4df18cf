//! Core of a reverse-tunnel gateway: authenticated sessions register a public
//! port, and inbound connections on that port are relayed byte-for-byte to a
//! local target chosen by the session.
//!
//! This crate holds the verified heart of the gateway: the tunnel registry
//! (port allocation, admission checks, rollback, session-scoped teardown), the
//! access policy, the per-tunnel accept-loop lifecycle, the per-connection
//! relay engine, and the configuration parsing. The surrounding process —
//! sockets, tasks, the status page — drives these components and performs the
//! I/O they decide on.

pub mod config;
pub mod errors;
pub mod forwarder;
pub mod policy;
pub mod registry;
pub mod relay;
pub mod text;
