//! Error taxonomy of the gateway core.
//!
//! Tunnel-operation errors are returned to the requesting session and are
//! never fatal to the process; the registry's state stays consistent after
//! any of them. Configuration errors are fatal at startup: the process must
//! not proceed to serve.

use vstd::prelude::*;

verus! {

/// Why a tunnel operation was refused.
#[derive(Clone, Copy, Debug, PartialEq, Eq, Structural)]
pub enum TunnelError {
    /// The requested public port is already bound to an active tunnel.
    PortAlreadyBound,
    /// The requested public port is outside the configured allow-list.
    PortNotAllowed,
    /// The configured cap on active tunnels has been reached.
    CapacityExceeded,
    /// No tunnel (or session) with the given key exists.
    NotFound,
    /// The transport-level listener could not be opened; the reservation for
    /// the port has been rolled back and no partial state survives.
    TransportBindError,
}

impl TunnelError {
    /// A short human-readable description, for logs and replies.
    pub fn message(&self) -> (m: &'static str)
        ensures
            *self is PortAlreadyBound ==> m@ == "port already bound"@,
            *self is PortNotAllowed ==> m@ == "port not allowed"@,
            *self is CapacityExceeded ==> m@ == "capacity exceeded"@,
            *self is NotFound ==> m@ == "not found"@,
            *self is TransportBindError ==> m@ == "transport bind error"@,
    {
        match self {
            TunnelError::PortAlreadyBound => "port already bound",
            TunnelError::PortNotAllowed => "port not allowed",
            TunnelError::CapacityExceeded => "capacity exceeded",
            TunnelError::NotFound => "not found",
            TunnelError::TransportBindError => "transport bind error",
        }
    }
}

/// Why the configuration could not be loaded. Either way the process must
/// exit before binding any socket.
#[derive(Clone, Copy, Debug, PartialEq, Eq, Structural)]
pub enum ConfigError {
    /// A required key is absent from the supplied environment.
    MissingKey,
    /// Every required key is present, but some value does not parse.
    MalformedValue,
}

impl ConfigError {
    /// A short human-readable description, for the fatal startup report.
    pub fn message(&self) -> (m: &'static str)
        ensures
            *self is MissingKey ==> m@ == "missing configuration key"@,
            *self is MalformedValue ==> m@ == "malformed configuration value"@,
    {
        match self {
            ConfigError::MissingKey => "missing configuration key",
            ConfigError::MalformedValue => "malformed configuration value",
        }
    }
}

} // verus!
