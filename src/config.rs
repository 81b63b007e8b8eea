//! The run's settings, fixed at startup and shared read-only.
use vstd::prelude::*;

use crate::codec::HEADER_LEN;
use crate::endpoint::Endpoint;

verus! {

/// Which halves of the tool a run starts.
#[derive(Debug, Clone, Copy, PartialEq, Eq, Structural)]
pub enum RunMode {
    Client,
    Server,
    Both,
}

impl RunMode {
    /// The mode asked for by the two flags: neither or both mean both halves.
    pub fn from_flags(client: bool, server: bool) -> (r: RunMode)
        ensures
            r == (if client == server {
                RunMode::Both
            } else if client {
                RunMode::Client
            } else {
                RunMode::Server
            }),
    {
        if client == server {
            RunMode::Both
        } else if client {
            RunMode::Client
        } else {
            RunMode::Server
        }
    }

    pub fn runs_client(&self) -> (r: bool)
        ensures
            r == (*self != RunMode::Server),
    {
        match self {
            RunMode::Server => false,
            _ => true,
        }
    }

    pub fn runs_server(&self) -> (r: bool)
        ensures
            r == (*self != RunMode::Client),
    {
        match self {
            RunMode::Client => false,
            _ => true,
        }
    }
}

#[derive(Debug, Clone, Copy, PartialEq, Eq, Structural)]
pub enum ConfigError {
    /// The packet rate is zero.
    ZeroRate,
    /// The packet size cannot hold the header.
    PacketTooSmall,
    /// Running both halves needs a network namespace for the receiver.
    NamespaceRequired,
}

#[derive(Debug, Clone)]
pub struct Config {
    /// Datagrams per batch, one batch per second.
    pub packet_rate: usize,
    /// Size in bytes of each datagram sent, and of the receive buffer.
    pub packet_size: usize,
    /// Where the sender sends to, and where the receiver listens.
    pub remote: Endpoint,
    pub output_path: String,
    pub network_namespace: Option<String>,
}

/// What `Config::validate` answers for these settings.
pub open spec fn validation(
    packet_rate: usize,
    packet_size: usize,
    has_namespace: bool,
    mode: RunMode,
) -> Result<(), ConfigError> {
    if packet_rate == 0 {
        Err(ConfigError::ZeroRate)
    } else if packet_size < HEADER_LEN {
        Err(ConfigError::PacketTooSmall)
    } else if mode == RunMode::Both && !has_namespace {
        Err(ConfigError::NamespaceRequired)
    } else {
        Ok(())
    }
}

impl Config {
    pub fn new(
        packet_rate: usize,
        packet_size: usize,
        remote: Endpoint,
        output_path: String,
        network_namespace: Option<String>,
    ) -> (r: Config)
        ensures
            r.packet_rate == packet_rate,
            r.packet_size == packet_size,
            r.remote == remote,
            r.output_path == output_path,
            r.network_namespace == network_namespace,
    {
        Config { packet_rate, packet_size, remote, output_path, network_namespace }
    }

    /// Checks the settings that can be checked without the file system.
    pub fn validate(&self, mode: RunMode) -> (r: Result<(), ConfigError>)
        ensures
            r == validation(
                self.packet_rate,
                self.packet_size,
                self.network_namespace is Some,
                mode,
            ),
    {
        if self.packet_rate == 0 {
            Err(ConfigError::ZeroRate)
        } else if self.packet_size < HEADER_LEN {
            Err(ConfigError::PacketTooSmall)
        } else if mode == RunMode::Both && self.network_namespace.is_none() {
            Err(ConfigError::NamespaceRequired)
        } else {
            Ok(())
        }
    }
}

} // verus!
