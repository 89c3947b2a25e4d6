//! A bounded local API transported over a Unix domain socket.
//!
//! Each connection carries exactly one length-prefixed request and one response. The API never
//! listens on a network interface.

use vstd::prelude::*;

use crate::time::{Duration, NANOS_PER_SECOND};

pub mod client;
pub mod daemon;
pub mod frame;
pub mod service;
pub mod socket;

verus! {

/// The most bytes of a frame by default.
pub const DEFAULT_MAX_FRAME_BYTES: usize = 65_536;

/// The events of a page by default.
pub const DEFAULT_EVENT_PAGE_SIZE: u16 = 100;

/// The most events of a page.
pub const MAX_EVENT_PAGE_SIZE: u16 = 256;

/// The version that is spoken.
pub const PROTOCOL_VERSION: u16 = 4;

/// The oldest version that is understood.
pub const MIN_SUPPORTED_PROTOCOL_VERSION: u16 = 4;

/// The newest version that is understood.
pub const MAX_SUPPORTED_PROTOCOL_VERSION: u16 = 4;

/// The least limit on frames that can be configured.
pub const MIN_MAX_FRAME_BYTES: usize = 1_024;

/// The greatest limit on frames that can be configured.
pub const MAX_MAX_FRAME_BYTES: usize = 1_048_576;

/// The seconds that a connection may take by default.
pub const DEFAULT_CONNECTION_TIMEOUT_SECONDS: u64 = 5;

/// Limits on connections.
#[derive(Clone, Copy, Debug, PartialEq, Eq, Structural)]
pub struct ServerConfig {
    pub max_frame_bytes: usize,
    pub connection_timeout: Duration,
}

impl Default for ServerConfig {
    fn default() -> (r: Self)
        ensures
            r.max_frame_bytes == DEFAULT_MAX_FRAME_BYTES,
            r.connection_timeout.nanos == DEFAULT_CONNECTION_TIMEOUT_SECONDS * NANOS_PER_SECOND,
    {
        ServerConfig {
            max_frame_bytes: DEFAULT_MAX_FRAME_BYTES,
            connection_timeout: Duration::from_secs(DEFAULT_CONNECTION_TIMEOUT_SECONDS),
        }
    }
}

impl ServerConfig {
    /// Whether the limits can be used.
    pub open spec fn usable(self) -> bool {
        MIN_MAX_FRAME_BYTES <= self.max_frame_bytes <= MAX_MAX_FRAME_BYTES
            && self.connection_timeout.nanos > 0
    }

    /// The limits, if they can be used.
    pub fn validate(self) -> (r: Result<ServerConfig, LocalApiError>)
        ensures
            r == (if self.usable() {
                Ok::<ServerConfig, LocalApiError>(self)
            } else {
                Err(LocalApiError::InvalidConfig)
            }),
    {
        if self.max_frame_bytes < MIN_MAX_FRAME_BYTES || self.max_frame_bytes
            > MAX_MAX_FRAME_BYTES || self.connection_timeout.is_zero() {
            return Err(LocalApiError::InvalidConfig);
        }
        Ok(self)
    }
}

/// Failures of the transport.
#[derive(Clone, Copy, Debug, PartialEq, Eq, Structural)]
pub enum LocalApiError {
    InvalidConfig,
    UnsafeSocketDirectory,
    SocketAlreadyExists,
    FrameTooLarge,
    Protocol,
    Io,
}

impl LocalApiError {
    /// The text of the failure.
    pub open spec fn text(self) -> Seq<char> {
        match self {
            LocalApiError::InvalidConfig => "invalid local API configuration"@,
            LocalApiError::UnsafeSocketDirectory => "socket directory permissions are unsafe"@,
            LocalApiError::SocketAlreadyExists => "socket path already exists"@,
            LocalApiError::FrameTooLarge => "frame exceeds configured limit"@,
            LocalApiError::Protocol => "invalid local API protocol data"@,
            LocalApiError::Io => "local API I/O failure"@,
        }
    }

    /// The text of the failure.
    #[must_use]
    pub fn display(&self) -> (r: &'static str)
        ensures
            r@ == self.text(),
    {
        match self {
            LocalApiError::InvalidConfig => "invalid local API configuration",
            LocalApiError::UnsafeSocketDirectory => "socket directory permissions are unsafe",
            LocalApiError::SocketAlreadyExists => "socket path already exists",
            LocalApiError::FrameTooLarge => "frame exceeds configured limit",
            LocalApiError::Protocol => "invalid local API protocol data",
            LocalApiError::Io => "local API I/O failure",
        }
    }
}

} // verus!
