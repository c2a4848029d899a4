//! Client-side core of a container-image build session: the data model for
//! build configuration, the FileSync transfer protocol (STAT/REQ/DATA/FIN),
//! the auxiliary auth/secrets/health handlers, and the solve request plan.

pub mod assoc;
pub mod builder;
pub mod frame;
pub mod proto;
pub mod session;
pub mod solve;
pub mod text;
pub mod wire;

pub use builder::{ArgMap, BuildConfig, DockerfileSource, Platform, RegistryAuth};
pub use solve::BuildResult;

use vstd::prelude::*;

verus! {

/// What can go wrong before or during a build, at this library's boundary.
#[derive(Debug, Clone, Copy, PartialEq, Eq, Structural)]
pub enum BuildError {
    /// A platform string did not have the `os/arch` or `os/arch/variant` shape.
    InvalidPlatform,
    /// The build context path does not exist.
    ContextMissing,
    /// The build context path exists but is not a directory.
    ContextNotDirectory,
    /// A secret larger than the per-secret ceiling was offered.
    SecretTooLarge,
    /// The requested Dockerfile is not present at the context root.
    DockerfileMissing,
    /// A message was sent on a session that was never started.
    SessionNotStarted,
}

impl BuildError {
    /// A short human-readable description of the error.
    pub fn message(&self) -> String {
        match self {
            BuildError::InvalidPlatform => String::from_str("invalid platform format"),
            BuildError::ContextMissing => String::from_str("context path does not exist"),
            BuildError::ContextNotDirectory => String::from_str("context path is not a directory"),
            BuildError::SecretTooLarge => String::from_str("secret size exceeds maximum"),
            BuildError::DockerfileMissing => String::from_str("Dockerfile not found"),
            BuildError::SessionNotStarted => String::from_str("session not started"),
        }
    }
}

} // verus!
