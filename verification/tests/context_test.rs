//! Tests for context validation and the platform round trip.

use buildkit_client::session::FileSync;
use buildkit_client::{BuildError, Platform};

#[test]
fn test_platform_parse_emit_round_trip() {
    // Two slash-separated pieces parse and emit back unchanged.
    assert_eq!(Platform::parse("linux/amd64").unwrap().to_string(), "linux/amd64");
    // Three pieces keep their variant.
    assert_eq!(Platform::parse("linux/arm64/v8").unwrap().to_string(), "linux/arm64/v8");
    // Any other piece count fails.
    assert!(Platform::parse("linux").is_err());
    assert!(Platform::parse("a/b/c/d").is_err());
}

#[test]
fn test_context_validation() {
    let fs = FileSync::new("./ctx".to_string());
    assert_eq!(fs.path(), "./ctx");

    assert!(fs.validate(true, true).is_ok());
    assert_eq!(fs.validate(false, false).unwrap_err(), BuildError::ContextMissing);
    assert_eq!(fs.validate(false, true).unwrap_err(), BuildError::ContextMissing);
    assert_eq!(fs.validate(true, false).unwrap_err(), BuildError::ContextNotDirectory);
}

#[test]
fn test_error_messages() {
    assert_eq!(BuildError::DockerfileMissing.message(), "Dockerfile not found");
    assert_eq!(BuildError::InvalidPlatform.message(), "invalid platform format");
    assert_eq!(BuildError::SecretTooLarge.message(), "secret size exceeds maximum");
}
