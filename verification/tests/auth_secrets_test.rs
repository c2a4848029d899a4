//! Tests for the auth and secrets services and their tunneled handlers.

use buildkit_client::session::auth::{AuthServer, RegistryAuthConfig};
use buildkit_client::session::grpc_tunnel::{
    route_of, GrpcTunnel, Route, GRPC_NOT_FOUND, GRPC_OK, GRPC_UNIMPLEMENTED,
};
use buildkit_client::session::secrets::{SecretsServer, MAX_SECRET_SIZE};
use buildkit_client::BuildError;

fn registry(host: &str, user: &str, pass: &str) -> RegistryAuthConfig {
    RegistryAuthConfig {
        host: host.to_string(),
        username: user.to_string(),
        password: pass.to_string(),
    }
}

/// The encoding of a one-string-field request, as the daemon sends for
/// credentials and secrets.
fn string1_request(value: &str) -> Vec<u8> {
    let mut bytes = vec![0x0Au8, value.len() as u8];
    bytes.extend_from_slice(value.as_bytes());
    bytes
}

#[test]
fn test_docker_io_alias_matches() {
    // `docker.io` registered; the daemon asks for `registry-1.docker.io`.
    let mut auth = AuthServer::new();
    auth.add_registry(registry("docker.io", "u", "p"));

    let found = auth.find_credentials("registry-1.docker.io");
    assert!(found.is_some());
    assert_eq!(found.unwrap().username, "u");

    let found = auth.find_credentials("index.docker.io");
    assert!(found.is_some());

    let (user, pass) = auth.credentials("registry-1.docker.io");
    assert_eq!(user, "u");
    assert_eq!(pass, "p");
}

#[test]
fn test_unknown_host_is_anonymous() {
    let mut auth = AuthServer::new();
    auth.add_registry(registry("docker.io", "u", "p"));

    assert!(auth.find_credentials("ghcr.io").is_none());
    let (user, pass) = auth.credentials("ghcr.io");
    assert_eq!(user, "");
    assert_eq!(pass, "");
}

#[test]
fn test_substring_host_matches() {
    let mut auth = AuthServer::new();
    auth.add_registry(registry("example.com", "eu", "ep"));

    // The requested host contains the registered one.
    let found = auth.find_credentials("registry.example.com");
    assert!(found.is_some());
    assert_eq!(found.unwrap().username, "eu");
}

#[test]
fn test_add_registry_twice_same_lookup() {
    // Registering the same entry twice changes no lookup.
    let mut once = AuthServer::new();
    once.add_registry(registry("docker.io", "u", "p"));

    let mut twice = AuthServer::new();
    twice.add_registry(registry("docker.io", "u", "p"));
    twice.add_registry(registry("docker.io", "u", "p"));

    for host in ["docker.io", "registry-1.docker.io", "ghcr.io", "localhost:5000"] {
        assert_eq!(once.credentials(host), twice.credentials(host));
    }
}

#[test]
fn test_credentials_handler() {
    // Configured with docker.io; the daemon asks for the real registry
    // host and gets the pair, and for an unknown host gets two empty
    // strings with status zero.
    let mut auth = AuthServer::new();
    auth.add_registry(registry("docker.io", "u", "p"));
    let tunnel = GrpcTunnel::new(None, Some(auth), None);

    let reply = tunnel.handle_unary(Route::AuthCredentials, &string1_request("registry-1.docker.io"));
    assert_eq!(reply.status, GRPC_OK);
    // Field 1 `u`, field 2 `p`.
    assert_eq!(reply.payload, vec![0x0A, 1, b'u', 0x12, 1, b'p']);

    let reply = tunnel.handle_unary(Route::AuthCredentials, &string1_request("ghcr.io"));
    assert_eq!(reply.status, GRPC_OK);
    assert!(reply.payload.is_empty());
}

#[test]
fn test_secret_size_boundary() {
    // Exactly the ceiling is accepted; one more byte is rejected and
    // leaves the store unchanged.
    let mut secrets = SecretsServer::new();
    let at_limit = vec![0u8; MAX_SECRET_SIZE];
    assert!(secrets.add_secret("big".to_string(), at_limit).is_ok());
    assert_eq!(secrets.len(), 1);

    let over_limit = vec![0u8; MAX_SECRET_SIZE + 1];
    let r = secrets.add_secret("huge".to_string(), over_limit);
    assert_eq!(r.unwrap_err(), BuildError::SecretTooLarge);
    assert_eq!(secrets.len(), 1);
}

#[test]
fn test_secret_lookup_and_message() {
    let mut secrets = SecretsServer::new();
    secrets.add_secret_string("api_key".to_string(), "v").unwrap();

    assert_eq!(secrets.get_secret("api_key").unwrap(), b"v".to_vec());

    let err = secrets.get_secret("missing").unwrap_err();
    assert_eq!(err, "secret missing not found");
    assert!(err.contains("missing"));
}

#[test]
fn test_from_map_builds_store() {
    let pairs = vec![
        ("api_key".to_string(), "v".to_string()),
        ("db_password".to_string(), "w".to_string()),
    ];
    let secrets = SecretsServer::from_map(pairs).unwrap();
    assert_eq!(secrets.len(), 2);
    assert_eq!(secrets.get_secret("api_key").unwrap(), b"v".to_vec());
    assert_eq!(secrets.get_secret("db_password").unwrap(), b"w".to_vec());
}

#[test]
fn test_secrets_handler() {
    // Configured with one secret; the daemon asks for it and gets the
    // raw bytes, and for a missing id gets NOT_FOUND with its name.
    let mut secrets = SecretsServer::new();
    secrets.add_secret_string("api_key".to_string(), "v").unwrap();
    let tunnel = GrpcTunnel::new(None, None, Some(secrets));

    let reply = tunnel.handle_unary(Route::SecretsGetSecret, &string1_request("api_key"));
    assert_eq!(reply.status, GRPC_OK);
    // Field 1, one byte: `v`.
    assert_eq!(reply.payload, vec![0x0A, 1, b'v']);

    let reply = tunnel.handle_unary(Route::SecretsGetSecret, &string1_request("missing"));
    assert_eq!(reply.status, GRPC_NOT_FOUND);
    assert!(reply.message.contains("missing"));
}

#[test]
fn test_secrets_handler_unconfigured() {
    let tunnel = GrpcTunnel::new(None, None, None);
    let reply = tunnel.handle_unary(Route::SecretsGetSecret, &string1_request("api_key"));
    assert_eq!(reply.status, GRPC_UNIMPLEMENTED);
    assert_eq!(reply.message, "secrets not configured");
}

#[test]
fn test_routes_and_fallbacks() {
    assert_eq!(route_of("/grpc.health.v1.Health/Check"), Route::Health);
    assert_eq!(route_of("/moby.filesync.v1.FileSync/DiffCopy"), Route::DiffCopy);
    assert_eq!(route_of("/moby.filesync.v1.Auth/Credentials"), Route::AuthCredentials);
    assert_eq!(route_of("/moby.filesync.v1.Auth/FetchToken"), Route::AuthFetchToken);
    assert_eq!(route_of("/moby.filesync.v1.Auth/GetTokenAuthority"), Route::AuthGetTokenAuthority);
    assert_eq!(route_of("/moby.buildkit.secrets.v1.Secrets/GetSecret"), Route::SecretsGetSecret);
    assert_eq!(route_of("/nowhere"), Route::Unknown);

    let tunnel = GrpcTunnel::new(None, None, None);

    let reply = tunnel.handle_unary(Route::Health, &vec![]);
    assert_eq!(reply.status, GRPC_OK);
    assert_eq!(reply.payload, vec![0x08, 0x01]);

    let reply = tunnel.handle_unary(Route::AuthFetchToken, &vec![]);
    assert_eq!(reply.status, GRPC_OK);
    assert!(reply.payload.is_empty());

    let reply = tunnel.handle_unary(Route::AuthGetTokenAuthority, &vec![]);
    assert_eq!(reply.status, GRPC_UNIMPLEMENTED);
    assert_eq!(reply.message, "Token auth not implemented");

    let reply = tunnel.handle_unary(Route::Unknown, &vec![]);
    assert_eq!(reply.status, GRPC_UNIMPLEMENTED);
}
