//! Tests for the session: identifiers, services, and metadata headers.

use buildkit_client::session::{AuthServer, FileSyncServer, RegistryAuthConfig, Session};

fn meta_get<'a>(meta: &'a [(String, Vec<String>)], key: &str) -> Option<&'a Vec<String>> {
    meta.iter().find(|e| e.0 == key).map(|e| &e.1)
}

#[test]
fn test_session_creation() {
    let session = Session::new();

    // The session id is a stringified UUID.
    assert!(!session.id.is_empty());
    assert!(session.id.len() == 36 || session.id.len() == 44);

    // The shared key is a prefixed UUID.
    assert!(!session.shared_key.is_empty());
    assert!(session.shared_key.len() == 36 || session.shared_key.len() == 44);
}

#[test]
fn test_session_metadata_no_services() {
    let session = Session::new();
    let metadata = session.metadata();

    let uuid = meta_get(&metadata, "X-Docker-Expose-Session-Uuid");
    assert!(uuid.is_some());
    assert_eq!(uuid.unwrap()[0], session.id);

    let key = meta_get(&metadata, "X-Docker-Expose-Session-Sharedkey");
    assert!(key.is_some());
    assert_eq!(key.unwrap()[0], session.shared_key);

    assert!(meta_get(&metadata, "X-Docker-Expose-Session-Name").is_some());
}

#[test]
fn test_filesync_server_creation() {
    let server = FileSyncServer::new("/tmp".to_string());

    assert_eq!(server.get_root_path(), "/tmp");
}

#[test]
fn test_filesync_server_with_different_paths() {
    let server1 = FileSyncServer::new("/tmp/buildkit_test_1".to_string());
    let server2 = FileSyncServer::new("/tmp/buildkit_test_2".to_string());

    assert_eq!(server1.get_root_path(), "/tmp/buildkit_test_1");
    assert_eq!(server2.get_root_path(), "/tmp/buildkit_test_2");
}

#[test]
fn test_auth_server_creation() {
    let _auth = AuthServer::new();
}

#[test]
fn test_auth_server_with_registries() {
    let mut auth = AuthServer::new();

    auth.add_registry(RegistryAuthConfig {
        host: "docker.io".to_string(),
        username: "user1".to_string(),
        password: "pass1".to_string(),
    });

    auth.add_registry(RegistryAuthConfig {
        host: "gcr.io".to_string(),
        username: "user2".to_string(),
        password: "pass2".to_string(),
    });

    auth.add_registry(RegistryAuthConfig {
        host: "localhost:5000".to_string(),
        username: "admin".to_string(),
        password: "secret".to_string(),
    });
}

#[test]
fn test_session_with_file_sync() {
    let mut session = Session::new();

    session.add_file_sync("/tmp".to_string());

    let metadata = session.metadata();
    let methods = meta_get(&metadata, "X-Docker-Expose-Session-Grpc-Method");
    assert!(methods.is_some());

    let methods = methods.unwrap();
    assert!(methods.contains(&"/moby.filesync.v1.FileSync/DiffCopy".to_string()));
}

#[test]
fn test_session_with_auth() {
    let mut session = Session::new();
    session.add_auth(AuthServer::new());

    let metadata = session.metadata();
    let methods = meta_get(&metadata, "X-Docker-Expose-Session-Grpc-Method");
    assert!(methods.is_some());

    let methods = methods.unwrap();
    assert!(methods.contains(&"/moby.filesync.v1.Auth/Credentials".to_string()));
    assert!(methods.contains(&"/moby.filesync.v1.Auth/FetchToken".to_string()));
}

#[test]
fn test_session_metadata_format() {
    let mut session = Session::new();

    session.add_file_sync("/tmp".to_string());
    session.add_auth(AuthServer::new());

    let metadata = session.metadata();

    let uuid = meta_get(&metadata, "X-Docker-Expose-Session-Uuid").unwrap();
    assert_eq!(uuid.len(), 1);
    assert_eq!(uuid[0], session.id);

    let key = meta_get(&metadata, "X-Docker-Expose-Session-Sharedkey").unwrap();
    assert_eq!(key.len(), 1);
    assert_eq!(key[0], session.shared_key);

    let name = meta_get(&metadata, "X-Docker-Expose-Session-Name");
    assert!(name.is_some());

    let methods = meta_get(&metadata, "X-Docker-Expose-Session-Grpc-Method");
    assert!(methods.is_some());

    let methods = methods.unwrap();
    assert!(methods.contains(&"/moby.filesync.v1.FileSync/DiffCopy".to_string()));
    assert!(methods.contains(&"/moby.filesync.v1.Auth/Credentials".to_string()));
    assert!(methods.contains(&"/moby.filesync.v1.Auth/FetchToken".to_string()));
}

#[test]
fn test_session_channel_creation() {
    let session = Session::new();

    assert!(!session.id.is_empty());
}

#[test]
fn test_session_with_both_services() {
    let mut session = Session::new();
    session.add_file_sync("/tmp".to_string());
    session.add_auth(AuthServer::new());

    let metadata = session.metadata();
    let methods = meta_get(&metadata, "X-Docker-Expose-Session-Grpc-Method");
    assert!(methods.is_some());

    let methods = methods.unwrap();
    assert!(methods.contains(&"/moby.filesync.v1.FileSync/DiffCopy".to_string()));
    assert!(methods.contains(&"/moby.filesync.v1.Auth/Credentials".to_string()));
    assert!(methods.contains(&"/moby.filesync.v1.Auth/FetchToken".to_string()));
}

#[test]
fn test_multiple_session_instances() {
    let session1 = Session::new();
    let session2 = Session::new();
    let session3 = Session::new();

    assert_ne!(session1.id, session2.id);
    assert_ne!(session2.id, session3.id);
    assert_ne!(session1.id, session3.id);

    assert_ne!(session1.shared_key, session2.shared_key);
    assert_ne!(session2.shared_key, session3.shared_key);
    assert_ne!(session1.shared_key, session3.shared_key);
}

#[test]
fn test_session_exposes_health_check() {
    let session = Session::new();
    let metadata = session.metadata();

    let methods = meta_get(&metadata, "X-Docker-Expose-Session-Grpc-Method");
    assert!(methods.is_some());

    let methods = methods.unwrap();
    assert!(methods.contains(&"/grpc.health.v1.Health/Check".to_string()));
}
