//! Session state: identifiers, registered services, and the metadata
//! headers a session presents to the daemon.

pub mod auth;
pub mod filesync;
pub mod grpc_tunnel;
pub mod secrets;

pub use auth::{AuthServer, RegistryAuthConfig};
pub use filesync::FileSyncServer;
pub use grpc_tunnel::GrpcTunnel;
pub use secrets::SecretsServer;

use crate::text::starts_with;
use crate::BuildError;
use vstd::prelude::*;

verus! {

/// Relies on uuid::Uuid::new_v4 and its Display form: a fresh random
/// version-4 UUID printed as 36 hyphenated lowercase hex characters.
#[verifier::external_body]
pub(crate) fn new_uuid_string() -> (r: String)
    ensures
        r@.len() == 36,
{
    uuid::Uuid::new_v4().to_string()
}

/// The gRPC method paths every session advertises, whether or not the
/// matching service is registered: the daemon enumerates capabilities
/// up front.
pub open spec fn advertised_methods() -> Seq<Seq<char>> {
    seq![
        "/grpc.health.v1.Health/Check"@,
        "/moby.filesync.v1.FileSync/DiffCopy"@,
        "/moby.filesync.v1.FileSync/TarStream"@,
        "/moby.filesync.v1.Auth/Credentials"@,
        "/moby.filesync.v1.Auth/FetchToken"@,
        "/moby.filesync.v1.Auth/GetTokenAuthority"@,
        "/moby.filesync.v1.Auth/VerifyTokenAuthority"@,
        "/moby.buildkit.secrets.v1.Secrets/GetSecret"@,
    ]
}

/// One session with the build daemon: a pair of fresh identifiers and the
/// services it exposes over the tunnel.
pub struct Session {
    /// Unique session identifier, in UUID format.
    pub id: String,
    /// Shared key naming the session in solve requests.
    pub shared_key: String,
    /// The registered file sync service, if any.
    pub file_sync: Option<FileSyncServer>,
    /// The registered auth service, if any.
    pub auth: Option<AuthServer>,
    /// The registered secrets service, if any.
    pub secrets: Option<SecretsServer>,
}

impl Session {
    /// A fresh session: a new 36-character id and a `session-`-prefixed
    /// shared key, with no services registered yet.
    pub fn new() -> (r: Session)
        ensures
            r.id@.len() == 36,
            r.shared_key@.len() == 44,
            starts_with(r.shared_key@, "session-"@),
            r.file_sync is None,
            r.auth is None,
            r.secrets is None,
    {
        let id = new_uuid_string();
        let mut shared_key = String::from_str("session-");
        let key_uuid = new_uuid_string();
        proof {
            reveal_strlit("session-");
        }
        shared_key.append(key_uuid.as_str());
        proof {
            assert(shared_key@.take(8) =~= "session-"@);
        }
        Session { id, shared_key, file_sync: None, auth: None, secrets: None }
    }

    /// Register the file sync service for a context directory.
    pub fn add_file_sync(&mut self, root_path: String)
        ensures
            final(self).file_sync matches Some(f) && f.spec_root() == root_path@,
            final(self).id == old(self).id,
            final(self).shared_key == old(self).shared_key,
            final(self).auth == old(self).auth,
            final(self).secrets == old(self).secrets,
    {
        self.file_sync = Some(FileSyncServer::new(root_path));
    }

    /// Register the registry authentication service.
    pub fn add_auth(&mut self, auth: AuthServer)
        ensures
            final(self).auth matches Some(a) && a == auth,
            final(self).id == old(self).id,
            final(self).shared_key == old(self).shared_key,
            final(self).file_sync == old(self).file_sync,
            final(self).secrets == old(self).secrets,
    {
        self.auth = Some(auth);
    }

    /// Register the secrets service.
    pub fn add_secrets(&mut self, secrets: SecretsServer)
        ensures
            final(self).secrets matches Some(s) && s == secrets,
            final(self).id == old(self).id,
            final(self).shared_key == old(self).shared_key,
            final(self).file_sync == old(self).file_sync,
            final(self).auth == old(self).auth,
    {
        self.secrets = Some(secrets);
    }

    /// The metadata headers to attach to the session stream and to every
    /// solve request: the session id, name, shared key, and the full list
    /// of advertised gRPC method paths.
    pub fn metadata(&self) -> (r: Vec<(String, Vec<String>)>)
        ensures
            r@.len() == 4,
            r@[0].0@ == "X-Docker-Expose-Session-Uuid"@,
            r@[0].1@.len() == 1 && r@[0].1@[0]@ == self.id@,
            r@[1].0@ == "X-Docker-Expose-Session-Name"@,
            r@[1].1@.len() == 1 && r@[1].1@[0]@ == self.shared_key@,
            r@[2].0@ == "X-Docker-Expose-Session-Sharedkey"@,
            r@[2].1@.len() == 1 && r@[2].1@[0]@ == self.shared_key@,
            r@[3].0@ == "X-Docker-Expose-Session-Grpc-Method"@,
            r@[3].1.deep_view() == advertised_methods(),
    {
        let mut meta: Vec<(String, Vec<String>)> = Vec::new();

        let mut uuid_vals: Vec<String> = Vec::new();
        uuid_vals.push(self.id.clone());
        meta.push((String::from_str("X-Docker-Expose-Session-Uuid"), uuid_vals));

        let mut name_vals: Vec<String> = Vec::new();
        name_vals.push(self.shared_key.clone());
        meta.push((String::from_str("X-Docker-Expose-Session-Name"), name_vals));

        let mut key_vals: Vec<String> = Vec::new();
        key_vals.push(self.shared_key.clone());
        meta.push((String::from_str("X-Docker-Expose-Session-Sharedkey"), key_vals));

        let mut methods: Vec<String> = Vec::new();
        methods.push(String::from_str("/grpc.health.v1.Health/Check"));
        methods.push(String::from_str("/moby.filesync.v1.FileSync/DiffCopy"));
        methods.push(String::from_str("/moby.filesync.v1.FileSync/TarStream"));
        methods.push(String::from_str("/moby.filesync.v1.Auth/Credentials"));
        methods.push(String::from_str("/moby.filesync.v1.Auth/FetchToken"));
        methods.push(String::from_str("/moby.filesync.v1.Auth/GetTokenAuthority"));
        methods.push(String::from_str("/moby.filesync.v1.Auth/VerifyTokenAuthority"));
        methods.push(String::from_str("/moby.buildkit.secrets.v1.Secrets/GetSecret"));
        proof {
            assert(methods.deep_view() =~= advertised_methods());
        }
        meta.push((String::from_str("X-Docker-Expose-Session-Grpc-Method"), methods));
        meta
    }

    /// The session id, for the solve request.
    pub fn get_id(&self) -> (r: String)
        ensures
            r@ == self.id@,
    {
        self.id.clone()
    }
}

impl Default for Session {
    /// The same as `Session::new`.
    fn default() -> (r: Session)
        ensures
            r.id@.len() == 36,
            r.shared_key@.len() == 44,
    {
        Session::new()
    }
}

/// The local build context to be synced: its path and the validation rule
/// applied before a session starts.
pub struct FileSync {
    context_path: String,
}

impl FileSync {
    /// A helper for the context directory at `context_path`.
    pub fn new(context_path: String) -> (r: FileSync)
        ensures
            r.spec_path() == context_path@,
    {
        FileSync { context_path }
    }

    /// The context path, as a spec value.
    pub closed spec fn spec_path(&self) -> Seq<char> {
        self.context_path@
    }

    /// The context path.
    pub fn path(&self) -> (r: &String)
        ensures
            r@ == self.spec_path(),
    {
        &self.context_path
    }

    /// The validation rule for the context: the caller probes the
    /// filesystem and passes in whether the path exists and whether it is
    /// a directory; a missing path and a non-directory are each rejected
    /// with their own error.
    pub fn validate(&self, exists: bool, is_directory: bool) -> (r: Result<(), BuildError>)
        ensures
            exists && is_directory ==> r is Ok,
            !exists ==> (r matches Err(e) && e == BuildError::ContextMissing),
            exists && !is_directory ==> (r matches Err(e) && e == BuildError::ContextNotDirectory),
    {
        if !exists {
            Err(BuildError::ContextMissing)
        } else if !is_directory {
            Err(BuildError::ContextNotDirectory)
        } else {
            Ok(())
        }
    }
}

} // verus!
