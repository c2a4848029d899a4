//! Dispatch for the tunneled gRPC calls: the routing table over request
//! paths and the unary handlers, each producing the exact reply bytes and
//! status the daemon expects.

use crate::proto::{encode_credentials_response, encode_fetch_token_response,
    encode_get_secret_response, encode_health_response, spec_decode_string1};
use crate::wire::{spec_len_field, spec_str_field, spec_u32_field};
use crate::session::auth::{find_match, AuthServer};
use crate::session::filesync::FileSyncServer;
use crate::session::secrets::SecretsServer;
use vstd::prelude::*;

verus! {

/// The gRPC status of a successful call.
pub const GRPC_OK: u32 = 0;

/// The gRPC status a failed DiffCopy aborts with.
pub const GRPC_FAILED: u32 = 2;

/// The gRPC status of a missing secret.
pub const GRPC_NOT_FOUND: u32 = 5;

/// The gRPC status of an unimplemented method.
pub const GRPC_UNIMPLEMENTED: u32 = 12;

/// The gRPC status of a malformed or otherwise unservable request.
pub const GRPC_INTERNAL: u32 = 13;

/// Where a tunneled request is routed, by its path.
#[derive(Debug, Clone, Copy, PartialEq, Eq, Structural)]
pub enum Route {
    Health,
    DiffCopy,
    AuthCredentials,
    AuthFetchToken,
    AuthGetTokenAuthority,
    SecretsGetSecret,
    Unknown,
}

/// The routing rule: each supported path to its handler, anything else
/// to the unimplemented reply.
pub open spec fn spec_route(p: Seq<char>) -> Route {
    if p == "/grpc.health.v1.Health/Check"@ {
        Route::Health
    } else if p == "/moby.filesync.v1.FileSync/DiffCopy"@ {
        Route::DiffCopy
    } else if p == "/moby.filesync.v1.Auth/Credentials"@ {
        Route::AuthCredentials
    } else if p == "/moby.filesync.v1.Auth/FetchToken"@ {
        Route::AuthFetchToken
    } else if p == "/moby.filesync.v1.Auth/GetTokenAuthority"@ {
        Route::AuthGetTokenAuthority
    } else if p == "/moby.buildkit.secrets.v1.Secrets/GetSecret"@ {
        Route::SecretsGetSecret
    } else {
        Route::Unknown
    }
}

/// Route a request path.
pub fn route_of(path: &str) -> (r: Route)
    ensures
        r == spec_route(path@),
{
    if crate::text::str_eq(path, "/grpc.health.v1.Health/Check") {
        Route::Health
    } else if crate::text::str_eq(path, "/moby.filesync.v1.FileSync/DiffCopy") {
        Route::DiffCopy
    } else if crate::text::str_eq(path, "/moby.filesync.v1.Auth/Credentials") {
        Route::AuthCredentials
    } else if crate::text::str_eq(path, "/moby.filesync.v1.Auth/FetchToken") {
        Route::AuthFetchToken
    } else if crate::text::str_eq(path, "/moby.filesync.v1.Auth/GetTokenAuthority") {
        Route::AuthGetTokenAuthority
    } else if crate::text::str_eq(path, "/moby.buildkit.secrets.v1.Secrets/GetSecret") {
        Route::SecretsGetSecret
    } else {
        Route::Unknown
    }
}

/// What a unary handler hands back: reply bytes on status zero, or an
/// error status with its message and no reply bytes.
pub struct UnaryOutcome {
    /// The reply message bytes, to be framed and sent; empty on failure.
    pub payload: Vec<u8>,
    /// The gRPC status for the trailers.
    pub status: u32,
    /// The gRPC message for the trailers; empty on success.
    pub message: String,
}

/// The credentials a request for `host` is answered with: the matching
/// registry entry's username and password, or two empty strings.
pub open spec fn spec_credentials(auth: Option<AuthServer>, host: Seq<char>) -> (
    Seq<char>,
    Seq<char>,
) {
    match auth {
        None => (Seq::empty(), Seq::empty()),
        Some(a) => match find_match(a@, host) {
            Some(m) => (m.username, m.password),
            None => (Seq::empty(), Seq::empty()),
        },
    }
}

/// Serves the tunneled calls of one session from its registered services.
pub struct GrpcTunnel {
    /// The file sync service, when a local context is registered.
    pub file_sync: Option<FileSyncServer>,
    /// The registry credential service, when registered.
    pub auth: Option<AuthServer>,
    /// The secrets service, when registered.
    pub secrets: Option<SecretsServer>,
}

impl GrpcTunnel {
    /// A tunnel over the session's registered services.
    pub fn new(
        file_sync: Option<FileSyncServer>,
        auth: Option<AuthServer>,
        secrets: Option<SecretsServer>,
    ) -> (r: GrpcTunnel)
        ensures
            r.file_sync == file_sync,
            r.auth == auth,
            r.secrets == secrets,
    {
        GrpcTunnel { file_sync, auth, secrets }
    }

    /// The health reply: always serving.
    pub fn handle_health_check(&self) -> (r: Vec<u8>)
        ensures
            r@ == spec_u32_field(1, 1),
    {
        encode_health_response()
    }

    /// The credentials reply for a request body: the matching entry's
    /// username and secret, or two empty strings; a missing entry is
    /// never an error, so the daemon may try anonymous access.
    pub fn handle_auth_credentials(&self, payload: &Vec<u8>) -> (r: Result<
        Vec<u8>,
        crate::wire::DecodeError,
    >)
        ensures
            r matches Ok(b) ==> ({
                &&& spec_decode_string1(payload@) matches Some(host)
                &&& b@ == spec_str_field(1, spec_credentials(self.auth, host).0) + spec_str_field(
                    2,
                    spec_credentials(self.auth, host).1,
                )
            }),
            r is Err ==> spec_decode_string1(payload@) is None,
    {
        let host = match crate::proto::decode_string1(payload) {
            Ok(h) => h,
            Err(e) => {
                return Err(e);
            },
        };
        match &self.auth {
            None => {
                proof {
                    reveal_strlit("");
                    assert(""@ =~= Seq::<char>::empty());
                }
                Ok(encode_credentials_response("", ""))
            },
            Some(a) => {
                let (username, password) = a.credentials(host.as_str());
                Ok(encode_credentials_response(username.as_str(), password.as_str()))
            },
        }
    }

    /// The token reply: empty, since the daemon performs its own token
    /// exchange once it has plain credentials.
    pub fn handle_auth_fetch_token(&self) -> (r: Vec<u8>)
        ensures
            r@ == Seq::<u8>::empty(),
    {
        encode_fetch_token_response()
    }

    /// The permissive token-authority reply: an empty public key, the
    /// alternative to answering with an error; both make the daemon fall
    /// back to plain credentials.
    pub fn handle_auth_get_token_authority(&self) -> (r: Vec<u8>)
        ensures
            r@ == Seq::<u8>::empty(),
    {
        crate::proto::encode_token_authority_response()
    }

    /// The secret reply for a request body: the stored bytes; a missing
    /// id and an unconfigured service each fail with their own status
    /// and message.
    pub fn handle_secrets_get_secret(&self, payload: &Vec<u8>) -> (r: UnaryOutcome)
        ensures
            spec_decode_string1(payload@) is None ==> r.status == GRPC_INTERNAL,
            spec_decode_string1(payload@) matches Some(id) ==> ({
                &&& self.secrets is None ==> r.status == GRPC_UNIMPLEMENTED && r.message@
                    == "secrets not configured"@
                &&& self.secrets matches Some(s) ==> ({
                    &&& s.spec_get(id) matches Some(d) ==> r.status == GRPC_OK && r.payload@
                        == spec_len_field(1, d)
                    &&& s.spec_get(id) is None ==> r.status == GRPC_NOT_FOUND && r.message@
                        == "secret "@ + id + " not found"@
                })
            }),
    {
        let id = match crate::proto::decode_string1(payload) {
            Ok(h) => h,
            Err(_) => {
                return UnaryOutcome {
                    payload: Vec::new(),
                    status: GRPC_INTERNAL,
                    message: String::from_str("malformed request"),
                };
            },
        };
        match &self.secrets {
            None => UnaryOutcome {
                payload: Vec::new(),
                status: GRPC_UNIMPLEMENTED,
                message: String::from_str("secrets not configured"),
            },
            Some(s) => match s.get_secret(id.as_str()) {
                Ok(data) => UnaryOutcome {
                    payload: encode_get_secret_response(&data),
                    status: GRPC_OK,
                    message: String::new(),
                },
                Err(m) => UnaryOutcome { payload: Vec::new(), status: GRPC_NOT_FOUND, message: m },
            },
        }
    }

    /// One unary call, dispatched by route. The token-authority route is
    /// answered with an explicit error so the daemon falls back to plain
    /// credentials; the streaming DiffCopy route never reaches here and,
    /// like an unknown path, is answered unimplemented.
    pub fn handle_unary(&self, route: Route, payload: &Vec<u8>) -> (r: UnaryOutcome)
        ensures
            route is Health ==> r.status == GRPC_OK && r.payload@ == spec_u32_field(1, 1),
            route is AuthFetchToken ==> r.status == GRPC_OK && r.payload@ == Seq::<u8>::empty(),
            route is AuthGetTokenAuthority ==> r.status == GRPC_UNIMPLEMENTED && r.message@
                == "Token auth not implemented"@,
            route is AuthCredentials ==> ({
                &&& spec_decode_string1(payload@) matches Some(host) ==> r.status == GRPC_OK
                    && r.payload@ == spec_str_field(1, spec_credentials(self.auth, host).0)
                    + spec_str_field(2, spec_credentials(self.auth, host).1)
                &&& spec_decode_string1(payload@) is None ==> r.status == GRPC_INTERNAL
            }),
            route is SecretsGetSecret ==> ({
                &&& spec_decode_string1(payload@) is None ==> r.status == GRPC_INTERNAL
                &&& spec_decode_string1(payload@) matches Some(id) ==> ({
                    &&& self.secrets is None ==> r.status == GRPC_UNIMPLEMENTED
                    &&& self.secrets matches Some(s) ==> ({
                        &&& s.spec_get(id) matches Some(d) ==> r.status == GRPC_OK && r.payload@
                            == spec_len_field(1, d)
                        &&& s.spec_get(id) is None ==> r.status == GRPC_NOT_FOUND && r.message@
                            == "secret "@ + id + " not found"@
                    })
                })
            }),
            route is Unknown || route is DiffCopy ==> r.status == GRPC_UNIMPLEMENTED && r.message@
                == "Unimplemented"@,
    {
        match route {
            Route::Health => UnaryOutcome {
                payload: self.handle_health_check(),
                status: GRPC_OK,
                message: String::new(),
            },
            Route::AuthFetchToken => UnaryOutcome {
                payload: self.handle_auth_fetch_token(),
                status: GRPC_OK,
                message: String::new(),
            },
            Route::AuthGetTokenAuthority => UnaryOutcome {
                payload: Vec::new(),
                status: GRPC_UNIMPLEMENTED,
                message: String::from_str("Token auth not implemented"),
            },
            Route::AuthCredentials => match self.handle_auth_credentials(payload) {
                Ok(b) => UnaryOutcome { payload: b, status: GRPC_OK, message: String::new() },
                Err(_) => UnaryOutcome {
                    payload: Vec::new(),
                    status: GRPC_INTERNAL,
                    message: String::from_str("malformed request"),
                },
            },
            Route::SecretsGetSecret => self.handle_secrets_get_secret(payload),
            Route::DiffCopy => UnaryOutcome {
                payload: Vec::new(),
                status: GRPC_UNIMPLEMENTED,
                message: String::from_str("Unimplemented"),
            },
            Route::Unknown => UnaryOutcome {
                payload: Vec::new(),
                status: GRPC_UNIMPLEMENTED,
                message: String::from_str("Unimplemented"),
            },
        }
    }
}

} // verus!
