//! Registry credential lookup for the session's Auth service.

use crate::text::contains_seq;
use vstd::prelude::*;

verus! {

/// Registry authentication configuration.
#[derive(Debug, Clone)]
pub struct RegistryAuthConfig {
    /// Registry hostname, such as `docker.io` or `localhost:5000`.
    pub host: String,
    /// Username for registry authentication.
    pub username: String,
    /// Password or access token for registry authentication.
    pub password: String,
}

/// The mathematical value of one registry entry.
pub ghost struct RegistryAuthModel {
    pub host: Seq<char>,
    pub username: Seq<char>,
    pub password: Seq<char>,
}

impl View for RegistryAuthConfig {
    type V = RegistryAuthModel;

    open spec fn view(&self) -> RegistryAuthModel {
        RegistryAuthModel { host: self.host@, username: self.username@, password: self.password@ }
    }
}

/// Whether a registered host entry answers a request for `host`: exact
/// match, or the requested host contains the registered one, or the
/// `docker.io` aliases used by the daemon.
pub open spec fn host_matches(registered: Seq<char>, host: Seq<char>) -> bool {
    ||| registered == host
    ||| contains_seq(host, registered)
    ||| (registered == "docker.io"@ && (host == "registry-1.docker.io"@ || host
        == "index.docker.io"@))
}

/// The first registered entry that answers a request for `host`.
pub open spec fn find_match(s: Seq<RegistryAuthModel>, host: Seq<char>) -> Option<
    RegistryAuthModel,
>
    decreases s.len(),
{
    if s.len() == 0 {
        None
    } else if host_matches(s[0].host, host) {
        Some(s[0])
    } else {
        find_match(s.skip(1), host)
    }
}

/// Answers credential lookups from the daemon during pushes and pulls.
#[derive(Debug, Clone)]
pub struct AuthServer {
    registries: Vec<RegistryAuthConfig>,
}

impl View for AuthServer {
    type V = Seq<RegistryAuthModel>;

    closed spec fn view(&self) -> Seq<RegistryAuthModel> {
        self.registries@.map_values(|r: RegistryAuthConfig| r@)
    }
}

impl AuthServer {
    /// An auth server with no registered registries.
    pub fn new() -> (r: AuthServer)
        ensures
            r@ == Seq::<RegistryAuthModel>::empty(),
    {
        let r = AuthServer { registries: Vec::new() };
        proof {
            assert(r@ =~= Seq::<RegistryAuthModel>::empty());
        }
        r
    }

    /// Register credentials for one registry host.
    pub fn add_registry(&mut self, config: RegistryAuthConfig)
        ensures
            final(self)@ == old(self)@.push(config@),
    {
        let ghost pre = self@;
        self.registries.push(config);
        proof {
            assert(self@ =~= pre.push(self.registries@.last()@));
        }
    }

    /// The first registered entry matching `host`, by the rule of
    /// `host_matches`, or nothing.
    pub fn find_credentials<'a>(&'a self, host: &str) -> (r: Option<&'a RegistryAuthConfig>)
        ensures
            match r {
                Some(c) => find_match(self@, host@) == Some(c@),
                None => find_match(self@, host@) is None,
            },
    {
        let mut i: usize = 0;
        proof {
            assert(self@.skip(0) =~= self@);
        }
        while i < self.registries.len()
            invariant
                0 <= i <= self.registries@.len(),
                self@.len() == self.registries@.len(),
                find_match(self@, host@) == find_match(self@.skip(i as int), host@),
            decreases self.registries@.len() - i,
        {
            let entry = &self.registries[i];
            proof {
                assert(self@.skip(i as int)[0] == self@[i as int]);
                assert(self@[i as int] == entry@);
            }
            let exact = crate::text::str_eq(entry.host.as_str(), host);
            let sub = crate::text::str_contains(host, entry.host.as_str());
            let is_docker_io = crate::text::str_eq(entry.host.as_str(), "docker.io");
            let alias = is_docker_io && (crate::text::str_eq(host, "registry-1.docker.io")
                || crate::text::str_eq(host, "index.docker.io"));
            if exact || sub || alias {
                assert(host_matches(entry@.host, host@));
                return Some(entry);
            }
            assert(!host_matches(entry@.host, host@));
            proof {
                assert(self@.skip(i as int).skip(1) =~= self@.skip(i + 1));
            }
            i += 1;
        }
        proof {
            assert(self@.skip(i as int).len() == 0);
        }
        None
    }

    /// The reply to a credentials request: the matching entry's username
    /// and secret, or two empty strings for anonymous access. A missing
    /// entry is never an error.
    pub fn credentials(&self, host: &str) -> (r: (String, String))
        ensures
            match find_match(self@, host@) {
                Some(m) => r.0@ == m.username && r.1@ == m.password,
                None => r.0@ == Seq::<char>::empty() && r.1@ == Seq::<char>::empty(),
            },
    {
        match self.find_credentials(host) {
            Some(c) => (c.username.clone(), c.password.clone()),
            None => (String::new(), String::new()),
        }
    }
}

/// Registering the same entry twice changes no lookup: the first matching
/// entry wins, so the duplicate is never reached.
pub proof fn lemma_add_registry_twice(s: Seq<RegistryAuthModel>, c: RegistryAuthModel, host: Seq<char>)
    ensures
        find_match(s.push(c).push(c), host) == find_match(s.push(c), host),
    decreases s.len(),
{
    if s.len() == 0 {
        let one = s.push(c);
        let two = s.push(c).push(c);
        assert(one[0] == c);
        assert(two[0] == c);
        if !host_matches(c.host, host) {
            assert(one.skip(1) =~= Seq::<RegistryAuthModel>::empty());
            assert(two.skip(1) =~= Seq::<RegistryAuthModel>::empty().push(c));
            assert(find_match(one.skip(1), host) is None);
            assert(find_match(one, host) is None);
            assert(two.skip(1)[0] == c);
            assert(two.skip(1).skip(1) =~= Seq::<RegistryAuthModel>::empty());
            assert(find_match(two.skip(1), host) is None);
        }
    } else {
        let one = s.push(c);
        let two = s.push(c).push(c);
        assert(one[0] == s[0]);
        assert(two[0] == s[0]);
        assert(one.skip(1) =~= s.skip(1).push(c));
        assert(two.skip(1) =~= s.skip(1).push(c).push(c));
        lemma_add_registry_twice(s.skip(1), c, host);
    }
}

} // verus!
