//! Build configuration: platforms, Dockerfile sources, registry credentials,
//! and the builder-style `BuildConfig` value object.

use crate::assoc::{assoc_keys_distinct, assoc_lookup, lemma_assoc_absent, lemma_assoc_at, lemma_assoc_push, lemma_assoc_remove};
use crate::text::{join_seqs, split_char};
use crate::BuildError;
use vstd::prelude::*;

verus! {

/// A small string-to-string map with distinct keys, kept in insertion order.
pub struct ArgMap {
    entries: Vec<(String, String)>,
}

impl View for ArgMap {
    type V = Seq<(Seq<char>, Seq<char>)>;

    closed spec fn view(&self) -> Seq<(Seq<char>, Seq<char>)> {
        self.entries@.map_values(|e: (String, String)| (e.0@, e.1@))
    }
}

impl ArgMap {
    /// The keys in the map are pairwise distinct.
    pub open spec fn wf(&self) -> bool {
        assoc_keys_distinct(self@)
    }

    /// The value stored under `k`, if any.
    pub open spec fn spec_get(&self, k: Seq<char>) -> Option<Seq<char>> {
        assoc_lookup(self@, k)
    }

    pub fn new() -> (r: ArgMap)
        ensures
            r@ == Seq::<(Seq<char>, Seq<char>)>::empty(),
            r.wf(),
    {
        let r = ArgMap { entries: Vec::new() };
        proof {
            assert(r@ =~= Seq::<(Seq<char>, Seq<char>)>::empty());
        }
        r
    }

    pub fn len(&self) -> (r: usize)
        ensures
            r == self@.len(),
    {
        self.entries.len()
    }

    pub fn is_empty(&self) -> (r: bool)
        ensures
            r == (self@.len() == 0),
    {
        self.entries.len() == 0
    }

    /// The entry at a position, by content.
    pub fn entry_at(&self, i: usize) -> (r: (String, String))
        requires
            i < self@.len(),
        ensures
            (r.0@, r.1@) == self@[i as int],
    {
        let e = &self.entries[i];
        (e.0.clone(), e.1.clone())
    }

    fn position_of(&self, k: &str) -> (r: Option<usize>)
        ensures
            match r {
                Some(i) => i < self@.len() && self@[i as int].0 == k@ && forall|j: int|
                    0 <= j < i ==> (#[trigger] self@[j]).0 != k@,
                None => forall|j: int| 0 <= j < self@.len() ==> (#[trigger] self@[j]).0 != k@,
            },
    {
        let mut i: usize = 0;
        while i < self.entries.len()
            invariant
                0 <= i <= self@.len(),
                self@.len() == self.entries@.len(),
                forall|j: int| 0 <= j < i ==> (#[trigger] self@[j]).0 != k@,
            decreases self@.len() - i,
        {
            if crate::text::str_eq(self.entries[i].0.as_str(), k) {
                return Some(i);
            }
            i += 1;
        }
        None
    }

    /// Store `v` under `k`, replacing any previous value for that key.
    pub fn insert(&mut self, k: String, v: String)
        requires
            old(self).wf(),
        ensures
            final(self).wf(),
            final(self).spec_get(k@) == Some(v@),
            forall|q: Seq<char>|
                q != k@ ==> #[trigger] final(self).spec_get(q) == old(self).spec_get(q),
            old(self).spec_get(k@) is Some ==> final(self)@.len() == old(self)@.len(),
            old(self).spec_get(k@) is None ==> final(self)@.len() == old(self)@.len() + 1,
    {
        let ghost pre = self@;
        let pos = self.position_of(k.as_str());
        match pos {
            Some(i) => {
                proof {
                    lemma_assoc_at(pre, k@, i as int);
                }
                self.entries.remove(i);
                proof {
                    assert(self@ =~= pre.remove(i as int));
                    assert forall|a: int, b: int|
                        0 <= a < b < self@.len() implies (#[trigger] self@[a]).0
                        != (#[trigger] self@[b]).0 by {
                        let ra = if a < i { a } else { a + 1 };
                        let rb = if b < i { b } else { b + 1 };
                        assert(self@[a] == pre[ra]);
                        assert(self@[b] == pre[rb]);
                    }
                }
                let ghost mid = self@;
                self.entries.push((k, v));
                proof {
                    assert(self@ =~= mid.push((k@, v@)));
                    assert forall|a: int, b: int|
                        0 <= a < b < self@.len() implies (#[trigger] self@[a]).0
                        != (#[trigger] self@[b]).0 by {
                        if b < self@.len() - 1 {
                            assert(self@[a] == mid[a]);
                            assert(self@[b] == mid[b]);
                        } else {
                            assert(self@[b] == (k@, v@));
                            if a < i {
                                assert(mid[a] == pre[a]);
                            } else {
                                assert(mid[a] == pre[a + 1]);
                            }
                        }
                    }
                    lemma_assoc_remove(pre, i as int, k@);
                    lemma_assoc_push(mid, k@, v@, k@);
                    assert(final(self).spec_get(k@) == Some(v@));
                    assert forall|q: Seq<char>|
                        q != k@ implies #[trigger] assoc_lookup(self@, q) == assoc_lookup(pre, q) by {
                        lemma_assoc_remove(pre, i as int, q);
                        lemma_assoc_push(mid, k@, v@, q);
                        if assoc_lookup(mid, q) is None && q != k@ {
                        }
                    }
                }
            },
            None => {
                proof {
                    lemma_assoc_absent(pre, k@);
                }
                self.entries.push((k, v));
                proof {
                    assert(self@ =~= pre.push((k@, v@)));
                    assert forall|a: int, b: int|
                        0 <= a < b < self@.len() implies (#[trigger] self@[a]).0
                        != (#[trigger] self@[b]).0 by {
                        if b < self@.len() - 1 {
                            assert(self@[a] == pre[a]);
                            assert(self@[b] == pre[b]);
                        } else {
                            assert(self@[b] == (k@, v@));
                            assert(self@[a] == pre[a]);
                        }
                    }
                    lemma_assoc_push(pre, k@, v@, k@);
                    assert forall|q: Seq<char>|
                        q != k@ implies #[trigger] assoc_lookup(self@, q) == assoc_lookup(pre, q) by {
                        lemma_assoc_push(pre, k@, v@, q);
                    }
                }
            },
        }
    }

    /// The value stored under `k`, if any.
    pub fn get<'a>(&'a self, k: &str) -> (r: Option<&'a String>)
        ensures
            match r {
                Some(v) => self.spec_get(k@) == Some(v@),
                None => self.spec_get(k@) is None,
            },
    {
        let pos = self.position_of(k);
        match pos {
            Some(i) => {
                proof {
                    lemma_assoc_at(self@, k@, i as int);
                }
                Some(&self.entries[i].1)
            },
            None => {
                proof {
                    lemma_assoc_absent(self@, k@);
                }
                None
            },
        }
    }

    /// Whether some value is stored under `k`.
    pub fn contains_key(&self, k: &str) -> (r: bool)
        ensures
            r == (self.spec_get(k@) is Some),
    {
        match self.get(k) {
            Some(_) => true,
            None => false,
        }
    }
}

/// Platform specification for multi-platform builds.
pub struct Platform {
    pub os: String,
    pub arch: String,
    pub variant: Option<String>,
}

/// The mathematical value of a `Platform`.
pub ghost struct PlatformModel {
    pub os: Seq<char>,
    pub arch: Seq<char>,
    pub variant: Option<Seq<char>>,
}

impl View for Platform {
    type V = PlatformModel;

    open spec fn view(&self) -> PlatformModel {
        PlatformModel {
            os: self.os@,
            arch: self.arch@,
            variant: match self.variant {
                Some(v) => Some(v@),
                None => None,
            },
        }
    }
}

/// The slash-separated pieces of a platform string.
pub open spec fn platform_parts(m: PlatformModel) -> Seq<Seq<char>> {
    match m.variant {
        Some(v) => seq![m.os, m.arch, v],
        None => seq![m.os, m.arch],
    }
}

/// The canonical `os/arch[/variant]` text of a platform.
pub open spec fn platform_text(m: PlatformModel) -> Seq<char> {
    join_seqs(platform_parts(m), seq!['/'])
}

/// What parsing a platform string must produce: two slash-separated pieces
/// give `os/arch`, three give `os/arch/variant`, anything else is rejected.
pub open spec fn platform_parse(s: Seq<char>) -> Option<PlatformModel> {
    let parts = split_char(s, '/');
    if parts.len() == 2 {
        Some(PlatformModel { os: parts[0], arch: parts[1], variant: None })
    } else if parts.len() == 3 {
        Some(PlatformModel { os: parts[0], arch: parts[1], variant: Some(parts[2]) })
    } else {
        None
    }
}

impl Platform {
    /// The `linux/amd64` platform.
    pub fn linux_amd64() -> (r: Platform)
        ensures
            r@.os == "linux"@,
            r@.arch == "amd64"@,
            r@.variant is None,
    {
        Platform {
            os: String::from_str("linux"),
            arch: String::from_str("amd64"),
            variant: None,
        }
    }

    /// The `linux/arm64` platform.
    pub fn linux_arm64() -> (r: Platform)
        ensures
            r@.os == "linux"@,
            r@.arch == "arm64"@,
            r@.variant is None,
    {
        Platform {
            os: String::from_str("linux"),
            arch: String::from_str("arm64"),
            variant: None,
        }
    }

    /// Parse `os/arch` or `os/arch/variant`; any other shape is rejected.
    pub fn parse(s: &str) -> (r: Result<Platform, BuildError>)
        ensures
            match r {
                Ok(p) => platform_parse(s@) == Some(p@),
                Err(e) => platform_parse(s@) is None && e == BuildError::InvalidPlatform,
            },
    {
        let parts = crate::text::split_str(s, '/');
        proof {
            assert(parts.deep_view().len() == parts@.len());
        }
        if parts.len() == 2 {
            let r = Platform {
                os: parts[0].clone(),
                arch: parts[1].clone(),
                variant: None,
            };
            proof {
                assert(parts.deep_view()[0] == parts@[0]@);
                assert(parts.deep_view()[1] == parts@[1]@);
            }
            Ok(r)
        } else if parts.len() == 3 {
            let r = Platform {
                os: parts[0].clone(),
                arch: parts[1].clone(),
                variant: Some(parts[2].clone()),
            };
            proof {
                assert(parts.deep_view()[0] == parts@[0]@);
                assert(parts.deep_view()[1] == parts@[1]@);
                assert(parts.deep_view()[2] == parts@[2]@);
            }
            Ok(r)
        } else {
            Err(BuildError::InvalidPlatform)
        }
    }

    /// The canonical `os/arch[/variant]` string.
    pub fn to_string(&self) -> (r: String)
        ensures
            r@ == platform_text(self@),
    {
        let mut parts: Vec<String> = Vec::new();
        parts.push(self.os.clone());
        parts.push(self.arch.clone());
        match &self.variant {
            Some(v) => {
                parts.push(v.clone());
                proof {
                    assert(parts.deep_view() =~= platform_parts(self@));
                }
            },
            None => {
                proof {
                    assert(parts.deep_view() =~= platform_parts(self@));
                }
            },
        }
        proof {
            reveal_strlit("/");
            assert("/"@ =~= seq!['/']);
        }
        crate::text::join_strings(&parts, "/")
    }
}

/// Platform parsing and emission invert each other: any string of two or
/// three slash-separated pieces parses, and emitting the parse gives the
/// string back; any other piece count is rejected.
pub proof fn lemma_platform_round_trip(s: Seq<char>)
    ensures
        platform_parse(s) matches Some(m) ==> platform_text(m) == s,
        platform_parse(s) is None <==> (split_char(s, '/').len() != 2 && split_char(s, '/').len()
            != 3),
{
    let parts = split_char(s, '/');
    if parts.len() == 2 {
        let m = platform_parse(s).unwrap();
        assert(platform_parts(m) =~= parts);
        crate::text::lemma_join_split(s, '/');
    } else if parts.len() == 3 {
        let m = platform_parse(s).unwrap();
        assert(platform_parts(m) =~= parts);
        crate::text::lemma_join_split(s, '/');
    }
}

/// Registry authentication credentials.
pub struct RegistryAuth {
    /// Registry host, such as `docker.io` or `localhost:5000`.
    pub host: String,
    /// Username.
    pub username: String,
    /// Password or token.
    pub password: String,
}

/// Source location for the Dockerfile and build context.
pub enum DockerfileSource {
    /// A directory on the local filesystem.
    Local {
        /// Path of the context directory.
        context_path: String,
        /// Path of the Dockerfile, relative to the context, when overridden.
        dockerfile_path: Option<String>,
    },
    /// A git repository.
    GitHub {
        /// Repository URL.
        repo_url: String,
        /// Branch, tag or commit, when pinned.
        git_ref: Option<String>,
        /// Path of the Dockerfile within the repository, when overridden.
        dockerfile_path: Option<String>,
        /// Token for private repositories.
        token: Option<String>,
    },
}

/// Build configuration assembled in builder style.
pub struct BuildConfig {
    /// Where the Dockerfile and context come from.
    pub source: DockerfileSource,
    /// Build arguments.
    pub build_args: ArgMap,
    /// Target stage of a multi-stage build.
    pub target: Option<String>,
    /// Target platforms.
    pub platforms: Vec<Platform>,
    /// Image tags to push.
    pub tags: Vec<String>,
    /// Registry authentication.
    pub registry_auth: Option<RegistryAuth>,
    /// Cache import references.
    pub cache_from: Vec<String>,
    /// Cache export references.
    pub cache_to: Vec<String>,
    /// Secrets to expose during the build.
    pub secrets: ArgMap,
    /// SSH agent sockets to forward.
    pub ssh_agents: Vec<String>,
    /// Disable build caching.
    pub no_cache: bool,
    /// Always pull base images.
    pub pull: bool,
}

impl BuildConfig {
    /// Both key/value maps have distinct keys.
    pub open spec fn wf(&self) -> bool {
        self.build_args.wf() && self.secrets.wf()
    }

    /// All fields a fresh configuration starts from, except the source.
    fn fresh(source: DockerfileSource) -> (r: BuildConfig)
        ensures
            r.source == source,
            r.build_args@.len() == 0,
            r.target is None,
            r.platforms@.len() == 1,
            r.platforms@[0]@.os == "linux"@,
            r.platforms@[0]@.arch == "amd64"@,
            r.platforms@[0]@.variant is None,
            r.tags@.len() == 0,
            r.registry_auth is None,
            r.cache_from@.len() == 0,
            r.cache_to@.len() == 0,
            r.secrets@.len() == 0,
            r.ssh_agents@.len() == 0,
            !r.no_cache,
            !r.pull,
            r.wf(),
    {
        let mut platforms: Vec<Platform> = Vec::new();
        platforms.push(Platform::linux_amd64());
        BuildConfig {
            source,
            build_args: ArgMap::new(),
            target: None,
            platforms,
            tags: Vec::new(),
            registry_auth: None,
            cache_from: Vec::new(),
            cache_to: Vec::new(),
            secrets: ArgMap::new(),
            ssh_agents: Vec::new(),
            no_cache: false,
            pull: false,
        }
    }

    /// A configuration for a local context directory.
    pub fn local(context_path: String) -> (r: BuildConfig)
        ensures
            r.source matches DockerfileSource::Local { context_path: c, dockerfile_path: d } && c@
                == context_path@ && d is None,
            r.build_args@.len() == 0,
            r.target is None,
            r.platforms@.len() == 1,
            r.platforms@[0]@.os == "linux"@,
            r.platforms@[0]@.arch == "amd64"@,
            r.platforms@[0]@.variant is None,
            r.tags@.len() == 0,
            r.registry_auth is None,
            r.cache_from@.len() == 0,
            r.cache_to@.len() == 0,
            r.secrets@.len() == 0,
            !r.no_cache,
            !r.pull,
            r.wf(),
    {
        Self::fresh(DockerfileSource::Local { context_path, dockerfile_path: None })
    }

    /// A configuration for a git repository source.
    pub fn github(repo_url: String) -> (r: BuildConfig)
        ensures
            r.source matches DockerfileSource::GitHub {
                repo_url: u,
                git_ref: g,
                dockerfile_path: d,
                token: t,
            } && u@ == repo_url@ && g is None && d is None && t is None,
            r.build_args@.len() == 0,
            r.platforms@.len() == 1,
            r.tags@.len() == 0,
            r.wf(),
    {
        Self::fresh(
            DockerfileSource::GitHub {
                repo_url,
                git_ref: None,
                dockerfile_path: None,
                token: None,
            },
        )
    }

    /// Override the Dockerfile path of the current source.
    pub fn dockerfile(self, path: String) -> (r: BuildConfig)
        ensures
            r.source matches DockerfileSource::Local { context_path, dockerfile_path } ==> ({
                &&& self.source matches DockerfileSource::Local { context_path: c0, .. }
                &&& context_path == c0
                &&& dockerfile_path matches Some(d)
                &&& d@ == path@
            }),
            r.source matches DockerfileSource::GitHub { repo_url, git_ref, dockerfile_path, token }
                ==> ({
                &&& self.source matches DockerfileSource::GitHub {
                    repo_url: u0,
                    git_ref: g0,
                    token: t0,
                    ..
                }
                &&& repo_url == u0
                &&& git_ref == g0
                &&& token == t0
                &&& dockerfile_path matches Some(d)
                &&& d@ == path@
            }),
            r.source is Local <==> self.source is Local,
            r.build_args == self.build_args,
            r.target == self.target,
            r.platforms == self.platforms,
            r.tags == self.tags,
            r.registry_auth == self.registry_auth,
            r.cache_from == self.cache_from,
            r.cache_to == self.cache_to,
            r.secrets == self.secrets,
            r.ssh_agents == self.ssh_agents,
            r.no_cache == self.no_cache,
            r.pull == self.pull,
    {
        let mut c = self;
        let new_source = match c.source {
            DockerfileSource::Local { context_path, .. } => DockerfileSource::Local {
                context_path,
                dockerfile_path: Some(path),
            },
            DockerfileSource::GitHub { repo_url, git_ref, token, .. } => DockerfileSource::GitHub {
                repo_url,
                git_ref,
                dockerfile_path: Some(path),
                token,
            },
        };
        c.source = new_source;
        c
    }

    /// Add one build argument.
    pub fn build_arg(self, key: String, value: String) -> (r: BuildConfig)
        requires
            self.wf(),
        ensures
            r.build_args.spec_get(key@) == Some(value@),
            forall|q: Seq<char>|
                q != key@ ==> #[trigger] r.build_args.spec_get(q) == self.build_args.spec_get(q),
            r.source == self.source,
            r.target == self.target,
            r.platforms == self.platforms,
            r.tags == self.tags,
            r.secrets == self.secrets,
            r.no_cache == self.no_cache,
            r.pull == self.pull,
            r.wf(),
            self.build_args.spec_get(key@) is None ==> r.build_args@.len() == self.build_args@.len()
                + 1,
            self.build_args.spec_get(key@) is Some ==> r.build_args@.len()
                == self.build_args@.len(),
    {
        let mut c = self;
        c.build_args.insert(key, value);
        c
    }

    /// Set the target stage.
    pub fn target(self, target: String) -> (r: BuildConfig)
        ensures
            r.target matches Some(t) && t@ == target@,
            r.source == self.source,
            r.build_args == self.build_args,
            r.platforms == self.platforms,
            r.tags == self.tags,
            r.secrets == self.secrets,
    {
        let mut c = self;
        c.target = Some(target);
        c
    }

    /// Add a target platform.
    pub fn platform(self, platform: Platform) -> (r: BuildConfig)
        ensures
            r.platforms@ == self.platforms@.push(platform),
            r.source == self.source,
            r.build_args == self.build_args,
            r.tags == self.tags,
            r.secrets == self.secrets,
    {
        let mut c = self;
        c.platforms.push(platform);
        c
    }

    /// Add an image tag.
    pub fn tag(self, tag: String) -> (r: BuildConfig)
        ensures
            r.tags@ == self.tags@.push(tag),
            r.source == self.source,
            r.build_args == self.build_args,
            r.platforms == self.platforms,
            r.secrets == self.secrets,
    {
        let mut c = self;
        c.tags.push(tag);
        c
    }

    /// Set the registry credentials.
    pub fn registry_auth(self, auth: RegistryAuth) -> (r: BuildConfig)
        ensures
            r.registry_auth matches Some(a) && a == auth,
            r.source == self.source,
            r.tags == self.tags,
    {
        let mut c = self;
        c.registry_auth = Some(auth);
        c
    }

    /// Set the token of a git source; a local source is left unchanged.
    pub fn github_token(self, token: String) -> (r: BuildConfig)
        ensures
            self.source matches DockerfileSource::GitHub { repo_url, git_ref, dockerfile_path, .. }
                ==> ({
                &&& r.source matches DockerfileSource::GitHub {
                    repo_url: u,
                    git_ref: g,
                    dockerfile_path: d,
                    token: t,
                }
                &&& u == repo_url
                &&& g == git_ref
                &&& d == dockerfile_path
                &&& t matches Some(tv)
                &&& tv@ == token@
            }),
            self.source is Local ==> r.source == self.source,
            r.build_args == self.build_args,
            r.tags == self.tags,
    {
        let mut c = self;
        let new_source = match c.source {
            DockerfileSource::GitHub { repo_url, git_ref, dockerfile_path, .. } => {
                DockerfileSource::GitHub {
                    repo_url,
                    git_ref,
                    dockerfile_path,
                    token: Some(token),
                }
            },
            other => other,
        };
        c.source = new_source;
        c
    }

    /// Set the git reference of a git source; a local source is left unchanged.
    pub fn git_ref(self, git_ref: String) -> (r: BuildConfig)
        ensures
            self.source matches DockerfileSource::GitHub { repo_url, dockerfile_path, token, .. }
                ==> ({
                &&& r.source matches DockerfileSource::GitHub {
                    repo_url: u,
                    git_ref: g,
                    dockerfile_path: d,
                    token: t,
                }
                &&& u == repo_url
                &&& d == dockerfile_path
                &&& t == token
                &&& g matches Some(gv)
                &&& gv@ == git_ref@
            }),
            self.source is Local ==> r.source == self.source,
            r.build_args == self.build_args,
            r.tags == self.tags,
    {
        let mut c = self;
        let new_source = match c.source {
            DockerfileSource::GitHub { repo_url, dockerfile_path, token, .. } => {
                DockerfileSource::GitHub {
                    repo_url,
                    git_ref: Some(git_ref),
                    dockerfile_path,
                    token,
                }
            },
            other => other,
        };
        c.source = new_source;
        c
    }

    /// Add a cache import reference.
    pub fn cache_from(self, source: String) -> (r: BuildConfig)
        ensures
            r.cache_from@ == self.cache_from@.push(source),
            r.cache_to == self.cache_to,
            r.source == self.source,
    {
        let mut c = self;
        c.cache_from.push(source);
        c
    }

    /// Add a cache export reference.
    pub fn cache_to(self, dest: String) -> (r: BuildConfig)
        ensures
            r.cache_to@ == self.cache_to@.push(dest),
            r.cache_from == self.cache_from,
            r.source == self.source,
    {
        let mut c = self;
        c.cache_to.push(dest);
        c
    }

    /// Add one secret.
    pub fn secret(self, id: String, value: String) -> (r: BuildConfig)
        requires
            self.wf(),
        ensures
            r.secrets.spec_get(id@) == Some(value@),
            forall|q: Seq<char>|
                q != id@ ==> #[trigger] r.secrets.spec_get(q) == self.secrets.spec_get(q),
            r.source == self.source,
            r.build_args == self.build_args,
            r.wf(),
            self.secrets.spec_get(id@) is None ==> r.secrets@.len() == self.secrets@.len() + 1,
            self.secrets.spec_get(id@) is Some ==> r.secrets@.len() == self.secrets@.len(),
    {
        let mut c = self;
        c.secrets.insert(id, value);
        c
    }

    /// Set the no-cache flag.
    pub fn no_cache(self, no_cache: bool) -> (r: BuildConfig)
        ensures
            r.no_cache == no_cache,
            r.pull == self.pull,
            r.source == self.source,
            r.build_args == self.build_args,
            r.tags == self.tags,
    {
        let mut c = self;
        c.no_cache = no_cache;
        c
    }

    /// Set the pull flag.
    pub fn pull(self, pull: bool) -> (r: BuildConfig)
        ensures
            r.pull == pull,
            r.no_cache == self.no_cache,
            r.source == self.source,
            r.build_args == self.build_args,
            r.tags == self.tags,
    {
        let mut c = self;
        c.pull = pull;
        c
    }
}

impl Default for BuildConfig {
    /// A local build of the current directory for `linux/amd64`.
    fn default() -> (r: BuildConfig)
        ensures
            r.source matches DockerfileSource::Local { context_path, dockerfile_path } && (
            context_path@ == "."@ && dockerfile_path is None),
            r.build_args@.len() == 0,
            r.platforms@.len() == 1,
            r.tags@.len() == 0,
            r.wf(),
    {
        BuildConfig::local(String::from_str("."))
    }
}

} // verus!
