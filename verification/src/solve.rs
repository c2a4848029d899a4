//! Building the solve request: the frontend attributes, the exporters,
//! the cache options, and the context source string.

use crate::builder::{platform_text, BuildConfig, DockerfileSource, Platform};
use crate::text::{contains_seq, ends_with, join_seqs, split_char, starts_with};
use vstd::prelude::*;

verus! {

/// The view of a list of string pairs.
pub open spec fn pairs_view(v: Seq<(String, String)>) -> Seq<(Seq<char>, Seq<char>)> {
    v.map_values(|e: (String, String)| (e.0@, e.1@))
}

/// One exporter of the solve request.
pub struct Exporter {
    /// The exporter type, such as `image`.
    pub etype: String,
    /// The exporter attributes.
    pub attrs: Vec<(String, String)>,
}

/// The mathematical value of an `Exporter`.
pub ghost struct ExporterModel {
    pub etype: Seq<char>,
    pub attrs: Seq<(Seq<char>, Seq<char>)>,
}

impl View for Exporter {
    type V = ExporterModel;

    open spec fn view(&self) -> ExporterModel {
        ExporterModel { etype: self.etype@, attrs: pairs_view(self.attrs@) }
    }
}

impl DeepView for Exporter {
    type V = ExporterModel;

    open spec fn deep_view(&self) -> ExporterModel {
        self@
    }
}

/// One cache import or export of the solve request.
pub struct CacheOptionsEntry {
    /// The cache type, such as `registry`.
    pub etype: String,
    /// The cache attributes.
    pub attrs: Vec<(String, String)>,
}

/// The mathematical value of a `CacheOptionsEntry`.
pub ghost struct CacheEntryModel {
    pub etype: Seq<char>,
    pub attrs: Seq<(Seq<char>, Seq<char>)>,
}

impl View for CacheOptionsEntry {
    type V = CacheEntryModel;

    open spec fn view(&self) -> CacheEntryModel {
        CacheEntryModel { etype: self.etype@, attrs: pairs_view(self.attrs@) }
    }
}

impl DeepView for CacheOptionsEntry {
    type V = CacheEntryModel;

    open spec fn deep_view(&self) -> CacheEntryModel {
        self@
    }
}

/// What a finished build hands back.
pub struct BuildResult {
    /// The image digest, when the daemon reported one.
    pub digest: Option<String>,
    /// The whole exporter response metadata.
    pub metadata: Vec<(String, String)>,
}

/// The context source string the frontend is given: a session input
/// reference for a local context, or a git URL with its `.git` suffix,
/// embedded token, and pinned reference.
pub open spec fn spec_prepare_context(src: DockerfileSource, key: Seq<char>) -> Seq<char> {
    match src {
        DockerfileSource::Local { .. } => "input:"@ + key + ":context"@,
        DockerfileSource::GitHub { repo_url, git_ref, token, .. } => {
            let u0 = if ends_with(repo_url@, ".git"@) {
                repo_url@
            } else {
                repo_url@ + ".git"@
            };
            let u1 = match token {
                Some(t) => if starts_with(u0, "https://"@) {
                    "https://"@ + t@ + "@"@ + u0.skip(8)
                } else {
                    u0
                },
                None => u0,
            };
            match git_ref {
                Some(r) => u1 + "#"@ + r@,
                None => u1,
            }
        },
    }
}

/// The context source string for the solve request.
pub fn prepare_context(source: &DockerfileSource, shared_key: &str) -> (r: String)
    ensures
        r@ == spec_prepare_context(*source, shared_key@),
{
    match source {
        DockerfileSource::Local { .. } => {
            let mut s = String::from_str("input:");
            s.append(shared_key);
            s.append(":context");
            s
        },
        DockerfileSource::GitHub { repo_url, git_ref, token, .. } => {
            let mut url = repo_url.clone();
            if !crate::text::str_ends_with(url.as_str(), ".git") {
                url.append(".git");
            }
            let ghost u0 = url@;
            match token {
                Some(t) => {
                    if crate::text::str_starts_with(url.as_str(), "https://") {
                        proof {
                            reveal_strlit("https://");
                        }
                        let url_len = url.as_str().unicode_len();
                        let rest_owned = String::from_str(
                            url.as_str().substring_char(8, url_len),
                        );
                        let mut u = String::from_str("https://");
                        u.append(t.as_str());
                        u.append("@");
                        u.append(rest_owned.as_str());
                        proof {
                            assert(rest_owned@ =~= u0.skip(8));
                        }
                        url = u;
                    }
                },
                None => {},
            }
            match git_ref {
                Some(r) => {
                    url.append("#");
                    url.append(r.as_str());
                },
                None => {},
            }
            url
        },
    }
}

/// A registry host that the daemon must reach over plain HTTP: a local
/// name, a loopback address, a compose-style service, or a dotless name
/// that is not the default registry.
pub open spec fn spec_is_insecure(host: Seq<char>) -> bool {
    ||| starts_with(host, "localhost"@)
    ||| starts_with(host, "127.0.0.1"@)
    ||| starts_with(host, "registry:"@)
    ||| (!contains_seq(host, "."@) && !starts_with(host, "docker.io"@))
}

/// Whether a registry host needs the insecure flag.
pub fn is_insecure_host(host: &str) -> (r: bool)
    ensures
        r == spec_is_insecure(host@),
{
    if crate::text::str_starts_with(host, "localhost") {
        return true;
    }
    if crate::text::str_starts_with(host, "127.0.0.1") {
        return true;
    }
    if crate::text::str_starts_with(host, "registry:") {
        return true;
    }
    !crate::text::str_contains(host, ".") && !crate::text::str_starts_with(host, "docker.io")
}

/// The registry host a push would go to: the configured auth host, or
/// the host part of the first tag when it looks like one.
pub open spec fn spec_registry_host(c: BuildConfig) -> Option<Seq<char>> {
    match c.registry_auth {
        Some(a) => Some(a.host@),
        None => if c.tags@.len() > 0 {
            let parts = split_char(c.tags@[0]@, '/');
            if parts.len() > 1 && (contains_seq(parts[0], ":"@) || contains_seq(parts[0], "."@)
                || parts[0] == "localhost"@) {
                Some(parts[0])
            } else {
                None
            }
        } else {
            None
        },
    }
}

/// The registry host a push would go to, when one can be named.
pub fn registry_host(c: &BuildConfig) -> (r: Option<String>)
    ensures
        match r {
            Some(h) => spec_registry_host(*c) == Some(h@),
            None => spec_registry_host(*c) is None,
        },
{
    match &c.registry_auth {
        Some(a) => Some(a.host.clone()),
        None => {
            if c.tags.len() > 0 {
                let parts = crate::text::split_str(c.tags[0].as_str(), '/');
                proof {
                    assert(parts.deep_view().len() == parts@.len());
                }
                if parts.len() > 1 {
                    let head = &parts[0];
                    proof {
                        assert(parts.deep_view()[0] == parts@[0]@);
                    }
                    let looks_like_host = crate::text::str_contains(head.as_str(), ":")
                        || crate::text::str_contains(head.as_str(), ".") || crate::text::str_eq(
                        head.as_str(),
                        "localhost",
                    );
                    if looks_like_host {
                        return Some(head.clone());
                    }
                    return None;
                }
                return None;
            }
            None
        },
    }
}

/// The frontend attributes of a solve request, in the order they are
/// assembled: the Dockerfile name override, one entry per build
/// argument, the target stage, the platform list, the cache and pull
/// flags, and the context source.
pub open spec fn spec_frontend_attrs(c: BuildConfig, key: Seq<char>) -> Seq<
    (Seq<char>, Seq<char>),
> {
    (match c.source {
        DockerfileSource::Local { dockerfile_path: Some(d), .. } => seq![("filename"@, d@)],
        DockerfileSource::GitHub { dockerfile_path: Some(d), .. } => seq![("filename"@, d@)],
        _ => Seq::empty(),
    }) + c.build_args@.map_values(|e: (Seq<char>, Seq<char>)| ("build-arg:"@ + e.0, e.1)) + (
    match c.target {
        Some(t) => seq![("target"@, t@)],
        None => Seq::empty(),
    }) + (if c.platforms@.len() > 0 {
        seq![
            (
                "platform"@,
                join_seqs(c.platforms@.map_values(|p: Platform| platform_text(p@)), seq![',']),
            ),
        ]
    } else {
        Seq::empty()
    }) + (if c.no_cache {
        seq![("no-cache"@, "true"@)]
    } else {
        Seq::empty()
    }) + (if c.pull {
        seq![("image-resolve-mode"@, "pull"@)]
    } else {
        Seq::empty()
    }) + seq![("context"@, spec_prepare_context(c.source, key))]
}

/// The attributes of the image exporter: the comma-joined tags, the push
/// flag, and the insecure flag when the destination registry needs it.
pub open spec fn spec_export_attrs(c: BuildConfig) -> Seq<(Seq<char>, Seq<char>)> {
    seq![
        ("name"@, join_seqs(c.tags@.map_values(|t: String| t@), seq![','])),
        ("push"@, "true"@),
    ] + (if (match spec_registry_host(c) {
        Some(h) => spec_is_insecure(h),
        None => false,
    }) {
        seq![("registry.insecure"@, "true"@)]
    } else {
        Seq::empty()
    })
}

/// The exporters of a solve request: one image exporter when any tag is
/// configured, none otherwise.
pub open spec fn spec_exporters(c: BuildConfig) -> Seq<ExporterModel> {
    if c.tags@.len() == 0 {
        Seq::empty()
    } else {
        seq![ExporterModel { etype: "image"@, attrs: spec_export_attrs(c) }]
    }
}

/// The cache imports: one registry entry per configured source.
pub open spec fn spec_cache_imports(c: BuildConfig) -> Seq<CacheEntryModel> {
    c.cache_from@.map_values(
        |s: String| CacheEntryModel { etype: "registry"@, attrs: seq![("ref"@, s@)] },
    )
}

/// The cache exports: one registry entry per configured destination,
/// each in max mode.
pub open spec fn spec_cache_exports(c: BuildConfig) -> Seq<CacheEntryModel> {
    c.cache_to@.map_values(
        |s: String| CacheEntryModel {
            etype: "registry"@,
            attrs: seq![("ref"@, s@), ("mode"@, "max"@)],
        },
    )
}

/// The solve request's computed parts, ready to be sent.
pub struct SolvePlan {
    /// The frontend name.
    pub frontend: String,
    /// The frontend attributes.
    pub frontend_attrs: Vec<(String, String)>,
    /// The exporters.
    pub exporters: Vec<Exporter>,
    /// The cache imports.
    pub cache_imports: Vec<CacheOptionsEntry>,
    /// The cache exports.
    pub cache_exports: Vec<CacheOptionsEntry>,
    /// The session id the request names.
    pub session_id: String,
}

/// The frontend attributes, assembled in order.
#[verifier::spinoff_prover]
#[verifier::rlimit(100)]
fn frontend_attrs_of(c: &BuildConfig, shared_key: &str) -> (r: Vec<(String, String)>)
    ensures
        pairs_view(r@) == spec_frontend_attrs(*c, shared_key@),
{
    let mut attrs: Vec<(String, String)> = Vec::new();

    let ghost part_filename = (match &c.source {
        DockerfileSource::Local { dockerfile_path: Some(d), .. } => seq![("filename"@, d@)],
        DockerfileSource::GitHub { dockerfile_path: Some(d), .. } => seq![("filename"@, d@)],
        _ => Seq::<(Seq<char>, Seq<char>)>::empty(),
    });
    match &c.source {
        DockerfileSource::Local { dockerfile_path, .. } => match dockerfile_path {
            Some(d) => {
                attrs.push((String::from_str("filename"), d.clone()));
            },
            None => {},
        },
        DockerfileSource::GitHub { dockerfile_path, .. } => match dockerfile_path {
            Some(d) => {
                attrs.push((String::from_str("filename"), d.clone()));
            },
            None => {},
        },
    }
    proof {
        assert(pairs_view(attrs@) =~= part_filename);
    }

    let ghost part_args = c.build_args@.map_values(
        |e: (Seq<char>, Seq<char>)| ("build-arg:"@ + e.0, e.1),
    );
    let mut i: usize = 0;
    let args_len = c.build_args.len();
    while i < args_len
        invariant
            0 <= i <= args_len,
            args_len == c.build_args@.len(),
            part_args == c.build_args@.map_values(
                |e: (Seq<char>, Seq<char>)| ("build-arg:"@ + e.0, e.1),
            ),
            pairs_view(attrs@) =~= part_filename + part_args.take(i as int),
        decreases args_len - i,
    {
        let entry = c.build_args.entry_at(i);
        let mut k = String::from_str("build-arg:");
        k.append(entry.0.as_str());
        let ghost pre = attrs@;
        let ghost val_view = entry.1@;
        proof {
            assert(k@ == "build-arg:"@ + c.build_args@[i as int].0);
            assert(val_view == c.build_args@[i as int].1);
        }
        attrs.push((k, entry.1));
        proof {
            assert(pairs_view(attrs@) =~= pairs_view(pre).push(
                ("build-arg:"@ + c.build_args@[i as int].0, c.build_args@[i as int].1),
            ));
            assert(part_args[i as int] == ("build-arg:"@ + c.build_args@[i as int].0, c.build_args@[
                i as int].1));
            assert(part_args.take(i + 1) =~= part_args.take(i as int).push(part_args[i as int]));
            assert(pairs_view(attrs@) =~= part_filename + part_args.take(i + 1));
        }
        i += 1;
    }
    proof {
        assert(part_args.take(args_len as int) =~= part_args);
    }

    let ghost part_target = (match &c.target {
        Some(t) => seq![("target"@, t@)],
        None => Seq::<(Seq<char>, Seq<char>)>::empty(),
    });
    match &c.target {
        Some(t) => {
            attrs.push((String::from_str("target"), t.clone()));
        },
        None => {},
    }
    proof {
        assert(pairs_view(attrs@) =~= part_filename + part_args + part_target);
    }

    let ghost part_platform = (if c.platforms@.len() > 0 {
        seq![
            (
                "platform"@,
                join_seqs(c.platforms@.map_values(|p: Platform| platform_text(p@)), seq![',']),
            ),
        ]
    } else {
        Seq::<(Seq<char>, Seq<char>)>::empty()
    });
    if c.platforms.len() > 0 {
        let mut texts: Vec<String> = Vec::new();
        let mut j: usize = 0;
        while j < c.platforms.len()
            invariant
                0 <= j <= c.platforms@.len(),
                texts.deep_view() =~= c.platforms@.map_values(|p: Platform| platform_text(p@)).take(
                    j as int,
                ),
            decreases c.platforms@.len() - j,
        {
            let t = c.platforms[j].to_string();
            texts.push(t);
            proof {
                let full = c.platforms@.map_values(|p: Platform| platform_text(p@));
                assert(full[j as int] == platform_text(c.platforms@[j as int]@));
                assert(full.take(j + 1) =~= full.take(j as int).push(full[j as int]));
                assert(texts.deep_view() =~= full.take(j + 1));
            }
            j += 1;
        }
        proof {
            let full = c.platforms@.map_values(|p: Platform| platform_text(p@));
            assert(full.take(c.platforms@.len() as int) =~= full);
            reveal_strlit(",");
            assert(","@ =~= seq![',']);
        }
        let joined = crate::text::join_strings(&texts, ",");
        attrs.push((String::from_str("platform"), joined));
    }
    proof {
        assert(pairs_view(attrs@) =~= part_filename + part_args + part_target + part_platform);
    }

    let ghost part_no_cache = (if c.no_cache {
        seq![("no-cache"@, "true"@)]
    } else {
        Seq::<(Seq<char>, Seq<char>)>::empty()
    });
    if c.no_cache {
        attrs.push((String::from_str("no-cache"), String::from_str("true")));
    }
    let ghost part_pull = (if c.pull {
        seq![("image-resolve-mode"@, "pull"@)]
    } else {
        Seq::<(Seq<char>, Seq<char>)>::empty()
    });
    if c.pull {
        attrs.push((String::from_str("image-resolve-mode"), String::from_str("pull")));
    }
    proof {
        assert(pairs_view(attrs@) =~= part_filename + part_args + part_target + part_platform
            + part_no_cache + part_pull);
    }

    let context = prepare_context(&c.source, shared_key);
    attrs.push((String::from_str("context"), context));
    proof {
        assert(pairs_view(attrs@) =~= spec_frontend_attrs(*c, shared_key@));
    }
    attrs
}

/// The exporters, when any tag is configured.
fn exporters_of(c: &BuildConfig) -> (r: Vec<Exporter>)
    ensures
        r.deep_view() == spec_exporters(*c),
{
    let mut exporters: Vec<Exporter> = Vec::new();
    if c.tags.len() > 0 {
        let mut export_attrs: Vec<(String, String)> = Vec::new();
        let mut tag_texts: Vec<String> = Vec::new();
        let mut j: usize = 0;
        while j < c.tags.len()
            invariant
                0 <= j <= c.tags@.len(),
                tag_texts.deep_view() =~= c.tags@.map_values(|t: String| t@).take(j as int),
            decreases c.tags@.len() - j,
        {
            tag_texts.push(c.tags[j].clone());
            proof {
                let full = c.tags@.map_values(|t: String| t@);
                assert(full[j as int] == c.tags@[j as int]@);
                assert(full.take(j + 1) =~= full.take(j as int).push(full[j as int]));
                assert(tag_texts.deep_view() =~= full.take(j + 1));
            }
            j += 1;
        }
        proof {
            let full = c.tags@.map_values(|t: String| t@);
            assert(full.take(c.tags@.len() as int) =~= full);
            reveal_strlit(",");
            assert(","@ =~= seq![',']);
        }
        let name = crate::text::join_strings(&tag_texts, ",");
        export_attrs.push((String::from_str("name"), name));
        export_attrs.push((String::from_str("push"), String::from_str("true")));
        let insecure = match registry_host(c) {
            Some(h) => is_insecure_host(h.as_str()),
            None => false,
        };
        if insecure {
            export_attrs.push(
                (String::from_str("registry.insecure"), String::from_str("true")),
            );
        }
        proof {
            assert(pairs_view(export_attrs@) =~= spec_export_attrs(*c));
        }
        exporters.push(Exporter { etype: String::from_str("image"), attrs: export_attrs });
        proof {
            assert(exporters.deep_view() =~= spec_exporters(*c));
        }
    } else {
        proof {
            assert(exporters.deep_view() =~= spec_exporters(*c));
        }
    }
    exporters
}

/// The cache imports: one registry entry per configured source.
fn cache_imports_of(c: &BuildConfig) -> (r: Vec<CacheOptionsEntry>)
    ensures
        r.deep_view() == spec_cache_imports(*c),
{
    let mut cache_imports: Vec<CacheOptionsEntry> = Vec::new();
    let mut j: usize = 0;
    while j < c.cache_from.len()
        invariant
            0 <= j <= c.cache_from@.len(),
            cache_imports.deep_view() =~= spec_cache_imports(*c).take(j as int),
        decreases c.cache_from@.len() - j,
    {
        let mut entry_attrs: Vec<(String, String)> = Vec::new();
        entry_attrs.push((String::from_str("ref"), c.cache_from[j].clone()));
        let entry = CacheOptionsEntry { etype: String::from_str("registry"), attrs: entry_attrs };
        proof {
            assert(entry@.attrs =~= seq![("ref"@, c.cache_from@[j as int]@)]);
            assert(entry@ == spec_cache_imports(*c)[j as int]);
        }
        cache_imports.push(entry);
        proof {
            assert(spec_cache_imports(*c).take(j + 1) =~= spec_cache_imports(*c).take(
                j as int,
            ).push(spec_cache_imports(*c)[j as int]));
            assert(cache_imports.deep_view() =~= spec_cache_imports(*c).take(j + 1));
        }
        j += 1;
    }
    proof {
        assert(spec_cache_imports(*c).take(c.cache_from@.len() as int) =~= spec_cache_imports(*c));
    }
    cache_imports
}

/// The cache exports: one registry entry per configured destination.
fn cache_exports_of(c: &BuildConfig) -> (r: Vec<CacheOptionsEntry>)
    ensures
        r.deep_view() == spec_cache_exports(*c),
{
    let mut cache_exports: Vec<CacheOptionsEntry> = Vec::new();
    let mut j2: usize = 0;
    while j2 < c.cache_to.len()
        invariant
            0 <= j2 <= c.cache_to@.len(),
            cache_exports.deep_view() =~= spec_cache_exports(*c).take(j2 as int),
        decreases c.cache_to@.len() - j2,
    {
        let mut entry_attrs: Vec<(String, String)> = Vec::new();
        entry_attrs.push((String::from_str("ref"), c.cache_to[j2].clone()));
        entry_attrs.push((String::from_str("mode"), String::from_str("max")));
        let entry = CacheOptionsEntry { etype: String::from_str("registry"), attrs: entry_attrs };
        proof {
            assert(entry@.attrs =~= seq![
                ("ref"@, c.cache_to@[j2 as int]@),
                ("mode"@, "max"@),
            ]);
            assert(entry@ == spec_cache_exports(*c)[j2 as int]);
        }
        cache_exports.push(entry);
        proof {
            assert(spec_cache_exports(*c).take(j2 + 1) =~= spec_cache_exports(*c).take(
                j2 as int,
            ).push(spec_cache_exports(*c)[j2 as int]));
            assert(cache_exports.deep_view() =~= spec_cache_exports(*c).take(j2 + 1));
        }
        j2 += 1;
    }
    proof {
        assert(spec_cache_exports(*c).take(c.cache_to@.len() as int) =~= spec_cache_exports(*c));
    }
    cache_exports
}

/// Assemble the solve request parts from a configuration and the
/// session's identifiers. The context source names the shared key, not
/// the session id.
pub fn build_solve_plan(c: &BuildConfig, session_id: &str, shared_key: &str) -> (r: SolvePlan)
    ensures
        r.frontend@ == "dockerfile.v0"@,
        r.session_id@ == session_id@,
        pairs_view(r.frontend_attrs@) == spec_frontend_attrs(*c, shared_key@),
        r.exporters.deep_view() == spec_exporters(*c),
        r.cache_imports.deep_view() == spec_cache_imports(*c),
        r.cache_exports.deep_view() == spec_cache_exports(*c),
{
    let attrs = frontend_attrs_of(c, shared_key);
    let exporters = exporters_of(c);
    let cache_imports = cache_imports_of(c);
    let cache_exports = cache_exports_of(c);
    SolvePlan {
        frontend: String::from_str("dockerfile.v0"),
        frontend_attrs: attrs,
        exporters,
        cache_imports,
        cache_exports,
        session_id: String::from_str(session_id),
    }
}

/// A fresh build reference: `build-` followed by a new UUID.
pub fn new_build_ref() -> (r: String)
    ensures
        r@.len() == 42,
        starts_with(r@, "build-"@),
{
    let mut r = String::from_str("build-");
    let id = crate::session::new_uuid_string();
    proof {
        reveal_strlit("build-");
    }
    r.append(id.as_str());
    proof {
        assert(r@.take(6) =~= "build-"@);
    }
    r
}

/// The image digest of a solve response's metadata, when present.
pub fn extract_digest(metadata: &Vec<(String, String)>) -> (r: Option<String>)
    ensures
        match r {
            Some(d) => crate::assoc::assoc_lookup(pairs_view(metadata@), "containerimage.digest"@)
                == Some(d@),
            None => crate::assoc::assoc_lookup(pairs_view(metadata@), "containerimage.digest"@)
                is None,
        },
{
    let mut i: usize = 0;
    while i < metadata.len()
        invariant
            0 <= i <= metadata@.len(),
            forall|j: int|
                0 <= j < i ==> (#[trigger] pairs_view(metadata@)[j]).0
                    != "containerimage.digest"@,
        decreases metadata@.len() - i,
    {
        if crate::text::str_eq(metadata[i].0.as_str(), "containerimage.digest") {
            proof {
                crate::assoc::lemma_assoc_at(
                    pairs_view(metadata@),
                    "containerimage.digest"@,
                    i as int,
                );
            }
            return Some(metadata[i].1.clone());
        }
        proof {
            assert((pairs_view(metadata@)[i as int]).0 == metadata@[i as int].0@);
        }
        i += 1;
    }
    proof {
        crate::assoc::lemma_assoc_absent(pairs_view(metadata@), "containerimage.digest"@);
    }
    None
}

} // verus!
