//! Tests for the solve plan: frontend attributes, exporters, caches,
//! and the context source string.

use buildkit_client::solve::{
    build_solve_plan, extract_digest, is_insecure_host, new_build_ref, prepare_context,
    registry_host,
};
use buildkit_client::{BuildConfig, DockerfileSource, Platform, RegistryAuth};

fn attr<'a>(attrs: &'a [(String, String)], key: &str) -> Option<&'a String> {
    attrs.iter().find(|e| e.0 == key).map(|e| &e.1)
}

#[test]
fn test_prepare_context_local() {
    let source = DockerfileSource::Local { context_path: "./app".to_string(), dockerfile_path: None };
    let ctx = prepare_context(&source, "session-abc");
    assert_eq!(ctx, "input:session-abc:context");
}

#[test]
fn test_prepare_context_git() {
    let source = DockerfileSource::GitHub {
        repo_url: "https://github.com/user/repo".to_string(),
        git_ref: Some("main".to_string()),
        dockerfile_path: None,
        token: Some("tok".to_string()),
    };
    let ctx = prepare_context(&source, "unused");
    assert_eq!(ctx, "https://tok@github.com/user/repo.git#main");

    let source = DockerfileSource::GitHub {
        repo_url: "https://github.com/user/repo.git".to_string(),
        git_ref: None,
        dockerfile_path: None,
        token: None,
    };
    let ctx = prepare_context(&source, "unused");
    assert_eq!(ctx, "https://github.com/user/repo.git");
}

#[test]
fn test_insecure_hosts() {
    assert!(is_insecure_host("localhost:5000"));
    assert!(is_insecure_host("127.0.0.1:5000"));
    assert!(is_insecure_host("registry:5000"));
    assert!(is_insecure_host("myregistry"));
    assert!(!is_insecure_host("docker.io"));
    assert!(!is_insecure_host("ghcr.io"));
}

#[test]
fn test_registry_host_from_tag() {
    let config = BuildConfig::local("./app".to_string())
        .tag("registry:5000/myapp:latest".to_string());
    assert_eq!(registry_host(&config), Some("registry:5000".to_string()));

    let config = BuildConfig::local("./app".to_string()).tag("myapp:latest".to_string());
    assert_eq!(registry_host(&config), None);

    let config = BuildConfig::local("./app".to_string())
        .tag("x".to_string())
        .registry_auth(RegistryAuth {
            host: "docker.io".to_string(),
            username: "u".to_string(),
            password: "p".to_string(),
        });
    assert_eq!(registry_host(&config), Some("docker.io".to_string()));
}

#[test]
fn test_solve_plan_frontend_attrs() {
    let config = BuildConfig::local("./app".to_string())
        .dockerfile("custom.Dockerfile".to_string())
        .build_arg("VERSION".to_string(), "1.0.0".to_string())
        .target("prod".to_string())
        .platform(Platform::linux_arm64())
        .no_cache(true)
        .pull(true);

    let plan = build_solve_plan(&config, "sid", "session-key");

    assert_eq!(plan.frontend, "dockerfile.v0");
    assert_eq!(plan.session_id, "sid");

    let attrs = &plan.frontend_attrs;
    assert_eq!(attr(attrs, "filename"), Some(&"custom.Dockerfile".to_string()));
    assert_eq!(attr(attrs, "build-arg:VERSION"), Some(&"1.0.0".to_string()));
    assert_eq!(attr(attrs, "target"), Some(&"prod".to_string()));
    assert_eq!(attr(attrs, "platform"), Some(&"linux/amd64,linux/arm64".to_string()));
    assert_eq!(attr(attrs, "no-cache"), Some(&"true".to_string()));
    assert_eq!(attr(attrs, "image-resolve-mode"), Some(&"pull".to_string()));
    assert_eq!(attr(attrs, "context"), Some(&"input:session-key:context".to_string()));

    // No tags: no exporter.
    assert!(plan.exporters.is_empty());
}

#[test]
fn test_solve_plan_exporter() {
    let config = BuildConfig::local("./app".to_string())
        .tag("registry:5000/myapp:v1".to_string())
        .tag("registry:5000/myapp:latest".to_string());

    let plan = build_solve_plan(&config, "sid", "session-key");

    assert_eq!(plan.exporters.len(), 1);
    let exporter = &plan.exporters[0];
    assert_eq!(exporter.etype, "image");
    assert_eq!(
        attr(&exporter.attrs, "name"),
        Some(&"registry:5000/myapp:v1,registry:5000/myapp:latest".to_string())
    );
    assert_eq!(attr(&exporter.attrs, "push"), Some(&"true".to_string()));
    // A compose-style registry host needs the insecure flag.
    assert_eq!(attr(&exporter.attrs, "registry.insecure"), Some(&"true".to_string()));
}

#[test]
fn test_solve_plan_secure_registry_has_no_insecure_flag() {
    let config = BuildConfig::local("./app".to_string())
        .tag("docker.io/me/myapp:latest".to_string());

    let plan = build_solve_plan(&config, "sid", "key");
    let exporter = &plan.exporters[0];
    assert_eq!(attr(&exporter.attrs, "registry.insecure"), None);
}

#[test]
fn test_solve_plan_cache_entries() {
    let config = BuildConfig::local("./app".to_string())
        .cache_from("myapp:cache".to_string())
        .cache_to("myapp:cache".to_string());

    let plan = build_solve_plan(&config, "sid", "key");

    assert_eq!(plan.cache_imports.len(), 1);
    assert_eq!(plan.cache_imports[0].etype, "registry");
    assert_eq!(attr(&plan.cache_imports[0].attrs, "ref"), Some(&"myapp:cache".to_string()));

    assert_eq!(plan.cache_exports.len(), 1);
    assert_eq!(plan.cache_exports[0].etype, "registry");
    assert_eq!(attr(&plan.cache_exports[0].attrs, "ref"), Some(&"myapp:cache".to_string()));
    assert_eq!(attr(&plan.cache_exports[0].attrs, "mode"), Some(&"max".to_string()));
}

#[test]
fn test_extract_digest() {
    let metadata = vec![
        ("containerimage.digest".to_string(), "sha256:abc123".to_string()),
        ("other".to_string(), "x".to_string()),
    ];
    assert_eq!(extract_digest(&metadata), Some("sha256:abc123".to_string()));
    assert_eq!(extract_digest(&vec![]), None);
}

#[test]
fn test_new_build_ref_shape() {
    let r1 = new_build_ref();
    let r2 = new_build_ref();
    assert_eq!(r1.len(), 42);
    assert!(r1.starts_with("build-"));
    assert_ne!(r1, r2);
}
