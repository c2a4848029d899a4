//! Tests for the depth-first traversal order of the STAT enumeration,
//! as the daemon's validator requires it.

use buildkit_client::proto::{MODE_DIR, MODE_TYPE_MASK};
use buildkit_client::session::filesync::{context_stats, TreeNode};

fn file(name: &str) -> TreeNode {
    TreeNode::File { name: name.to_string(), size: 4, mode: 0o644 }
}

fn dir(name: &str, children: Vec<TreeNode>) -> TreeNode {
    TreeNode::Dir { name: name.to_string(), mode: 0o755, children }
}

/// The tree used throughout:
/// Dockerfile
/// app/
///   config.txt
///   main.txt
///   subdir/
///     data.txt
fn test_structure() -> Vec<TreeNode> {
    vec![
        file("Dockerfile"),
        dir(
            "app",
            vec![file("config.txt"), file("main.txt"), dir("subdir", vec![file("data.txt")])],
        ),
    ]
}

fn order_of(nodes: Vec<TreeNode>) -> Vec<(String, bool)> {
    context_stats(nodes)
        .into_iter()
        .map(|st| (st.path.clone(), st.mode & MODE_TYPE_MASK == MODE_DIR))
        .collect()
}

#[test]
fn test_dfs_traversal_order() {
    let order = order_of(test_structure());

    assert_eq!(order.len(), 6, "Should have 6 entries");

    assert_eq!(order[0].0, "Dockerfile");
    assert_eq!(order[0].1, false, "Dockerfile should be a file");

    assert_eq!(order[1].0, "app");
    assert_eq!(order[1].1, true, "app should be a directory");

    assert_eq!(order[2].0, "app/config.txt");
    assert_eq!(order[2].1, false, "app/config.txt should be a file");

    assert_eq!(order[3].0, "app/main.txt");
    assert_eq!(order[3].1, false, "app/main.txt should be a file");

    assert_eq!(order[4].0, "app/subdir");
    assert_eq!(order[4].1, true, "app/subdir should be a directory");

    assert_eq!(order[5].0, "app/subdir/data.txt");
    assert_eq!(order[5].1, false, "app/subdir/data.txt should be a file");
}

#[test]
fn test_directory_before_contents() {
    let order = order_of(test_structure());

    let pos = |p: &str| order.iter().position(|(q, _)| q == p).unwrap();

    let app_pos = pos("app");
    let config_pos = pos("app/config.txt");
    let main_pos = pos("app/main.txt");
    let subdir_pos = pos("app/subdir");
    let data_pos = pos("app/subdir/data.txt");

    assert!(app_pos < config_pos, "app directory must come before app/config.txt");
    assert!(app_pos < main_pos, "app directory must come before app/main.txt");
    assert!(app_pos < subdir_pos, "app directory must come before app/subdir");

    assert!(subdir_pos < data_pos, "app/subdir must come before app/subdir/data.txt");
}

#[test]
fn test_alphabetical_order_within_directory() {
    // The children are handed over deliberately unsorted.
    let nodes = vec![
        file("Dockerfile"),
        dir(
            "app",
            vec![dir("subdir", vec![file("data.txt")]), file("main.txt"), file("config.txt")],
        ),
    ];
    let order = order_of(nodes);

    let pos = |p: &str| order.iter().position(|(q, _)| q == p).unwrap();

    let config_pos = pos("app/config.txt");
    let main_pos = pos("app/main.txt");
    let subdir_pos = pos("app/subdir");

    assert!(config_pos < main_pos, "config.txt should come before main.txt (alphabetical)");
    assert!(main_pos < subdir_pos, "main.txt should come before subdir (alphabetical)");
}

#[test]
fn test_no_global_sort() {
    // beta.txt after the whole alpha directory.
    let nodes = vec![file("beta.txt"), dir("alpha", vec![file("file.txt")])];
    let order = order_of(nodes);

    assert_eq!(order[0].0, "alpha");
    assert_eq!(order[1].0, "alpha/file.txt");
    assert_eq!(order[2].0, "beta.txt");

    // b-file.txt after the whole a-dir directory: the directory is
    // emitted completely before the later sibling.
    let nodes = vec![file("b-file.txt"), dir("a-dir", vec![file("file.txt")])];
    let order = order_of(nodes);

    assert_eq!(order[0].0, "a-dir");
    assert_eq!(order[1].0, "a-dir/file.txt");
    assert_eq!(order[2].0, "b-file.txt");
}
