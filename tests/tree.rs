use notefs::error::FsError;
use notefs::tree::{check_tree_root, millis_since_epoch, FileMetadata, FileNode, TreeBuilder};

#[test]
fn missing_root_is_not_found() {
    assert_eq!(check_tree_root(false, false), Err(FsError::NotFound));
}

#[test]
fn plain_file_root_is_not_a_directory() {
    assert_eq!(check_tree_root(true, false), Err(FsError::NotADirectory));
    assert_eq!(check_tree_root(true, true), Ok(()));
}

#[test]
fn directory_nodes_carry_children() {
    let leaf = FileNode::for_entry("/d/sub/a.md", false, Vec::new());
    assert_eq!(leaf.name, "a.md");
    assert!(!leaf.is_dir);
    assert!(leaf.children.is_none());
    let empty = FileNode::for_entry("/d/empty", true, Vec::new());
    assert_eq!(empty.children.as_ref().map(|c| c.len()), Some(0));
    let sub = FileNode::for_entry("/d/sub", true, vec![leaf]);
    assert_eq!(sub.name, "sub");
    assert_eq!(sub.path, "/d/sub");
    let kids = sub.children.unwrap();
    assert_eq!(kids.len(), 1);
    assert_eq!(kids[0].path, "/d/sub/a.md");
}

#[test]
fn file_node_drops_children_of_a_file() {
    let stray = FileNode::for_entry("/d/x", false, Vec::new());
    let f = FileNode::for_entry("/d/a.md", false, vec![stray]);
    assert!(f.children.is_none());
}

#[test]
fn millis_from_seconds_and_nanos() {
    assert_eq!(millis_since_epoch(0, 0), 0);
    assert_eq!(millis_since_epoch(1_700_000_000, 123_456_789), 1_700_000_000_123);
    assert_eq!(millis_since_epoch(2, 999_999), 2000);
    let wide = (u64::MAX as u128) * 1000 + 999;
    assert_eq!(millis_since_epoch(u64::MAX, 999_999_999), wide as u64);
}

#[test]
fn metadata_for_entry() {
    let m = FileMetadata::for_entry("/d/a.md".to_string(), 42, false, 10, 5_000_000);
    assert_eq!(m.name, "a.md");
    assert_eq!(m.path, "/d/a.md");
    assert_eq!(m.size, 42);
    assert_eq!(m.last_modified, 10_005);
    assert!(!m.is_dir);
}

#[test]
fn builder_nests_directories() {
    let mut b = TreeBuilder::new();
    b.add_file("/d/a.md");
    b.enter_dir("/d/sub".to_string());
    b.add_file("/d/sub/b.md");
    b.enter_dir("/d/sub/empty".to_string());
    assert!(b.leave_dir());
    assert!(b.leave_dir());
    let nodes = b.finish().unwrap();
    assert_eq!(nodes.len(), 2);
    assert_eq!(nodes[0].name, "a.md");
    assert!(nodes[0].children.is_none());
    assert_eq!(nodes[1].name, "sub");
    assert!(nodes[1].is_dir);
    let kids = nodes[1].children.as_ref().unwrap();
    assert_eq!(kids.len(), 2);
    assert_eq!(kids[0].path, "/d/sub/b.md");
    assert_eq!(kids[1].name, "empty");
    assert_eq!(kids[1].children.as_ref().map(|c| c.len()), Some(0));
}

#[test]
fn builder_refuses_unbalanced_walks() {
    let mut b = TreeBuilder::new();
    assert!(!b.leave_dir());
    b.enter_dir("/d/sub".to_string());
    assert!(b.finish().is_none());
}

#[test]
fn builder_keeps_entries_read_before_a_directory() {
    let mut b = TreeBuilder::new();
    b.enter_dir("/d/x".to_string());
    b.add_file("/d/x/one");
    b.enter_dir("/d/x/y".to_string());
    assert!(b.leave_dir());
    b.add_file("/d/x/two");
    assert!(b.leave_dir());
    let nodes = b.finish().unwrap();
    assert_eq!(nodes.len(), 1);
    assert_eq!(nodes[0].path, "/d/x");
    let kids = nodes[0].children.as_ref().unwrap();
    let paths: Vec<&str> = kids.iter().map(|k| k.path.as_str()).collect();
    assert_eq!(paths, vec!["/d/x/one", "/d/x/y", "/d/x/two"]);
    assert_eq!(kids[1].name, "y");
    assert!(kids[1].is_dir);
}
