use notetree::fingerprint::path_id;
use notetree::fingerprint::hex_of_u64;
use notetree::node::FileNode;

#[test]
fn empty_path_fingerprint_is_offset_basis() {
    assert_eq!(path_id(""), "cbf29ce484222325");
}

#[test]
fn short_path_fingerprint_matches_fnv1a() {
    assert_eq!(path_id("/a"), "7d66707b49cd92d");
}

#[test]
fn note_path_fingerprint_matches_fnv1a() {
    assert_eq!(path_id("/notes/a.md"), "ebfa5db8ed2d5412");
}

#[test]
fn hex_of_zero_is_single_digit() {
    assert_eq!(hex_of_u64(0), "0");
}

#[test]
fn hex_has_no_leading_zeros() {
    assert_eq!(hex_of_u64(16), "10");
    assert_eq!(hex_of_u64(255), "ff");
    assert_eq!(hex_of_u64(u64::MAX), "ffffffffffffffff");
}

#[test]
fn same_path_same_id() {
    assert_eq!(path_id("/notes/x.md"), path_id("/notes/x.md"));
}

#[test]
fn distinct_paths_distinct_ids() {
    assert_ne!(path_id("/notes/a.md"), path_id("/notes/b.md"));
}

#[test]
fn node_fields_derive_from_path() {
    let node = FileNode::new("/notes/a.md", "file", None);
    assert_eq!(node.id, path_id("/notes/a.md"));
    assert_eq!(node.name, "a.md");
    assert_eq!(node.path, "/notes/a.md");
    assert_eq!(node.node_type, "file");
    assert!(node.children.is_none());
}
