use notetree::errors::ScanError;
use notetree::node::FileNode;
use notetree::tree::FsEntry;
use notetree::tree::build;
use notetree::tree::build_nodes;
use notetree::tree::check_scan_root;
use notetree::tree::join_path;

fn file(name: &str) -> FsEntry {
    FsEntry::File { name: name.to_string() }
}

fn dir(name: &str, listing: Vec<FsEntry>) -> FsEntry {
    FsEntry::Dir { name: name.to_string(), listing: Some(listing) }
}

fn unreadable_dir(name: &str) -> FsEntry {
    FsEntry::Dir { name: name.to_string(), listing: None }
}

fn names(nodes: &[FileNode]) -> Vec<&str> {
    nodes.iter().map(|n| n.name.as_str()).collect()
}

fn assert_nodes_equal(a: &FileNode, b: &FileNode) {
    assert_eq!(a.id, b.id);
    assert_eq!(a.name, b.name);
    assert_eq!(a.path, b.path);
    assert_eq!(a.node_type, b.node_type);
    match (&a.children, &b.children) {
        (None, None) => {}
        (Some(ca), Some(cb)) => {
            assert_eq!(ca.len(), cb.len());
            for (x, y) in ca.iter().zip(cb.iter()) {
                assert_nodes_equal(x, y);
            }
        }
        _ => panic!("children shape differs"),
    }
}

#[test]
fn join_path_inserts_separator() {
    assert_eq!(join_path("/notes", "a.md"), "/notes/a.md");
}

#[test]
fn siblings_sort_folders_first_case_insensitive() {
    let entries = vec![
        file("z.md"),
        dir("b", vec![]),
        dir("A", vec![]),
        file("Y.md"),
        dir("c", vec![]),
    ];
    let nodes = build_nodes("/r", &entries);
    assert_eq!(names(&nodes), vec!["A", "b", "c", "Y.md", "z.md"]);
    for n in &nodes[..3] {
        assert_eq!(n.node_type, "folder");
    }
    for n in &nodes[3..] {
        assert_eq!(n.node_type, "file");
    }
}

#[test]
fn unreadable_subdirectory_becomes_empty_folder() {
    let entries = vec![dir("ok", vec![file("a.md")]), unreadable_dir("locked")];
    let result = build("/r", Some(entries));
    let nodes = result.expect("scan must tolerate a failing subdirectory");
    assert_eq!(names(&nodes), vec!["locked", "ok"]);
    assert_eq!(nodes[0].node_type, "folder");
    assert_eq!(nodes[0].children.as_ref().unwrap().len(), 0);
    assert_eq!(nodes[1].children.as_ref().unwrap().len(), 1);
}

#[test]
fn repeated_scans_are_identical() {
    let entries = vec![
        dir("img", vec![file("pic.png"), file("pic.txt")]),
        file("a.md"),
        file(".hidden.md"),
    ];
    let first = build_nodes("/notes", &entries);
    let second = build_nodes("/notes", &entries);
    assert_eq!(first.len(), second.len());
    for (a, b) in first.iter().zip(second.iter()) {
        assert_nodes_equal(a, b);
    }
}

#[test]
fn end_to_end_notes_scenario() {
    let entries = vec![
        file("a.md"),
        file(".hidden.md"),
        dir("img", vec![file("pic.png"), file("pic.txt")]),
    ];
    let nodes = build("/notes", Some(entries)).unwrap();
    assert_eq!(nodes.len(), 2);

    assert_eq!(nodes[0].name, "img");
    assert_eq!(nodes[0].node_type, "folder");
    assert_eq!(nodes[0].path, "/notes/img");
    let img_children = nodes[0].children.as_ref().unwrap();
    assert_eq!(img_children.len(), 1);
    assert_eq!(img_children[0].name, "pic.png");
    assert_eq!(img_children[0].node_type, "file");
    assert_eq!(img_children[0].path, "/notes/img/pic.png");
    assert!(img_children[0].children.is_none());

    assert_eq!(nodes[1].name, "a.md");
    assert_eq!(nodes[1].node_type, "file");
    assert_eq!(nodes[1].path, "/notes/a.md");
    assert!(nodes[1].children.is_none());
}

#[test]
fn hidden_directories_are_skipped() {
    let entries = vec![dir(".git", vec![file("config.md")]), file("a.md")];
    let nodes = build_nodes("/r", &entries);
    assert_eq!(names(&nodes), vec!["a.md"]);
}

#[test]
fn unreadable_root_fails_whole_scan() {
    let result = build("/gone", None);
    match result {
        Err(ScanError::Unreadable { path }) => assert_eq!(path, "/gone"),
        _ => panic!("an unreadable root must fail the scan"),
    }
}

#[test]
fn missing_root_is_rejected() {
    match check_scan_root("/gone", false, false) {
        Err(e @ ScanError::NotFound { .. }) => {
            assert_eq!(e.message(), "Directory does not exist: /gone");
        }
        _ => panic!("a missing root must be rejected"),
    }
}

#[test]
fn file_root_is_rejected() {
    match check_scan_root("/notes/a.md", true, false) {
        Err(e @ ScanError::WrongKind { .. }) => {
            assert_eq!(e.message(), "Path is not a directory: /notes/a.md");
        }
        _ => panic!("a non-directory root must be rejected"),
    }
}

#[test]
fn directory_root_is_accepted() {
    assert!(check_scan_root("/notes", true, true).is_ok());
}

#[test]
fn node_ids_are_path_fingerprints() {
    let entries = vec![file("a.md")];
    let nodes = build_nodes("/notes", &entries);
    assert_eq!(nodes[0].id, notetree::fingerprint::path_id("/notes/a.md"));
    assert_eq!(nodes[0].id, "ebfa5db8ed2d5412");
}

#[test]
fn equal_keys_keep_listing_order() {
    let entries = vec![file("a.md"), file("A.md")];
    let nodes = build_nodes("/r", &entries);
    assert_eq!(names(&nodes), vec!["a.md", "A.md"]);

    let swapped = vec![file("A.md"), file("a.md")];
    let nodes = build_nodes("/r", &swapped);
    assert_eq!(names(&nodes), vec!["A.md", "a.md"]);
}

#[test]
fn nested_levels_sort_independently() {
    let entries = vec![dir(
        "outer",
        vec![dir("inner", vec![file("deep.md")]), file("b.md"), file("a.md")],
    )];
    let nodes = build_nodes("/r", &entries);
    let outer = nodes[0].children.as_ref().unwrap();
    assert_eq!(names(outer), vec!["inner", "a.md", "b.md"]);
    let inner = outer[0].children.as_ref().unwrap();
    assert_eq!(names(inner), vec!["deep.md"]);
    assert_eq!(inner[0].path, "/r/outer/inner/deep.md");
}
