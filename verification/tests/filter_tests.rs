use notetree::filter::is_supported_file;
use notetree::filter::is_visible;
use notetree::filter::file_name_of;
use notetree::filter::extension_of;

#[test]
fn markdown_lowercase_is_supported() {
    assert!(is_supported_file("note.md"));
}

#[test]
fn markdown_uppercase_is_supported() {
    assert!(is_supported_file("note.MD"));
}

#[test]
fn text_file_is_not_supported() {
    assert!(!is_supported_file("note.txt"));
}

#[test]
fn webp_image_is_supported() {
    assert!(is_supported_file("image.webp"));
}

#[test]
fn all_image_extensions_are_supported() {
    assert!(is_supported_file("a.png"));
    assert!(is_supported_file("a.jpg"));
    assert!(is_supported_file("a.jpeg"));
    assert!(is_supported_file("a.gif"));
    assert!(is_supported_file("a.svg"));
}

#[test]
fn extension_matching_is_case_sensitive_outside_allow_list() {
    assert!(!is_supported_file("a.PNG"));
    assert!(!is_supported_file("a.Md"));
}

#[test]
fn file_without_extension_is_not_supported() {
    assert!(!is_supported_file("Makefile"));
    assert!(!is_supported_file("/notes/README"));
}

#[test]
fn leading_dot_name_has_no_extension() {
    assert!(!is_supported_file(".gitignore"));
    assert_eq!(extension_of(".gitignore"), None);
}

#[test]
fn extension_of_nested_path_component() {
    assert_eq!(extension_of(file_name_of("/notes/img/pic.png")), Some("png"));
    assert_eq!(file_name_of("/notes/img/pic.png"), "pic.png");
}

#[test]
fn hidden_file_is_never_visible() {
    assert!(!is_visible("/notes/.hidden.md", false));
    assert!(!is_visible("/notes/.hidden.md", true));
    assert!(!is_visible(".config", true));
}

#[test]
fn directory_is_visible_regardless_of_extension() {
    assert!(is_visible("/notes/img", true));
    assert!(is_visible("/notes/backup.tar", true));
}

#[test]
fn file_visibility_follows_allow_list() {
    assert!(is_visible("/notes/a.md", false));
    assert!(!is_visible("/notes/a.txt", false));
}
