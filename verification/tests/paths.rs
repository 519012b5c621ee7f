use vault_outline::paths::{create_dest_path, extension, remove_path_prefix, PathError, TreePath};

fn path(absolute: bool, components: &[&str]) -> TreePath {
    TreePath { absolute, components: components.iter().map(|c| c.to_string()).collect() }
}

#[test]
fn strips_root_from_target_below_it() {
    let root = path(true, &["home", "user", "root_dir"]);
    let target = path(true, &["home", "user", "root_dir", "dir1", "dir2", "test.md"]);
    let stripped = remove_path_prefix(&target, &root).unwrap();
    assert!(!stripped.absolute);
    assert_eq!(stripped.components, vec!["dir1", "dir2", "test.md"]);
    assert_eq!(stripped.display(), "dir1/dir2/test.md");
}

#[test]
fn refuses_target_outside_root() {
    let root = path(true, &["home", "user", "root_dir"]);
    let target = path(true, &["home", "other", "x.md"]);
    assert!(matches!(remove_path_prefix(&target, &root), Err(PathError::NotUnderRoot)));
    let relative = path(false, &["home", "user", "root_dir", "x.md"]);
    assert!(matches!(remove_path_prefix(&relative, &root), Err(PathError::NotUnderRoot)));
    let shorter = path(true, &["home"]);
    assert!(matches!(remove_path_prefix(&shorter, &root), Err(PathError::NotUnderRoot)));
}

#[test]
fn root_stripped_from_itself_is_empty() {
    let root = path(true, &["a", "b"]);
    let stripped = remove_path_prefix(&root, &root).unwrap();
    assert!(!stripped.absolute);
    assert!(stripped.components.is_empty());
    assert_eq!(stripped.display(), "");
}

#[test]
fn joins_relative_path_under_destination() {
    let dest = path(true, &["home", "user", "target_dir"]);
    let relative = path(false, &["subdir1", "subdir2", "target.md"]);
    let joined = create_dest_path(&relative, &dest);
    assert_eq!(joined.display(), "/home/user/target_dir/subdir1/subdir2/target.md");
}

#[test]
fn absolute_second_path_replaces_first() {
    let dest = path(true, &["out"]);
    let other = path(true, &["etc", "x"]);
    assert_eq!(create_dest_path(&other, &dest).display(), "/etc/x");
}

#[test]
fn file_name_is_last_component() {
    assert_eq!(path(true, &["a", "b.md"]).file_name(), "b.md");
    assert_eq!(path(true, &[]).file_name(), "");
    assert_eq!(path(false, &["a", ".."]).file_name(), "");
}

#[test]
fn extension_follows_last_dot() {
    assert_eq!(extension("notes.md"), "md");
    assert_eq!(extension("archive.tar.gz"), "gz");
    assert_eq!(extension("README"), "");
    assert_eq!(extension(".hidden"), "");
    assert_eq!(extension(".hidden.txt"), "txt");
    assert_eq!(extension("trailing."), "");
    assert_eq!(extension(""), "");
    assert_eq!(extension("päper.pdf"), "pdf");
}
