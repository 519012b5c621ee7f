use vault_outline::outline::{
    contains_md_file, create_book_summary, extract_file_representation_from_dir, file_link,
    stringify_directory,
};
use vault_outline::paths::TreePath;
use vault_outline::structures::{Directory, FileData, FileExtension};

fn relative(components: &[&str]) -> TreePath {
    TreePath { absolute: false, components: components.iter().map(|c| c.to_string()).collect() }
}

fn file(components: &[&str], extension: FileExtension) -> FileData {
    let mut source = vec!["root"];
    source.extend(components);
    let mut dest = vec!["out"];
    dest.extend(components);
    FileData {
        original_path: TreePath {
            absolute: true,
            components: source.iter().map(|c| c.to_string()).collect(),
        },
        dest_path: relative(&dest),
        relative_path: relative(components),
        extension,
        name: components.last().unwrap().to_string(),
    }
}

fn directory(
    components: &[&str],
    name: &str,
    files: Vec<FileData>,
    sub_directories: Vec<Directory>,
) -> Directory {
    let mut source = vec!["root"];
    source.extend(components);
    let mut dest = vec!["out"];
    dest.extend(components);
    Directory {
        path: TreePath {
            absolute: true,
            components: source.iter().map(|c| c.to_string()).collect(),
        },
        name: name.to_string(),
        dest_path: relative(&dest),
        relative_path: relative(components),
        sub_directories,
        files,
    }
}

#[test]
fn outline_of_the_sample_tree() {
    let tree = directory(
        &[],
        "root",
        vec![file(&["a.md"], FileExtension::Markdown), file(&["b.txt"], FileExtension::Unknown)],
        vec![directory(&["sub"], "sub", vec![file(&["sub", "c.md"], FileExtension::Markdown)], vec![])],
    );
    assert_eq!(
        create_book_summary(&tree),
        "# SUMMARY.MD Structure\n\n# root\n- [a.md](a.md)\n# sub\n- [c.md](sub/c.md)\n"
    );
}

#[test]
fn outline_has_one_link_line_per_document() {
    let tree = directory(
        &[],
        "root",
        vec![file(&["a.md"], FileExtension::Markdown), file(&["b.txt"], FileExtension::Unknown)],
        vec![directory(&["sub"], "sub", vec![file(&["sub", "c.md"], FileExtension::Markdown)], vec![])],
    );
    let summary = create_book_summary(&tree);
    let links: Vec<&str> = summary.lines().filter(|l| l.starts_with("- [")).collect();
    assert_eq!(links, vec!["- [a.md](a.md)", "- [c.md](sub/c.md)"]);
    assert!(!summary.contains("b.txt"));
}

#[test]
fn directory_without_own_document_has_no_heading() {
    let tree = directory(
        &[],
        "root",
        vec![file(&["b.txt"], FileExtension::Unknown), file(&["p.pdf"], FileExtension::Pdf)],
        vec![directory(
            &["notes"],
            "notes",
            vec![file(&["notes", "todo.md"], FileExtension::Markdown)],
            vec![],
        )],
    );
    assert_eq!(stringify_directory(&tree), "");
    let text = extract_file_representation_from_dir(&tree);
    assert_eq!(text, "# notes\n- [todo.md](notes/todo.md)\n");
    assert!(!text.contains("# root"));
    assert_eq!(
        create_book_summary(&tree),
        "# SUMMARY.MD Structure\n\n# notes\n- [todo.md](notes/todo.md)\n"
    );
}

#[test]
fn link_line_holds_relative_path_and_name() {
    let todo = file(&["notes", "todo.md"], FileExtension::Markdown);
    assert_eq!(file_link(&todo), "- [todo.md](notes/todo.md)\n");
    let tree = directory(&[], "root", vec![], vec![directory(&["notes"], "notes", vec![todo], vec![])]);
    let summary = create_book_summary(&tree);
    assert!(summary.lines().any(|l| l == "- [todo.md](notes/todo.md)"));
    assert!(!summary.contains("out/"));
    assert!(!summary.contains("root/"));
}

#[test]
fn link_shows_display_name_not_file_name_from_path() {
    let mut shown = file(&["notes", "todo.md"], FileExtension::Markdown);
    shown.name = "Things to do".to_string();
    assert_eq!(file_link(&shown), "- [Things to do](notes/todo.md)\n");
}

#[test]
fn heading_is_the_same_at_every_depth() {
    let deep = directory(
        &["a", "b"],
        "b",
        vec![file(&["a", "b", "x.md"], FileExtension::Markdown)],
        vec![],
    );
    let middle = directory(&["a"], "a", vec![file(&["a", "y.md"], FileExtension::Markdown)], vec![deep]);
    let tree = directory(&[], "root", vec![], vec![middle]);
    assert_eq!(
        extract_file_representation_from_dir(&tree),
        "# a\n- [y.md](a/y.md)\n# b\n- [x.md](a/b/x.md)\n"
    );
}

#[test]
fn directories_are_rendered_in_pre_order() {
    let tree = directory(
        &[],
        "r",
        vec![file(&["0.md"], FileExtension::Markdown)],
        vec![
            directory(
                &["a"],
                "a",
                vec![file(&["a", "1.md"], FileExtension::Markdown)],
                vec![directory(
                    &["a", "c"],
                    "c",
                    vec![file(&["a", "c", "2.md"], FileExtension::Markdown)],
                    vec![],
                )],
            ),
            directory(&["b"], "b", vec![file(&["b", "3.md"], FileExtension::Markdown)], vec![]),
        ],
    );
    assert_eq!(
        extract_file_representation_from_dir(&tree),
        "# r\n- [0.md](0.md)\n# a\n- [1.md](a/1.md)\n# c\n- [2.md](a/c/2.md)\n# b\n- [3.md](b/3.md)\n"
    );
}

#[test]
fn only_documents_are_linked_in_their_order() {
    let dir = directory(
        &[],
        "mixed",
        vec![
            file(&["z.md"], FileExtension::Markdown),
            file(&["i.png"], FileExtension::Image),
            file(&["h.html"], FileExtension::Html),
            file(&["a.md"], FileExtension::Markdown),
            file(&["p.pdf"], FileExtension::Pdf),
            file(&["u.txt"], FileExtension::Unknown),
        ],
        vec![],
    );
    assert_eq!(stringify_directory(&dir), "# mixed\n- [z.md](z.md)\n- [a.md](a.md)\n");
}

#[test]
fn document_is_looked_for_directly_in_the_directory() {
    let with = directory(
        &[],
        "d",
        vec![file(&["u.txt"], FileExtension::Unknown), file(&["a.md"], FileExtension::Markdown)],
        vec![],
    );
    assert!(contains_md_file(&with));
    let below = directory(
        &[],
        "d",
        vec![file(&["u.txt"], FileExtension::Unknown)],
        vec![directory(&["s"], "s", vec![file(&["s", "a.md"], FileExtension::Markdown)], vec![])],
    );
    assert!(!contains_md_file(&below));
    assert!(!contains_md_file(&directory(&[], "d", vec![], vec![])));
}

#[test]
fn outline_of_an_empty_tree_is_the_title() {
    let tree = directory(&[], "root", vec![], vec![]);
    assert_eq!(create_book_summary(&tree), "# SUMMARY.MD Structure\n\n");
}

#[test]
fn outline_is_the_title_then_the_text_of_the_tree() {
    let tree = directory(
        &[],
        "root",
        vec![file(&["a.md"], FileExtension::Markdown)],
        vec![directory(&["s"], "s", vec![file(&["s", "b.md"], FileExtension::Markdown)], vec![])],
    );
    let expected =
        format!("# SUMMARY.MD Structure\n\n{}", extract_file_representation_from_dir(&tree));
    assert_eq!(create_book_summary(&tree), expected);
    assert!(create_book_summary(&tree).ends_with("- [b.md](s/b.md)\n"));
}
