use vault_outline::builder::{collect_dir_structure, DirContents, SourceDir, SourceEntry};
use vault_outline::config_parser::parse_configuration;
use vault_outline::filters::FilterSet;
use vault_outline::outline::create_book_summary;
use vault_outline::paths::TreePath;
use vault_outline::replicate::{replication_errors, replication_plan, ReplicationStep, StepOutcome};
use vault_outline::structures::FileKind;

fn p(absolute: bool, components: &[&str]) -> TreePath {
    TreePath { absolute, components: components.iter().map(|c| c.to_string()).collect() }
}

fn found(path: TreePath, entries: Vec<SourceEntry>) -> SourceDir {
    SourceDir { path, contents: DirContents::Listed(entries) }
}

#[test]
fn sample_tree_from_source_to_outline_and_plan() {
    let source = found(
        p(true, &["root"]),
        vec![
            SourceEntry::File(p(true, &["root", "a.md"])),
            SourceEntry::File(p(true, &["root", "b.txt"])),
            SourceEntry::Directory(found(
                p(true, &["root", "sub"]),
                vec![SourceEntry::File(p(true, &["root", "sub", "c.md"]))],
            )),
        ],
    );
    let filters = FilterSet::from_configs(&Vec::new());
    let report =
        collect_dir_structure(&source, &filters, &p(false, &["out"]), &p(true, &["root"])).unwrap();
    assert!(report.errors.is_empty());

    let mut kinds = Vec::new();
    for file in report.tree.files.iter().chain(report.tree.sub_directories[0].files.iter()) {
        kinds.push((file.name.clone(), file.extension.kind()));
    }
    assert_eq!(
        kinds,
        vec![
            ("a.md".to_string(), FileKind::Document),
            ("b.txt".to_string(), FileKind::Unclassified),
            ("c.md".to_string(), FileKind::Document),
        ]
    );

    let summary = create_book_summary(&report.tree);
    let links: Vec<&str> = summary.lines().filter(|l| l.starts_with("- ")).collect();
    assert_eq!(links, vec!["- [a.md](a.md)", "- [c.md](sub/c.md)"]);

    let plan = replication_plan(&report.tree);
    let copies: Vec<(String, String)> = plan
        .iter()
        .filter_map(|step| match step {
            ReplicationStep::CopyFile { from, to } => Some((from.display(), to.display())),
            ReplicationStep::EnsureDirectory(_) => None,
        })
        .collect();
    assert_eq!(
        copies,
        vec![
            ("/root/a.md".to_string(), "out/a.md".to_string()),
            ("/root/b.txt".to_string(), "out/b.txt".to_string()),
            ("/root/sub/c.md".to_string(), "out/sub/c.md".to_string()),
        ]
    );
    let directories: Vec<String> = plan
        .iter()
        .filter_map(|step| match step {
            ReplicationStep::EnsureDirectory(path) => Some(path.display()),
            ReplicationStep::CopyFile { .. } => None,
        })
        .collect();
    assert_eq!(directories, vec!["out", "out/sub"]);
    let outcomes: Vec<StepOutcome> = plan.iter().map(|_| StepOutcome::Done).collect();
    assert!(replication_errors(&plan, &outcomes).is_empty());
}

#[test]
fn parsed_configuration_filters_the_tree() {
    let configs = parse_configuration(
        [
            "# rules",
            "conf-start:excluded_directories",
            "- draft",
            "conf-end:",
            "conf-start:included_directories",
            "- public",
            "conf-end:",
        ]
        .iter()
        .map(|l| l.to_string())
        .collect(),
    )
    .unwrap();
    let filters = FilterSet::from_configs(&configs);
    let source = found(
        p(true, &["v"]),
        vec![
            SourceEntry::File(p(true, &["v", "draft-notes.md"])),
            SourceEntry::File(p(true, &["v", "index.md"])),
            SourceEntry::Directory(found(
                p(true, &["v", "private"]),
                vec![SourceEntry::File(p(true, &["v", "private", "diary.md"]))],
            )),
            SourceEntry::Directory(found(
                p(true, &["v", "public"]),
                vec![
                    SourceEntry::File(p(true, &["v", "public", "post.md"])),
                    SourceEntry::File(p(true, &["v", "public", "old-draft.md"])),
                ],
            )),
        ],
    );
    let report =
        collect_dir_structure(&source, &filters, &p(true, &["book"]), &p(true, &["v"])).unwrap();
    assert_eq!(
        create_book_summary(&report.tree),
        "# SUMMARY.MD Structure\n\n# v\n- [index.md](index.md)\n# public\n- [post.md](public/post.md)\n"
    );
    assert_eq!(
        replication_plan(&report.tree),
        vec![
            ReplicationStep::EnsureDirectory(p(true, &["book"])),
            ReplicationStep::CopyFile {
                from: p(true, &["v", "index.md"]),
                to: p(true, &["book", "index.md"])
            },
            ReplicationStep::EnsureDirectory(p(true, &["book", "public"])),
            ReplicationStep::CopyFile {
                from: p(true, &["v", "public", "post.md"]),
                to: p(true, &["book", "public", "post.md"])
            },
        ]
    );
}
