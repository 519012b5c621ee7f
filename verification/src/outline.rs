//! Renders a retained tree as one outline: a title, then for each directory
//! in pre-order a heading and a link to each of its documents.

use crate::paths::path_text;
use crate::structures::{
    kind_of, lemma_directory_view, tree_holds_file, Directory, DirectoryModel, FileData,
    FileExtension, FileKind, FileModel,
};
use crate::text::{is_substring, lemma_substring_of_itself, lemma_substring_of_part};
use vstd::prelude::*;
use vstd::string::*;

verus! {

/// The file is linked from the outline.
pub open spec fn is_document(file: FileModel) -> bool {
    kind_of(file.extension) == FileKind::Document
}

/// Some file of the sequence is a document.
pub open spec fn has_document(files: Seq<FileModel>) -> bool {
    exists|i: int| 0 <= i < files.len() && is_document(#[trigger] files[i])
}

/// The heading of a directory: one marker, whatever its depth, and its name.
pub open spec fn heading_line(name: Seq<char>) -> Seq<char> {
    "# "@ + name + "\n"@
}

/// The line that links a document: its name, and its path relative to the
/// root of the tree.
pub open spec fn link_line(file: FileModel) -> Seq<char> {
    "- ["@ + file.name + "]("@ + path_text(file.relative_path) + ")\n"@
}

/// The link lines of the documents among `files`, in order.
pub open spec fn link_lines(files: Seq<FileModel>) -> Seq<char>
    decreases files.len(),
{
    if files.len() == 0 {
        Seq::empty()
    } else {
        link_lines(files.drop_last()) + (if is_document(files.last()) {
            link_line(files.last())
        } else {
            Seq::empty()
        })
    }
}

/// What a directory gives by itself: its heading if it holds a document
/// directly, then the link lines of its documents.
pub open spec fn directory_text(directory: DirectoryModel) -> Seq<char> {
    (if has_document(directory.files) {
        heading_line(directory.name)
    } else {
        Seq::empty()
    }) + link_lines(directory.files)
}

/// What a directory and all below it give: its own text, then that of each
/// of its directories in order.
pub open spec fn tree_text(directory: DirectoryModel) -> Seq<char>
    decreases directory, directory.sub_directories.len() + 1,
{
    directory_text(directory) + texts_below(directory, directory.sub_directories.len() as int)
}

/// What the first `count` directories of `directory` give, with all below them.
pub open spec fn texts_below(directory: DirectoryModel, count: int) -> Seq<char>
    decreases directory, count,
{
    if 0 < count <= directory.sub_directories.len() {
        texts_below(directory, count - 1) + tree_text(directory.sub_directories[count - 1])
    } else {
        Seq::empty()
    }
}

/// The whole outline of the tree under `root`.
pub open spec fn outline_text(root: DirectoryModel) -> Seq<char> {
    "# SUMMARY.MD Structure\n\n"@ + tree_text(root)
}

/// Whether the directory holds a document directly: see [`has_document`].
pub fn contains_md_file(directory: &Directory) -> (found: bool)
    ensures
        found == has_document(directory@.files),
{
    let mut i: usize = 0;
    while i < directory.files.len()
        invariant
            i <= directory.files.len(),
            forall|j: int| 0 <= j < i ==> !is_document(directory@.files[j]),
        decreases directory.files.len() - i,
    {
        match directory.files[i].extension {
            FileExtension::Markdown => {
                assert(is_document(directory@.files[i as int]));
                return true;
            },
            _ => {},
        }
        i = i + 1;
    }
    false
}

/// The link line of one file: see [`link_line`].
pub fn file_link(file: &FileData) -> (line: String)
    ensures
        line@ == link_line(file@),
{
    let mut line = String::from_str("- [");
    line.append(file.name.as_str());
    line.append("](");
    line.append(file.relative_path.display().as_str());
    line.append(")\n");
    line
}

/// The text that one directory gives by itself: see [`directory_text`].
pub fn stringify_directory(dir: &Directory) -> (text: String)
    ensures
        text@ == directory_text(dir@),
{
    let mut resulting_string = String::new();
    if contains_md_file(dir) {
        resulting_string.append("# ");
        resulting_string.append(dir.name.as_str());
        resulting_string.append("\n");
    }
    let ghost lead = resulting_string@;
    let mut i: usize = 0;
    while i < dir.files.len()
        invariant
            i <= dir.files.len(),
            resulting_string@ == lead + link_lines(dir@.files.take(i as int)),
        decreases dir.files.len() - i,
    {
        let file = &dir.files[i];
        assert(dir@.files.take(i + 1).drop_last() =~= dir@.files.take(i as int));
        match file.extension {
            FileExtension::Markdown => {
                let line = file_link(file);
                resulting_string.append(line.as_str());
            },
            _ => {},
        }
        i = i + 1;
    }
    assert(dir@.files.take(i as int) =~= dir@.files);
    resulting_string
}

/// The text that a directory and all below it give: see [`tree_text`].
pub fn extract_file_representation_from_dir(active_dir: &Directory) -> (text: String)
    ensures
        text@ == tree_text(active_dir@),
    decreases active_dir,
{
    let mut dir_as_string = stringify_directory(active_dir);
    proof {
        lemma_directory_view(*active_dir);
    }
    let mut i: usize = 0;
    while i < active_dir.sub_directories.len()
        invariant
            i <= active_dir.sub_directories.len(),
            active_dir@.sub_directories.len() == active_dir.sub_directories.len(),
            forall|j: int|
                0 <= j < active_dir.sub_directories.len() ==> active_dir@.sub_directories[j]
                    == active_dir.sub_directories[j]@,
            dir_as_string@ == directory_text(active_dir@) + texts_below(active_dir@, i as int),
        decreases active_dir.sub_directories.len() - i,
    {
        let directory = &active_dir.sub_directories[i];
        let dir_string = extract_file_representation_from_dir(directory);
        dir_as_string.append(dir_string.as_str());
        i = i + 1;
    }
    dir_as_string
}

/// The outline of the whole tree: see [`outline_text`].
pub fn create_book_summary(directory_data: &Directory) -> (summary: String)
    ensures
        summary@ == outline_text(directory_data@),
{
    let directory_as_string = extract_file_representation_from_dir(directory_data);
    let mut basic_formatting = String::from_str("# SUMMARY.MD Structure\n\n");
    basic_formatting.append(directory_as_string.as_str());
    basic_formatting
}

/// Without a document among them, files give no link line.
pub proof fn lemma_no_document_no_links(files: Seq<FileModel>)
    requires
        !has_document(files),
    ensures
        link_lines(files) == Seq::<char>::empty(),
    decreases files.len(),
{
    if files.len() > 0 {
        assert forall|i: int| 0 <= i < files.drop_last().len() implies !is_document(
            #[trigger] files.drop_last()[i],
        ) by {}
        lemma_no_document_no_links(files.drop_last());
    }
}

/// A directory that holds no document directly gives neither a heading nor
/// a link by itself; its text is that of its directories alone.
pub proof fn lemma_heading_suppressed(directory: DirectoryModel)
    requires
        !has_document(directory.files),
    ensures
        directory_text(directory) == Seq::<char>::empty(),
        tree_text(directory) == texts_below(directory, directory.sub_directories.len() as int),
{
    lemma_no_document_no_links(directory.files);
}

/// What is part of the text of one of the first `count` directories is part
/// of the text that they give together.
pub proof fn lemma_part_of_texts_below(
    directory: DirectoryModel,
    count: int,
    i: int,
    needle: Seq<char>,
)
    requires
        0 <= i < count <= directory.sub_directories.len(),
        is_substring(tree_text(directory.sub_directories[i]), needle),
    ensures
        is_substring(texts_below(directory, count), needle),
    decreases count,
{
    let earlier = texts_below(directory, count - 1);
    let last = tree_text(directory.sub_directories[count - 1]);
    if i == count - 1 {
        lemma_substring_of_part(earlier, last, Seq::empty(), needle);
    } else {
        lemma_part_of_texts_below(directory, count - 1, i, needle);
        lemma_substring_of_part(Seq::empty(), earlier, last, needle);
    }
}

/// The text of every directory of a directory appears, whole, in the text of
/// that directory: with its heading, if it has one, and its links.
pub proof fn lemma_subdirectory_text_appears(directory: DirectoryModel, i: int)
    requires
        0 <= i < directory.sub_directories.len(),
    ensures
        is_substring(tree_text(directory), tree_text(directory.sub_directories[i])),
{
    let below = texts_below(directory, directory.sub_directories.len() as int);
    let needle = tree_text(directory.sub_directories[i]);
    lemma_substring_of_itself(needle);
    lemma_part_of_texts_below(directory, directory.sub_directories.len() as int, i, needle);
    lemma_substring_of_part(directory_text(directory), below, Seq::empty(), needle);
}

/// The link line of each document among `files` is part of their link lines.
pub proof fn lemma_link_in_lines(files: Seq<FileModel>, k: int)
    requires
        0 <= k < files.len(),
        is_document(files[k]),
    ensures
        is_substring(link_lines(files), link_line(files[k])),
    decreases files.len(),
{
    let earlier = link_lines(files.drop_last());
    let line = link_line(files[k]);
    if k == files.len() - 1 {
        lemma_substring_of_itself(line);
        lemma_substring_of_part(earlier, line, Seq::empty(), line);
    } else {
        lemma_link_in_lines(files.drop_last(), k);
        let last = link_lines(files).skip(earlier.len() as int);
        lemma_substring_of_part(Seq::empty(), earlier, last, line);
        assert(Seq::<char>::empty() + earlier + last =~= link_lines(files));
    }
}

/// The link line of every document retained in a tree is part of the text
/// of the tree.
pub proof fn lemma_tree_links_document(tree: DirectoryModel, file: FileModel)
    requires
        tree_holds_file(tree, file),
        is_document(file),
    ensures
        is_substring(tree_text(tree), link_line(file)),
    decreases tree,
{
    let line = link_line(file);
    let own = directory_text(tree);
    let below = texts_below(tree, tree.sub_directories.len() as int);
    if tree.files.contains(file) {
        let k = choose|k: int| 0 <= k < tree.files.len() && tree.files[k] == file;
        lemma_link_in_lines(tree.files, k);
        let heading = own.take(own.len() - link_lines(tree.files).len());
        lemma_substring_of_part(heading, link_lines(tree.files), below, line);
        assert(heading + link_lines(tree.files) + below =~= tree_text(tree));
    } else {
        let i = choose|i: int|
            0 <= i < tree.sub_directories.len() && tree_holds_file(
                #[trigger] tree.sub_directories[i],
                file,
            );
        lemma_tree_links_document(tree.sub_directories[i], file);
        lemma_part_of_texts_below(tree, tree.sub_directories.len() as int, i, line);
        lemma_substring_of_part(own, below, Seq::empty(), line);
    }
}

/// The outline of a tree holds, for every document retained anywhere in
/// it, the line that links the document by its name and its relative path.
pub proof fn lemma_outline_links_document(root: DirectoryModel, file: FileModel)
    requires
        tree_holds_file(root, file),
        is_document(file),
    ensures
        is_substring(outline_text(root), link_line(file)),
{
    lemma_tree_links_document(root, file);
    lemma_substring_of_part(
        "# SUMMARY.MD Structure\n\n"@,
        tree_text(root),
        Seq::empty(),
        link_line(file),
    );
}

} // verus!
