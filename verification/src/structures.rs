//! The data model: the retained tree, its files, and parsed configuration.

use crate::paths::{PathModel, TreePath};
use crate::text::{same_text, texts};
use vstd::prelude::*;
use vstd::string::*;

verus! {

/// What a file is taken to be, by its extension.
#[derive(Clone, Copy, Debug, PartialEq, Eq, Structural)]
pub enum FileExtension {
    Markdown,
    Html,
    Image,
    Pdf,
    Unknown,
}

/// How the outline and the replication treat a file.
#[derive(Clone, Copy, Debug, PartialEq, Eq, Structural)]
pub enum FileKind {
    /// Linked from the outline, and copied.
    Document,
    /// Copied, never linked.
    Binary,
    /// Of an extension that is not known: copied, never linked.
    Unclassified,
}

/// The kind that an extension stands for.
pub open spec fn kind_of(extension: FileExtension) -> FileKind {
    match extension {
        FileExtension::Markdown => FileKind::Document,
        FileExtension::Html | FileExtension::Image | FileExtension::Pdf => FileKind::Binary,
        FileExtension::Unknown => FileKind::Unclassified,
    }
}

impl FileExtension {
    /// The kind of a file with this extension: see [`kind_of`].
    pub fn kind(&self) -> (kind: FileKind)
        ensures
            kind == kind_of(*self),
    {
        match self {
            FileExtension::Markdown => FileKind::Document,
            FileExtension::Html => FileKind::Binary,
            FileExtension::Image => FileKind::Binary,
            FileExtension::Pdf => FileKind::Binary,
            FileExtension::Unknown => FileKind::Unclassified,
        }
    }
}

/// The extension, with its dot, under which a classification is written.
pub open spec fn extension_label(extension: FileExtension) -> Seq<char> {
    match extension {
        FileExtension::Html => ".html"@,
        FileExtension::Image => ".jpg"@,
        FileExtension::Markdown => ".md"@,
        FileExtension::Pdf => ".pdf"@,
        FileExtension::Unknown => ".unknown"@,
    }
}

/// The classification of an extension given without its dot. Every text has
/// one; what is not listed is `Unknown`.
pub open spec fn classify(extension: Seq<char>) -> FileExtension {
    if extension == "md"@ {
        FileExtension::Markdown
    } else if extension == "pdf"@ {
        FileExtension::Pdf
    } else if extension == "html"@ {
        FileExtension::Html
    } else if extension == "jpg"@ || extension == "png"@ {
        FileExtension::Image
    } else {
        FileExtension::Unknown
    }
}

/// Writes a classification as an extension with its dot: see [`extension_label`].
pub fn fileextension_to_string(extension: &FileExtension) -> (label: String)
    ensures
        label@ == extension_label(*extension),
{
    match extension {
        FileExtension::Html => String::from_str(".html"),
        FileExtension::Image => String::from_str(".jpg"),
        FileExtension::Markdown => String::from_str(".md"),
        FileExtension::Pdf => String::from_str(".pdf"),
        FileExtension::Unknown => String::from_str(".unknown"),
    }
}

/// Classifies an extension given without its dot: see [`classify`].
pub fn string_to_fileextension(value: &String) -> (extension: FileExtension)
    ensures
        extension == classify(value@),
{
    let value = value.as_str();
    if same_text(value, "md") {
        FileExtension::Markdown
    } else if same_text(value, "pdf") {
        FileExtension::Pdf
    } else if same_text(value, "html") {
        FileExtension::Html
    } else if same_text(value, "jpg") || same_text(value, "png") {
        FileExtension::Image
    } else {
        FileExtension::Unknown
    }
}

/// A retained file.
#[derive(Debug, PartialEq, Eq)]
pub struct FileData {
    pub original_path: TreePath,
    pub dest_path: TreePath,
    pub relative_path: TreePath,
    pub extension: FileExtension,
    pub name: String,
}

/// The mathematical value of a [`FileData`].
pub struct FileModel {
    pub original_path: PathModel,
    pub dest_path: PathModel,
    pub relative_path: PathModel,
    pub extension: FileExtension,
    pub name: Seq<char>,
}

impl View for FileData {
    type V = FileModel;

    open spec fn view(&self) -> FileModel {
        FileModel {
            original_path: self.original_path@,
            dest_path: self.dest_path@,
            relative_path: self.relative_path@,
            extension: self.extension,
            name: self.name@,
        }
    }
}

/// A retained directory with the files and directories retained in it.
#[derive(Debug, PartialEq, Eq)]
pub struct Directory {
    pub path: TreePath,
    pub name: String,
    pub dest_path: TreePath,
    pub relative_path: TreePath,
    pub sub_directories: Vec<Directory>,
    pub files: Vec<FileData>,
}

/// The mathematical value of a [`Directory`].
pub struct DirectoryModel {
    pub path: PathModel,
    pub name: Seq<char>,
    pub dest_path: PathModel,
    pub relative_path: PathModel,
    pub sub_directories: Seq<DirectoryModel>,
    pub files: Seq<FileModel>,
}

/// The value of a directory: its own fields, and the values of what it holds.
pub open spec fn directory_model(directory: Directory) -> DirectoryModel
    decreases directory,
{
    DirectoryModel {
        path: directory.path@,
        name: directory.name@,
        dest_path: directory.dest_path@,
        relative_path: directory.relative_path@,
        sub_directories: Seq::new(
            directory.sub_directories.len() as nat,
            |i: int|
                if 0 <= i < directory.sub_directories.len() {
                    directory_model(directory.sub_directories[i])
                } else {
                    arbitrary()
                },
        ),
        files: directory.files@.map_values(|f: FileData| f@),
    }
}

impl View for Directory {
    type V = DirectoryModel;

    open spec fn view(&self) -> DirectoryModel {
        directory_model(*self)
    }
}

/// The value of each directory of a sequence.
pub open spec fn directory_models(directories: Seq<Directory>) -> Seq<DirectoryModel> {
    Seq::new(directories.len(), |i: int| directories[i]@)
}

/// The value of each file of a sequence.
pub open spec fn file_models(files: Seq<FileData>) -> Seq<FileModel> {
    files.map_values(|f: FileData| f@)
}

/// The value of a directory holds the values of what it holds.
pub proof fn lemma_directory_view(directory: Directory)
    ensures
        directory@.path == directory.path@,
        directory@.name == directory.name@,
        directory@.dest_path == directory.dest_path@,
        directory@.relative_path == directory.relative_path@,
        directory@.sub_directories == directory_models(directory.sub_directories@),
        directory@.files == file_models(directory.files@),
{
}

/// The file is retained in the tree: in its root or in a directory below it.
pub open spec fn tree_holds_file(tree: DirectoryModel, file: FileModel) -> bool
    decreases tree,
{
    tree.files.contains(file) || exists|i: int|
        0 <= i < tree.sub_directories.len() && tree_holds_file(
            #[trigger] tree.sub_directories[i],
            file,
        )
}

/// The directory is retained in the tree: it is its root or a directory
/// below it.
pub open spec fn tree_holds_directory(tree: DirectoryModel, directory: DirectoryModel) -> bool
    decreases tree,
{
    tree == directory || exists|i: int|
        0 <= i < tree.sub_directories.len() && tree_holds_directory(
            #[trigger] tree.sub_directories[i],
            directory,
        )
}

/// The three paths that one run works on.
#[derive(Debug, PartialEq, Eq)]
pub struct CollectedPaths {
    /// The directory that the walk starts at.
    pub root_dir: TreePath,
    /// The directory under which the retained tree is replicated.
    pub dest_dir: TreePath,
    /// The file that the outline is written to.
    pub dest_file: TreePath,
}

/// What the values of one configuration section are for.
#[derive(Clone, Copy, Debug, PartialEq, Eq, Structural)]
pub enum ConfigType {
    /// Fragments of names: a file whose name holds one is left out.
    ExcludedPaths,
    /// Prefixes for headlines.
    PrefixHeadline,
    /// Names of the directories that may be entered.
    IncludedDirectories,
}

/// One configuration section: its type and its values in the order written.
#[derive(Debug, PartialEq, Eq)]
pub struct Config {
    pub conf_type: ConfigType,
    pub collection_of_options: Vec<String>,
}

/// The mathematical value of a [`Config`].
pub struct ConfigModel {
    pub conf_type: ConfigType,
    pub collection_of_options: Seq<Seq<char>>,
}

impl View for Config {
    type V = ConfigModel;

    open spec fn view(&self) -> ConfigModel {
        ConfigModel {
            conf_type: self.conf_type,
            collection_of_options: texts(self.collection_of_options@),
        }
    }
}

} // verus!
