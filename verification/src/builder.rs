//! Builds the retained tree from a directory as it was found on disk.

use crate::filters::{directory_allowed, file_allowed, FilterModel, FilterSet};
use crate::paths::{
    base_name, begins_with, create_dest_path, extension, extension_of, join_paths,
    remove_path_prefix, strip_root, PathModel, TreePath,
};
use crate::structures::{
    classify, directory_models, file_models, lemma_directory_view, string_to_fileextension,
    Directory, DirectoryModel, FileData, FileModel,
};
use crate::tree_invariants::{
    lemma_built_tree_filtered, lemma_built_tree_under_destination, lemma_built_tree_under_root,
    tree_filtered, tree_under_destination, tree_under_root,
};
use vstd::prelude::*;

verus! {

/// What reading a directory gave.
#[derive(Debug, PartialEq, Eq)]
pub enum DirContents {
    /// Its entries, in the order in which they were enumerated.
    Listed(Vec<SourceEntry>),
    /// It could not be opened or enumerated.
    Unreadable,
    /// Nobody tried to read it.
    NotVisited,
}

/// A directory as it was found.
#[derive(Debug, PartialEq, Eq)]
pub struct SourceDir {
    pub path: TreePath,
    pub contents: DirContents,
}

/// One entry of a directory as it was found.
#[derive(Debug, PartialEq, Eq)]
pub enum SourceEntry {
    /// A regular file at this path.
    File(TreePath),
    /// A directory.
    Directory(SourceDir),
    /// Anything else at this path: a socket, a device, a broken link.
    Other(TreePath),
}

/// Why a directory or a file is missing from the built tree.
#[derive(Debug, PartialEq, Eq)]
pub enum BuildError {
    /// The directory at this path could not be read, or does not lie under
    /// the root of the walk.
    IoFailure(TreePath),
    /// The file at this path does not lie under the root of the walk.
    NotUnderRoot(TreePath),
}

/// The mathematical value of a [`BuildError`].
pub enum BuildErrorModel {
    IoFailure(PathModel),
    NotUnderRoot(PathModel),
}

impl View for BuildError {
    type V = BuildErrorModel;

    open spec fn view(&self) -> BuildErrorModel {
        match self {
            BuildError::IoFailure(path) => BuildErrorModel::IoFailure(path@),
            BuildError::NotUnderRoot(path) => BuildErrorModel::NotUnderRoot(path@),
        }
    }
}

/// The retained tree, and what was left out of it for a failure, in the
/// order of the walk.
#[derive(Debug, PartialEq, Eq)]
pub struct BuildReport {
    pub tree: Directory,
    pub errors: Vec<BuildError>,
}

/// The mathematical value of a [`BuildReport`].
pub struct BuildModel {
    pub tree: DirectoryModel,
    pub errors: Seq<BuildErrorModel>,
}

/// The value of each error of a sequence.
pub open spec fn error_models(errors: Seq<BuildError>) -> Seq<BuildErrorModel> {
    errors.map_values(|e: BuildError| e@)
}

impl View for BuildReport {
    type V = BuildModel;

    open spec fn view(&self) -> BuildModel {
        BuildModel { tree: self.tree@, errors: error_models(self.errors@) }
    }
}

/// What becomes of one entry of a directory.
pub enum EntryOutcome {
    /// It is left out by a rule, or is neither a file nor a directory.
    Skipped,
    /// A directory that is retained, with what was found below it.
    Subtree(BuildModel),
    /// A file that is retained.
    Retained(FileModel),
    /// It is left out for a failure.
    Failed(BuildErrorModel),
}

/// The retained file for the file found at `path`, which lies under `root`.
pub open spec fn file_model(path: PathModel, dest: PathModel, root: PathModel) -> FileModel {
    FileModel {
        original_path: path,
        dest_path: join_paths(dest, strip_root(path, root)),
        relative_path: strip_root(path, root),
        extension: classify(extension_of(base_name(path))),
        name: base_name(path),
    }
}

/// What becomes of one entry.
///
/// A file is skipped if its name holds an excluded fragment; it fails if it
/// then does not lie under `root`. A directory is skipped, unread, if its
/// name may not be entered; it fails if its own build fails.
pub open spec fn entry_outcome(
    entry: SourceEntry,
    filters: FilterModel,
    dest: PathModel,
    root: PathModel,
) -> EntryOutcome
    decreases entry, 0nat,
{
    match entry {
        SourceEntry::Other(_) => EntryOutcome::Skipped,
        SourceEntry::File(path) => {
            if !file_allowed(filters, base_name(path@)) {
                EntryOutcome::Skipped
            } else if !begins_with(path@, root) {
                EntryOutcome::Failed(BuildErrorModel::NotUnderRoot(path@))
            } else {
                EntryOutcome::Retained(file_model(path@, dest, root))
            }
        },
        SourceEntry::Directory(dir) => {
            if !directory_allowed(filters, base_name(dir.path@)) {
                EntryOutcome::Skipped
            } else {
                match build_model(dir, filters, dest, root) {
                    Ok(built) => EntryOutcome::Subtree(built),
                    Err(error) => EntryOutcome::Failed(error),
                }
            }
        },
    }
}

/// The outcome of each entry, in order.
pub open spec fn entry_outcomes(
    entries: Vec<SourceEntry>,
    filters: FilterModel,
    dest: PathModel,
    root: PathModel,
) -> Seq<EntryOutcome>
    decreases entries, 1nat,
{
    Seq::new(
        entries.len() as nat,
        |i: int|
            if 0 <= i < entries.len() {
                entry_outcome(entries[i], filters, dest, root)
            } else {
                EntryOutcome::Skipped
            },
    )
}

/// The retained directories among the outcomes, in order.
pub open spec fn subtrees_of(outcomes: Seq<EntryOutcome>) -> Seq<DirectoryModel>
    decreases outcomes.len(),
{
    if outcomes.len() == 0 {
        Seq::empty()
    } else {
        subtrees_of(outcomes.drop_last()) + (match outcomes.last() {
            EntryOutcome::Subtree(built) => seq![built.tree],
            _ => Seq::empty(),
        })
    }
}

/// The retained files among the outcomes, in order.
pub open spec fn files_of(outcomes: Seq<EntryOutcome>) -> Seq<FileModel>
    decreases outcomes.len(),
{
    if outcomes.len() == 0 {
        Seq::empty()
    } else {
        files_of(outcomes.drop_last()) + (match outcomes.last() {
            EntryOutcome::Retained(file) => seq![file],
            _ => Seq::empty(),
        })
    }
}

/// The failures among the outcomes in the order of the walk: a failed entry
/// gives its own, a retained directory those found below it.
pub open spec fn errors_of(outcomes: Seq<EntryOutcome>) -> Seq<BuildErrorModel>
    decreases outcomes.len(),
{
    if outcomes.len() == 0 {
        Seq::empty()
    } else {
        errors_of(outcomes.drop_last()) + (match outcomes.last() {
            EntryOutcome::Failed(error) => seq![error],
            EntryOutcome::Subtree(built) => built.errors,
            _ => Seq::empty(),
        })
    }
}

/// The result of building the directory `source`.
///
/// The build fails if `source` does not lie under `root` or was not listed.
/// Otherwise the directory is retained under `dest`, with the retained
/// entries below it; what failed below it is reported, not raised.
pub open spec fn build_model(
    source: SourceDir,
    filters: FilterModel,
    dest: PathModel,
    root: PathModel,
) -> Result<BuildModel, BuildErrorModel>
    decreases source, 2nat,
{
    match source.contents {
        DirContents::Listed(entries) if begins_with(source.path@, root) => {
            let outcomes = entry_outcomes(entries, filters, dest, root);
            Ok(
                BuildModel {
                    tree: DirectoryModel {
                        path: source.path@,
                        name: base_name(source.path@),
                        dest_path: join_paths(dest, strip_root(source.path@, root)),
                        relative_path: strip_root(source.path@, root),
                        sub_directories: subtrees_of(outcomes),
                        files: files_of(outcomes),
                    },
                    errors: errors_of(outcomes),
                },
            )
        },
        _ => Err(BuildErrorModel::IoFailure(source.path@)),
    }
}

/// Builds the retained tree of the directory `source`: see [`build_model`].
///
/// `dest_path` is the root under which the tree will be replicated and
/// `root_path` the root of the walk, against which relative paths are taken.
/// Every node of the tree lies under both, and the rules leave none of them out.
pub fn collect_dir_structure(
    source: &SourceDir,
    filters: &FilterSet,
    dest_path: &TreePath,
    root_path: &TreePath,
) -> (built: Result<BuildReport, BuildError>)
    ensures
        match build_model(*source, filters@, dest_path@, root_path@) {
            Ok(model) => built is Ok && built->Ok_0@ == model,
            Err(error) => built is Err && built->Err_0@ == error,
        },
        built matches Ok(report) ==> {
            &&& tree_under_root(report@.tree, root_path@)
            &&& tree_under_destination(report@.tree, dest_path@)
            &&& tree_filtered(report@.tree, filters@)
        },
    decreases source,
{
    proof {
        lemma_built_tree_under_root(*source, filters@, dest_path@, root_path@);
        lemma_built_tree_under_destination(*source, filters@, dest_path@, root_path@);
        lemma_built_tree_filtered(*source, filters@, dest_path@, root_path@);
    }
    let trimmed_dir_path = match remove_path_prefix(&source.path, root_path) {
        Ok(trimmed) => trimmed,
        Err(_) => {
            return Err(BuildError::IoFailure(source.path.clone()));
        },
    };
    let entries = match &source.contents {
        DirContents::Listed(entries) => entries,
        _ => {
            return Err(BuildError::IoFailure(source.path.clone()));
        },
    };
    let destination_path = create_dest_path(&trimmed_dir_path, dest_path);
    let mut sub_directories: Vec<Directory> = Vec::new();
    let mut files: Vec<FileData> = Vec::new();
    let mut errors: Vec<BuildError> = Vec::new();
    let ghost outcomes = entry_outcomes(*entries, filters@, dest_path@, root_path@);
    let mut i: usize = 0;
    while i < entries.len()
        invariant
            i <= entries.len(),
            source.contents == DirContents::Listed(*entries),
            outcomes == entry_outcomes(*entries, filters@, dest_path@, root_path@),
            directory_models(sub_directories@) == subtrees_of(outcomes.take(i as int)),
            file_models(files@) == files_of(outcomes.take(i as int)),
            error_models(errors@) == errors_of(outcomes.take(i as int)),
        decreases entries.len() - i,
    {
        assert(outcomes.take(i + 1).drop_last() =~= outcomes.take(i as int));
        match &entries[i] {
            SourceEntry::Directory(dir) => {
                let name = dir.path.file_name();
                if filters.allow_directory(name.as_str()) {
                    assert(decreases_to!(source.contents => source.contents->Listed_0));
                    match collect_dir_structure(dir, filters, dest_path, root_path) {
                        Ok(report) => {
                            let BuildReport { tree, errors: mut below } = report;
                            sub_directories.push(tree);
                            errors.append(&mut below);
                        },
                        Err(error) => {
                            errors.push(error);
                        },
                    }
                }
            },
            SourceEntry::File(path) => {
                let name = path.file_name();
                if filters.allow_file(name.as_str()) {
                    let as_file_extension = string_to_fileextension(&extension(name.as_str()));
                    match remove_path_prefix(path, root_path) {
                        Ok(trimmed_path) => {
                            let file = FileData {
                                name,
                                original_path: path.clone(),
                                dest_path: create_dest_path(&trimmed_path, dest_path),
                                relative_path: trimmed_path,
                                extension: as_file_extension,
                            };
                            files.push(file);
                        },
                        Err(_) => {
                            let error = BuildError::NotUnderRoot(path.clone());
                            errors.push(error);
                        },
                    }
                }
            },
            SourceEntry::Other(_) => {},
        }
        i = i + 1;
    }
    assert(outcomes.take(i as int) =~= outcomes);
    let tree = Directory {
        name: source.path.file_name(),
        path: source.path.clone(),
        dest_path: destination_path,
        relative_path: trimmed_dir_path,
        sub_directories,
        files,
    };
    proof {
        lemma_directory_view(tree);
    }
    Ok(BuildReport { tree, errors })
}

} // verus!
