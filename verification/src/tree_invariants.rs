//! What holds of every tree that the builder returns.

use crate::builder::{
    build_model, entry_outcome, entry_outcomes, errors_of, file_model, files_of, subtrees_of,
    BuildErrorModel, EntryOutcome, SourceDir, SourceEntry,
};
use crate::filters::{directory_allowed, file_allowed, FilterModel};
use crate::paths::{
    base_name, begins_with, join_paths, lemma_join_restores, strip_root, PathModel, TreePath,
};
use crate::structures::DirectoryModel;
use vstd::prelude::*;

verus! {

/// No component of the path is `..`.
pub open spec fn free_of_parent_segments(path: PathModel) -> bool {
    forall|i: int|
        0 <= i < path.components.len() ==> #[trigger] path.components[i] != seq!['.', '.']
}

/// A node with this relative path and this destination lies under
/// `dest_root`: the relative path is not absolute, and the destination is
/// `dest_root` joined with it.
pub open spec fn node_under_destination(
    relative: PathModel,
    dest_path: PathModel,
    dest_root: PathModel,
) -> bool {
    &&& !relative.absolute
    &&& dest_path == join_paths(dest_root, relative)
}

/// Every directory and every file of the tree lies under `dest_root`.
pub open spec fn tree_under_destination(tree: DirectoryModel, dest_root: PathModel) -> bool
    decreases tree,
{
    &&& node_under_destination(tree.relative_path, tree.dest_path, dest_root)
    &&& forall|i: int|
        0 <= i < tree.files.len() ==> node_under_destination(
            (#[trigger] tree.files[i]).relative_path,
            tree.files[i].dest_path,
            dest_root,
        )
    &&& forall|i: int|
        0 <= i < tree.sub_directories.len() ==> tree_under_destination(
            #[trigger] tree.sub_directories[i],
            dest_root,
        )
}

/// A node found at `found` with this relative path lies under `root`: the
/// relative path is what is left of `found` without `root`, and `found` is
/// `root` joined with it.
pub open spec fn node_under_root(found: PathModel, relative: PathModel, root: PathModel) -> bool {
    &&& begins_with(found, root)
    &&& relative == strip_root(found, root)
    &&& found == join_paths(root, relative)
}

/// Every directory and every file of the tree was found under `root`, at
/// `root` joined with its relative path.
pub open spec fn tree_under_root(tree: DirectoryModel, root: PathModel) -> bool
    decreases tree,
{
    &&& node_under_root(tree.path, tree.relative_path, root)
    &&& forall|i: int|
        0 <= i < tree.files.len() ==> node_under_root(
            (#[trigger] tree.files[i]).original_path,
            tree.files[i].relative_path,
            root,
        )
    &&& forall|i: int|
        0 <= i < tree.sub_directories.len() ==> tree_under_root(
            #[trigger] tree.sub_directories[i],
            root,
        )
}

/// No relative path in the tree has a `..`.
pub open spec fn relative_paths_free_of_parent_segments(tree: DirectoryModel) -> bool
    decreases tree,
{
    &&& free_of_parent_segments(tree.relative_path)
    &&& forall|i: int|
        0 <= i < tree.files.len() ==> free_of_parent_segments(
            (#[trigger] tree.files[i]).relative_path,
        )
    &&& forall|i: int|
        0 <= i < tree.sub_directories.len() ==> relative_paths_free_of_parent_segments(
            #[trigger] tree.sub_directories[i],
        )
}

/// No node of the tree was found at a path with a `..`.
pub open spec fn found_free_of_parent_segments(tree: DirectoryModel) -> bool
    decreases tree,
{
    &&& free_of_parent_segments(tree.path)
    &&& forall|i: int|
        0 <= i < tree.files.len() ==> free_of_parent_segments(
            (#[trigger] tree.files[i]).original_path,
        )
    &&& forall|i: int|
        0 <= i < tree.sub_directories.len() ==> found_free_of_parent_segments(
            #[trigger] tree.sub_directories[i],
        )
}

/// Every file of the tree has a name that the rules retain, and every
/// directory below its root a name that may be entered.
pub open spec fn tree_filtered(tree: DirectoryModel, filters: FilterModel) -> bool
    decreases tree,
{
    &&& forall|i: int|
        0 <= i < tree.files.len() ==> file_allowed(filters, (#[trigger] tree.files[i]).name)
    &&& forall|i: int|
        0 <= i < tree.sub_directories.len() ==> {
            &&& directory_allowed(filters, (#[trigger] tree.sub_directories[i]).name)
            &&& tree_filtered(tree.sub_directories[i], filters)
        }
}

/// Each retained directory among the outcomes is the tree of one of them.
pub proof fn lemma_subtree_origin(outcomes: Seq<EntryOutcome>, k: int) -> (j: int)
    requires
        0 <= k < subtrees_of(outcomes).len(),
    ensures
        0 <= j < outcomes.len(),
        outcomes[j] is Subtree,
        outcomes[j]->Subtree_0.tree == subtrees_of(outcomes)[k],
    decreases outcomes.len(),
{
    let earlier = subtrees_of(outcomes.drop_last());
    if k < earlier.len() {
        lemma_subtree_origin(outcomes.drop_last(), k)
    } else {
        outcomes.len() - 1
    }
}

/// Each retained file among the outcomes is the file of one of them.
pub proof fn lemma_file_origin(outcomes: Seq<EntryOutcome>, k: int) -> (j: int)
    requires
        0 <= k < files_of(outcomes).len(),
    ensures
        0 <= j < outcomes.len(),
        outcomes[j] is Retained,
        outcomes[j]->Retained_0 == files_of(outcomes)[k],
    decreases outcomes.len(),
{
    let earlier = files_of(outcomes.drop_last());
    if k < earlier.len() {
        lemma_file_origin(outcomes.drop_last(), k)
    } else {
        outcomes.len() - 1
    }
}

/// What a listing gives is what its parts give, one after the other: no
/// entry changes what another entry gives.
pub proof fn lemma_outcomes_split(first: Seq<EntryOutcome>, second: Seq<EntryOutcome>)
    ensures
        subtrees_of(first + second) == subtrees_of(first) + subtrees_of(second),
        files_of(first + second) == files_of(first) + files_of(second),
        errors_of(first + second) == errors_of(first) + errors_of(second),
    decreases second.len(),
{
    if second.len() == 0 {
        assert(first + second =~= first);
    } else {
        assert((first + second).drop_last() =~= first + second.drop_last());
        lemma_outcomes_split(first, second.drop_last());
    }
}

/// What a listing of one entry gives.
pub proof fn lemma_single_outcome(outcome: EntryOutcome)
    ensures
        subtrees_of(seq![outcome]) == (match outcome {
            EntryOutcome::Subtree(built) => seq![built.tree],
            _ => Seq::empty(),
        }),
        files_of(seq![outcome]) == (match outcome {
            EntryOutcome::Retained(file) => seq![file],
            _ => Seq::empty(),
        }),
        errors_of(seq![outcome]) == (match outcome {
            EntryOutcome::Failed(error) => seq![error],
            EntryOutcome::Subtree(built) => built.errors,
            _ => Seq::empty(),
        }),
{
    reveal_with_fuel(subtrees_of, 2);
    reveal_with_fuel(files_of, 2);
    reveal_with_fuel(errors_of, 2);
    assert(seq![outcome].drop_last() =~= Seq::<EntryOutcome>::empty());
}

/// A retained directory is among the directories that the outcomes give.
pub proof fn lemma_subtree_kept(outcomes: Seq<EntryOutcome>, j: int)
    requires
        0 <= j < outcomes.len(),
        outcomes[j] is Subtree,
    ensures
        subtrees_of(outcomes).contains(outcomes[j]->Subtree_0.tree),
    decreases outcomes.len(),
{
    let earlier = subtrees_of(outcomes.drop_last());
    if j == outcomes.len() - 1 {
        assert(subtrees_of(outcomes)[earlier.len() as int] == outcomes[j]->Subtree_0.tree);
    } else {
        lemma_subtree_kept(outcomes.drop_last(), j);
        let k = choose|k: int|
            0 <= k < earlier.len() && earlier[k] == outcomes[j]->Subtree_0.tree;
        assert(subtrees_of(outcomes)[k] == outcomes[j]->Subtree_0.tree);
    }
}

/// A retained file is among the files that the outcomes give.
pub proof fn lemma_file_kept(outcomes: Seq<EntryOutcome>, j: int)
    requires
        0 <= j < outcomes.len(),
        outcomes[j] is Retained,
    ensures
        files_of(outcomes).contains(outcomes[j]->Retained_0),
    decreases outcomes.len(),
{
    let earlier = files_of(outcomes.drop_last());
    if j == outcomes.len() - 1 {
        assert(files_of(outcomes)[earlier.len() as int] == outcomes[j]->Retained_0);
    } else {
        lemma_file_kept(outcomes.drop_last(), j);
        let k = choose|k: int| 0 <= k < earlier.len() && earlier[k] == outcomes[j]->Retained_0;
        assert(files_of(outcomes)[k] == outcomes[j]->Retained_0);
    }
}

/// A failure is among the errors that the outcomes give.
pub proof fn lemma_failure_reported(outcomes: Seq<EntryOutcome>, j: int)
    requires
        0 <= j < outcomes.len(),
        outcomes[j] is Failed,
    ensures
        errors_of(outcomes).contains(outcomes[j]->Failed_0),
    decreases outcomes.len(),
{
    let earlier = errors_of(outcomes.drop_last());
    if j == outcomes.len() - 1 {
        assert(errors_of(outcomes)[earlier.len() as int] == outcomes[j]->Failed_0);
    } else {
        lemma_failure_reported(outcomes.drop_last(), j);
        let k = choose|k: int| 0 <= k < earlier.len() && earlier[k] == outcomes[j]->Failed_0;
        assert(errors_of(outcomes)[k] == outcomes[j]->Failed_0);
    }
}

/// Directories and files are retained in the order of the listing: what an
/// entry gives stands right after all that the entries before it give.
pub proof fn lemma_entry_position(outcomes: Seq<EntryOutcome>, j: int)
    requires
        0 <= j < outcomes.len(),
    ensures
        outcomes[j] matches EntryOutcome::Subtree(built) ==> {
            let at = subtrees_of(outcomes.take(j)).len() as int;
            at < subtrees_of(outcomes).len() && subtrees_of(outcomes)[at] == built.tree
        },
        outcomes[j] matches EntryOutcome::Retained(file) ==> {
            let at = files_of(outcomes.take(j)).len() as int;
            at < files_of(outcomes).len() && files_of(outcomes)[at] == file
        },
{
    let before = outcomes.take(j);
    let own = seq![outcomes[j]];
    let after = outcomes.skip(j + 1);
    assert(outcomes =~= before + own + after);
    lemma_outcomes_split(before, own);
    lemma_outcomes_split(before + own, after);
    lemma_single_outcome(outcomes[j]);
}

/// What the first entries of a listing give opens what a longer run of
/// them gives: a later entry never comes before an earlier one.
pub proof fn lemma_earlier_entries_come_first(outcomes: Seq<EntryOutcome>, i: int, j: int)
    requires
        0 <= i <= j <= outcomes.len(),
    ensures
        subtrees_of(outcomes.take(i)).is_prefix_of(subtrees_of(outcomes.take(j))),
        files_of(outcomes.take(i)).is_prefix_of(files_of(outcomes.take(j))),
        errors_of(outcomes.take(i)).is_prefix_of(errors_of(outcomes.take(j))),
{
    let first = outcomes.take(i);
    let second = outcomes.subrange(i, j);
    assert(outcomes.take(j) =~= first + second);
    lemma_outcomes_split(first, second);
}

/// An entry that fails takes nothing from what the other entries give: the
/// directories and files are those of the listing without it, and the
/// errors are those of the entries before it, then its own, then those of
/// the entries after it.
pub proof fn lemma_failed_entry_stands_alone(outcomes: Seq<EntryOutcome>, j: int)
    requires
        0 <= j < outcomes.len(),
        outcomes[j] is Failed,
    ensures
        subtrees_of(outcomes) == subtrees_of(outcomes.remove(j)),
        files_of(outcomes) == files_of(outcomes.remove(j)),
        errors_of(outcomes) == errors_of(outcomes.take(j)) + seq![outcomes[j]->Failed_0]
            + errors_of(outcomes.skip(j + 1)),
        errors_of(outcomes.remove(j)) == errors_of(outcomes.take(j)) + errors_of(
            outcomes.skip(j + 1),
        ),
{
    let before = outcomes.take(j);
    let own = seq![outcomes[j]];
    let after = outcomes.skip(j + 1);
    assert(outcomes =~= before + own + after);
    assert(outcomes.remove(j) =~= before + after);
    lemma_outcomes_split(before, own);
    lemma_outcomes_split(before + own, after);
    lemma_outcomes_split(before, after);
    lemma_single_outcome(outcomes[j]);
}

/// An entry that is skipped leaves no trace: directories, files and errors
/// are those of the listing without it.
pub proof fn lemma_skipped_entry_leaves_no_trace(outcomes: Seq<EntryOutcome>, j: int)
    requires
        0 <= j < outcomes.len(),
        outcomes[j] is Skipped,
    ensures
        subtrees_of(outcomes) == subtrees_of(outcomes.remove(j)),
        files_of(outcomes) == files_of(outcomes.remove(j)),
        errors_of(outcomes) == errors_of(outcomes.remove(j)),
{
    let before = outcomes.take(j);
    let own = seq![outcomes[j]];
    let after = outcomes.skip(j + 1);
    assert(outcomes =~= before + own + after);
    assert(outcomes.remove(j) =~= before + after);
    lemma_outcomes_split(before, own);
    lemma_outcomes_split(before + own, after);
    lemma_outcomes_split(before, after);
    lemma_single_outcome(outcomes[j]);
}

/// A directory that may be entered and can be built is retained: its tree
/// is among the directories of its parent's tree, whatever else the parent
/// holds. It keeps its own path, and its relative path and destination are
/// taken against the two roots.
pub proof fn lemma_allowed_directory_kept(
    source: SourceDir,
    filters: FilterModel,
    dest: PathModel,
    root: PathModel,
    j: int,
)
    requires
        build_model(source, filters, dest, root) is Ok,
        0 <= j < source.contents->Listed_0.len(),
        source.contents->Listed_0[j] is Directory,
        directory_allowed(filters, base_name(source.contents->Listed_0[j]->Directory_0.path@)),
        build_model(source.contents->Listed_0[j]->Directory_0, filters, dest, root) is Ok,
    ensures
        ({
            let dir = source.contents->Listed_0[j]->Directory_0;
            let kept = build_model(dir, filters, dest, root)->Ok_0.tree;
            &&& build_model(source, filters, dest, root)->Ok_0.tree.sub_directories.contains(kept)
            &&& kept.path == dir.path@
            &&& kept.name == base_name(dir.path@)
            &&& kept.relative_path == strip_root(dir.path@, root)
            &&& kept.dest_path == join_paths(dest, strip_root(dir.path@, root))
        }),
{
    let outcomes = entry_outcomes(source.contents->Listed_0, filters, dest, root);
    lemma_subtree_kept(outcomes, j);
}

/// A file that the rules retain and that lies under the root of the walk
/// is retained: it is among the files of its directory's tree, whatever
/// else the directory holds.
pub proof fn lemma_allowed_file_kept(
    source: SourceDir,
    filters: FilterModel,
    dest: PathModel,
    root: PathModel,
    j: int,
)
    requires
        build_model(source, filters, dest, root) is Ok,
        0 <= j < source.contents->Listed_0.len(),
        source.contents->Listed_0[j] is File,
        file_allowed(filters, base_name(source.contents->Listed_0[j]->File_0@)),
        begins_with(source.contents->Listed_0[j]->File_0@, root),
    ensures
        build_model(source, filters, dest, root)->Ok_0.tree.files.contains(
            file_model(source.contents->Listed_0[j]->File_0@, dest, root),
        ),
{
    let outcomes = entry_outcomes(source.contents->Listed_0, filters, dest, root);
    lemma_file_kept(outcomes, j);
}

/// A directory that may be entered and cannot be built does not fail its
/// parent: the parent is built, and the failure of the directory is among
/// the errors reported.
pub proof fn lemma_unreadable_directory_reported(
    source: SourceDir,
    filters: FilterModel,
    dest: PathModel,
    root: PathModel,
    j: int,
)
    requires
        build_model(source, filters, dest, root) is Ok,
        0 <= j < source.contents->Listed_0.len(),
        source.contents->Listed_0[j] is Directory,
        directory_allowed(filters, base_name(source.contents->Listed_0[j]->Directory_0.path@)),
        build_model(source.contents->Listed_0[j]->Directory_0, filters, dest, root) is Err,
    ensures
        build_model(source, filters, dest, root)->Ok_0.errors.contains(
            BuildErrorModel::IoFailure(source.contents->Listed_0[j]->Directory_0.path@),
        ),
{
    let outcomes = entry_outcomes(source.contents->Listed_0, filters, dest, root);
    lemma_failure_reported(outcomes, j);
}

/// An entry that fails is tolerated: the tree is the one that the
/// directory gives without that entry, and the errors are those that it
/// gives without the entry, with the failure of the entry put in at the
/// entry's place.
pub proof fn lemma_failed_entry_tolerated(
    with: SourceDir,
    without: SourceDir,
    filters: FilterModel,
    dest: PathModel,
    root: PathModel,
    j: int,
)
    requires
        build_model(with, filters, dest, root) is Ok,
        without.path@ == with.path@,
        without.contents is Listed,
        0 <= j < with.contents->Listed_0.len(),
        without.contents->Listed_0@ == with.contents->Listed_0@.remove(j),
        entry_outcome(with.contents->Listed_0[j], filters, dest, root) is Failed,
    ensures
        ({
            let outcomes = entry_outcomes(with.contents->Listed_0, filters, dest, root);
            let built = build_model(with, filters, dest, root)->Ok_0;
            let other = build_model(without, filters, dest, root);
            &&& other is Ok
            &&& built.tree == other->Ok_0.tree
            &&& built.errors == errors_of(outcomes.take(j)) + seq![outcomes[j]->Failed_0]
                + errors_of(outcomes.skip(j + 1))
            &&& other->Ok_0.errors == errors_of(outcomes.take(j)) + errors_of(
                outcomes.skip(j + 1),
            )
        }),
{
    let outcomes = entry_outcomes(with.contents->Listed_0, filters, dest, root);
    let others = entry_outcomes(without.contents->Listed_0, filters, dest, root);
    assert(others =~= outcomes.remove(j)) by {
        assert forall|i: int| 0 <= i < others.len() implies others[i] == outcomes.remove(j)[i] by {
            assert(without.contents->Listed_0@[i] == with.contents->Listed_0@.remove(j)[i]);
        }
    }
    lemma_failed_entry_stands_alone(outcomes, j);
}

/// An entry that is skipped is as good as absent, whatever it holds: a
/// directory that may not be entered, with all below it, a file that the
/// rules leave out, or what is neither. The tree and the errors are those
/// that the directory gives without that entry.
pub proof fn lemma_skipped_entry_ignored(
    with: SourceDir,
    without: SourceDir,
    filters: FilterModel,
    dest: PathModel,
    root: PathModel,
    j: int,
)
    requires
        build_model(with, filters, dest, root) is Ok,
        without.path@ == with.path@,
        without.contents is Listed,
        0 <= j < with.contents->Listed_0.len(),
        without.contents->Listed_0@ == with.contents->Listed_0@.remove(j),
        entry_outcome(with.contents->Listed_0[j], filters, dest, root) is Skipped,
    ensures
        build_model(without, filters, dest, root) == build_model(with, filters, dest, root),
{
    let outcomes = entry_outcomes(with.contents->Listed_0, filters, dest, root);
    let others = entry_outcomes(without.contents->Listed_0, filters, dest, root);
    assert(others =~= outcomes.remove(j)) by {
        assert forall|i: int| 0 <= i < others.len() implies others[i] == outcomes.remove(j)[i] by {
            assert(without.contents->Listed_0@[i] == with.contents->Listed_0@.remove(j)[i]);
        }
    }
    lemma_skipped_entry_leaves_no_trace(outcomes, j);
}

/// A directory that may not be entered is skipped, whatever was found in it.
pub proof fn lemma_unlisted_directory_skipped(
    dir: SourceDir,
    filters: FilterModel,
    dest: PathModel,
    root: PathModel,
)
    requires
        !directory_allowed(filters, base_name(dir.path@)),
    ensures
        entry_outcome(SourceEntry::Directory(dir), filters, dest, root) is Skipped,
{
}

/// A file whose name holds an excluded fragment is skipped, wherever it lies.
pub proof fn lemma_excluded_file_skipped(
    path: TreePath,
    filters: FilterModel,
    dest: PathModel,
    root: PathModel,
)
    requires
        !file_allowed(filters, base_name(path@)),
    ensures
        entry_outcome(SourceEntry::File(path), filters, dest, root) is Skipped,
{
}

/// In every built tree the destination of each node is the destination
/// root joined with the node's relative path, which is not absolute.
pub proof fn lemma_built_tree_under_destination(
    source: SourceDir,
    filters: FilterModel,
    dest: PathModel,
    root: PathModel,
)
    ensures
        build_model(source, filters, dest, root) matches Ok(built) ==> tree_under_destination(
            built.tree,
            dest,
        ),
    decreases source,
{
    if let Ok(built) = build_model(source, filters, dest, root) {
        let entries = source.contents->Listed_0;
        let outcomes = entry_outcomes(entries, filters, dest, root);
        assert forall|k: int|
            0 <= k < built.tree.files.len() implies node_under_destination(
            (#[trigger] built.tree.files[k]).relative_path,
            built.tree.files[k].dest_path,
            dest,
        ) by {
            let j = lemma_file_origin(outcomes, k);
        }
        assert forall|k: int|
            0 <= k < built.tree.sub_directories.len() implies tree_under_destination(
            #[trigger] built.tree.sub_directories[k],
            dest,
        ) by {
            let j = lemma_subtree_origin(outcomes, k);
            lemma_built_tree_under_destination(entries[j]->Directory_0, filters, dest, root);
        }
    }
}

/// In every built tree each node was found under the root of the walk, at
/// the root joined with the node's relative path.
pub proof fn lemma_built_tree_under_root(
    source: SourceDir,
    filters: FilterModel,
    dest: PathModel,
    root: PathModel,
)
    ensures
        build_model(source, filters, dest, root) matches Ok(built) ==> tree_under_root(
            built.tree,
            root,
        ),
    decreases source,
{
    if let Ok(built) = build_model(source, filters, dest, root) {
        let entries = source.contents->Listed_0;
        let outcomes = entry_outcomes(entries, filters, dest, root);
        lemma_join_restores(source.path@, root);
        assert forall|k: int| 0 <= k < built.tree.files.len() implies node_under_root(
            (#[trigger] built.tree.files[k]).original_path,
            built.tree.files[k].relative_path,
            root,
        ) by {
            let j = lemma_file_origin(outcomes, k);
            lemma_join_restores(built.tree.files[k].original_path, root);
        }
        assert forall|k: int| 0 <= k < built.tree.sub_directories.len() implies tree_under_root(
            #[trigger] built.tree.sub_directories[k],
            root,
        ) by {
            let j = lemma_subtree_origin(outcomes, k);
            lemma_built_tree_under_root(entries[j]->Directory_0, filters, dest, root);
        }
    }
}

/// In a tree of nodes found under `root`, none of them at a path with a
/// `..`, no relative path has a `..`.
pub proof fn lemma_relative_paths_free_of_parent_segments(tree: DirectoryModel, root: PathModel)
    requires
        tree_under_root(tree, root),
        found_free_of_parent_segments(tree),
    ensures
        relative_paths_free_of_parent_segments(tree),
    decreases tree,
{
    assert forall|k: int|
        0 <= k < tree.sub_directories.len() implies relative_paths_free_of_parent_segments(
        #[trigger] tree.sub_directories[k],
    ) by {
        lemma_relative_paths_free_of_parent_segments(tree.sub_directories[k], root);
    }
}

/// In a built tree none of whose nodes was found at a path with a `..`, no
/// relative path has a `..`.
pub proof fn lemma_built_tree_without_parent_segments(
    source: SourceDir,
    filters: FilterModel,
    dest: PathModel,
    root: PathModel,
)
    requires
        build_model(source, filters, dest, root) is Ok,
        found_free_of_parent_segments(build_model(source, filters, dest, root)->Ok_0.tree),
    ensures
        relative_paths_free_of_parent_segments(
            build_model(source, filters, dest, root)->Ok_0.tree,
        ),
{
    lemma_built_tree_under_root(source, filters, dest, root);
    lemma_relative_paths_free_of_parent_segments(
        build_model(source, filters, dest, root)->Ok_0.tree,
        root,
    );
}

/// A built tree holds no file that the rules leave out
/// and, below its root, no directory that may not be entered.
pub proof fn lemma_built_tree_filtered(
    source: SourceDir,
    filters: FilterModel,
    dest: PathModel,
    root: PathModel,
)
    ensures
        build_model(source, filters, dest, root) matches Ok(built) ==> tree_filtered(
            built.tree,
            filters,
        ),
    decreases source,
{
    if let Ok(built) = build_model(source, filters, dest, root) {
        let entries = source.contents->Listed_0;
        let outcomes = entry_outcomes(entries, filters, dest, root);
        assert forall|k: int| 0 <= k < built.tree.files.len() implies file_allowed(
            filters,
            (#[trigger] built.tree.files[k]).name,
        ) by {
            let j = lemma_file_origin(outcomes, k);
        }
        assert forall|k: int| 0 <= k < built.tree.sub_directories.len() implies {
            &&& directory_allowed(filters, (#[trigger] built.tree.sub_directories[k]).name)
            &&& tree_filtered(built.tree.sub_directories[k], filters)
        } by {
            let j = lemma_subtree_origin(outcomes, k);
            lemma_built_tree_filtered(entries[j]->Directory_0, filters, dest, root);
        }
    }
}

} // verus!
