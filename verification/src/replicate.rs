//! Replication of a retained tree: the steps to take, in order, and the
//! report of those that failed.

use crate::paths::{PathModel, TreePath};
use crate::structures::{
    file_models, lemma_directory_view, tree_holds_directory, tree_holds_file, Directory,
    DirectoryModel, FileModel,
};
use vstd::prelude::*;

verus! {

/// One step of a replication.
#[derive(Debug, PartialEq, Eq)]
pub enum ReplicationStep {
    /// Make sure that this directory exists, with all directories above it.
    EnsureDirectory(TreePath),
    /// Copy the file at `from` to `to`, over whatever is there.
    CopyFile { from: TreePath, to: TreePath },
}

/// The mathematical value of a [`ReplicationStep`].
pub enum StepModel {
    EnsureDirectory(PathModel),
    CopyFile { from: PathModel, to: PathModel },
}

impl View for ReplicationStep {
    type V = StepModel;

    open spec fn view(&self) -> StepModel {
        match self {
            ReplicationStep::EnsureDirectory(path) => StepModel::EnsureDirectory(path@),
            ReplicationStep::CopyFile { from, to } => StepModel::CopyFile { from: from@, to: to@ },
        }
    }
}

/// The value of each step of a sequence.
pub open spec fn step_models(steps: Seq<ReplicationStep>) -> Seq<StepModel> {
    steps.map_values(|s: ReplicationStep| s@)
}

/// The copy that replicates a file: from where it was found to its destination.
pub open spec fn copy_of(file: FileModel) -> StepModel {
    StepModel::CopyFile { from: file.original_path, to: file.dest_path }
}

/// One copy for each file, in order.
pub open spec fn copies_of(files: Seq<FileModel>) -> Seq<StepModel> {
    files.map_values(|f: FileModel| copy_of(f))
}

/// The steps that replicate a directory and all below it: its own
/// destination first, then its files in order, then each of its directories
/// in order.
pub open spec fn plan_of(directory: DirectoryModel) -> Seq<StepModel>
    decreases directory, directory.sub_directories.len() + 1,
{
    seq![StepModel::EnsureDirectory(directory.dest_path)] + copies_of(directory.files)
        + plans_below(directory, directory.sub_directories.len() as int)
}

/// The steps that replicate the first `count` directories of `directory`.
pub open spec fn plans_below(directory: DirectoryModel, count: int) -> Seq<StepModel>
    decreases directory, count,
{
    if 0 < count <= directory.sub_directories.len() {
        plans_below(directory, count - 1) + plan_of(directory.sub_directories[count - 1])
    } else {
        Seq::empty()
    }
}

/// A step of the plans of the first `count` directories is a step of the
/// plan of one of them, and the other way round.
pub proof fn lemma_plans_below_hold(directory: DirectoryModel, count: int, step: StepModel)
    requires
        0 <= count <= directory.sub_directories.len(),
    ensures
        plans_below(directory, count).contains(step) <==> exists|i: int|
            0 <= i < count && #[trigger] plan_of(directory.sub_directories[i]).contains(step),
    decreases count,
{
    if count > 0 {
        let earlier = plans_below(directory, count - 1);
        let last = plan_of(directory.sub_directories[count - 1]);
        lemma_plans_below_hold(directory, count - 1, step);
        if earlier.contains(step) {
            let k = choose|k: int| 0 <= k < earlier.len() && earlier[k] == step;
            assert((earlier + last)[k] == step);
        }
        if last.contains(step) {
            let k = choose|k: int| 0 <= k < last.len() && last[k] == step;
            assert((earlier + last)[earlier.len() + k] == step);
        }
        if plans_below(directory, count).contains(step) {
            let k = choose|k: int| 0 <= k < (earlier + last).len() && (earlier + last)[k] == step;
            if k < earlier.len() {
                assert(earlier[k] == step);
            } else {
                assert(last[k - earlier.len()] == step);
            }
        }
    }
}

/// The plan of a tree copies every file retained in it, from where it was
/// found to its destination.
pub proof fn lemma_plan_copies_every_file(tree: DirectoryModel, file: FileModel)
    requires
        tree_holds_file(tree, file),
    ensures
        plan_of(tree).contains(copy_of(file)),
    decreases tree,
{
    let plan = plan_of(tree);
    if tree.files.contains(file) {
        let k = choose|k: int| 0 <= k < tree.files.len() && tree.files[k] == file;
        assert(plan[1 + k] == copy_of(file));
    } else {
        let i = choose|i: int|
            0 <= i < tree.sub_directories.len() && tree_holds_file(
                #[trigger] tree.sub_directories[i],
                file,
            );
        lemma_plan_copies_every_file(tree.sub_directories[i], file);
        let below = plans_below(tree, tree.sub_directories.len() as int);
        lemma_plans_below_hold(tree, tree.sub_directories.len() as int, copy_of(file));
        let k = choose|k: int| 0 <= k < below.len() && below[k] == copy_of(file);
        assert(plan[1 + tree.files.len() + k] == copy_of(file));
    }
}

/// The plan of a tree makes sure of the destination of every directory
/// retained in it.
pub proof fn lemma_plan_ensures_every_directory(tree: DirectoryModel, directory: DirectoryModel)
    requires
        tree_holds_directory(tree, directory),
    ensures
        plan_of(tree).contains(StepModel::EnsureDirectory(directory.dest_path)),
    decreases tree,
{
    let plan = plan_of(tree);
    let step = StepModel::EnsureDirectory(directory.dest_path);
    if tree == directory {
        assert(plan[0] == step);
    } else {
        let i = choose|i: int|
            0 <= i < tree.sub_directories.len() && tree_holds_directory(
                #[trigger] tree.sub_directories[i],
                directory,
            );
        lemma_plan_ensures_every_directory(tree.sub_directories[i], directory);
        let below = plans_below(tree, tree.sub_directories.len() as int);
        lemma_plans_below_hold(tree, tree.sub_directories.len() as int, step);
        let k = choose|k: int| 0 <= k < below.len() && below[k] == step;
        assert(plan[1 + tree.files.len() + k] == step);
    }
}

/// The step is asked for by the tree: it copies a file retained in the
/// tree, or makes sure of the destination of a directory retained in it.
pub open spec fn step_comes_from(tree: DirectoryModel, step: StepModel) -> bool {
    match step {
        StepModel::CopyFile { from, to } => exists|file: FileModel|
            #[trigger] tree_holds_file(tree, file) && copy_of(file) == step,
        StepModel::EnsureDirectory(path) => exists|directory: DirectoryModel|
            #[trigger] tree_holds_directory(tree, directory) && directory.dest_path == path,
    }
}

/// The plan of a tree takes no step that the tree does not ask for: nothing
/// is copied but the retained files, and nothing made but the destinations
/// of the retained directories.
pub proof fn lemma_plan_step_origin(tree: DirectoryModel, step: StepModel)
    requires
        plan_of(tree).contains(step),
    ensures
        step_comes_from(tree, step),
    decreases tree,
{
    let plan = plan_of(tree);
    let k = choose|k: int| 0 <= k < plan.len() && plan[k] == step;
    if k == 0 {
        assert(tree_holds_directory(tree, tree));
    } else if k < 1 + tree.files.len() {
        let file = tree.files[k - 1];
        assert(tree.files.contains(file));
        assert(tree_holds_file(tree, file));
    } else {
        let below = plans_below(tree, tree.sub_directories.len() as int);
        assert(below[k - 1 - tree.files.len()] == step);
        lemma_plans_below_hold(tree, tree.sub_directories.len() as int, step);
        let i = choose|i: int|
            0 <= i < tree.sub_directories.len() && #[trigger] plan_of(
                tree.sub_directories[i],
            ).contains(step);
        lemma_plan_step_origin(tree.sub_directories[i], step);
        match step {
            StepModel::CopyFile { from, to } => {
                let file = choose|file: FileModel|
                    #[trigger] tree_holds_file(tree.sub_directories[i], file) && copy_of(file)
                        == step;
                assert(tree_holds_file(tree, file));
            },
            StepModel::EnsureDirectory(path) => {
                let directory = choose|directory: DirectoryModel|
                    #[trigger] tree_holds_directory(tree.sub_directories[i], directory)
                        && directory.dest_path == path;
                assert(tree_holds_directory(tree, directory));
            },
        }
    }
}

/// Appends to `plan` the steps that replicate `base_dir`.
fn plan_directory(base_dir: &Directory, plan: &mut Vec<ReplicationStep>)
    ensures
        step_models(final(plan)@) == step_models(old(plan)@) + plan_of(base_dir@),
    decreases base_dir,
{
    proof {
        lemma_directory_view(*base_dir);
    }
    plan.push(ReplicationStep::EnsureDirectory(base_dir.dest_path.clone()));
    let ghost lead = step_models(plan@);
    let mut i: usize = 0;
    while i < base_dir.files.len()
        invariant
            i <= base_dir.files.len(),
            step_models(plan@) == lead + copies_of(base_dir@.files.take(i as int)),
            base_dir@.files == file_models(base_dir.files@),
        decreases base_dir.files.len() - i,
    {
        let file = &base_dir.files[i];
        let ghost earlier = step_models(plan@);
        plan.push(
            ReplicationStep::CopyFile {
                from: file.original_path.clone(),
                to: file.dest_path.clone(),
            },
        );
        assert(step_models(plan@) =~= earlier.push(
            StepModel::CopyFile { from: file@.original_path, to: file@.dest_path },
        ));
        i = i + 1;
    }
    let ghost own = step_models(plan@);
    let mut j: usize = 0;
    while j < base_dir.sub_directories.len()
        invariant
            j <= base_dir.sub_directories.len(),
            base_dir@.sub_directories.len() == base_dir.sub_directories.len(),
            forall|k: int|
                0 <= k < base_dir.sub_directories.len() ==> base_dir@.sub_directories[k]
                    == base_dir.sub_directories[k]@,
            step_models(plan@) == own + plans_below(base_dir@, j as int),
        decreases base_dir.sub_directories.len() - j,
    {
        plan_directory(&base_dir.sub_directories[j], plan);
        j = j + 1;
    }
}

/// The steps that replicate the tree under `base_dir`, in the order in
/// which they are to be taken: see [`plan_of`].
pub fn replication_plan(base_dir: &Directory) -> (plan: Vec<ReplicationStep>)
    ensures
        step_models(plan@) == plan_of(base_dir@),
{
    let mut plan: Vec<ReplicationStep> = Vec::new();
    plan_directory(base_dir, &mut plan);
    plan
}

/// How one step of a replication ended.
#[derive(Debug, PartialEq, Eq)]
pub enum StepOutcome {
    /// The step was taken.
    Done,
    /// The step failed, for this reason.
    Failed(String),
}

/// A step that failed, and why.
#[derive(Debug, PartialEq, Eq)]
pub struct ReplicationError {
    pub step: ReplicationStep,
    pub reason: String,
}

/// The mathematical value of a [`ReplicationError`].
pub struct ReplicationErrorModel {
    pub step: StepModel,
    pub reason: Seq<char>,
}

impl View for ReplicationError {
    type V = ReplicationErrorModel;

    open spec fn view(&self) -> ReplicationErrorModel {
        ReplicationErrorModel { step: self.step@, reason: self.reason@ }
    }
}

/// The value of each error of a sequence.
pub open spec fn replication_error_models(errors: Seq<ReplicationError>) -> Seq<
    ReplicationErrorModel,
> {
    errors.map_values(|e: ReplicationError| e@)
}

/// The failures among the first `count` steps, in order: one for each step
/// whose outcome is a failure.
pub open spec fn failures_among(
    plan: Seq<ReplicationStep>,
    outcomes: Seq<StepOutcome>,
    count: int,
) -> Seq<ReplicationErrorModel>
    decreases count,
{
    if 0 < count <= plan.len() && count <= outcomes.len() {
        failures_among(plan, outcomes, count - 1) + (match outcomes[count - 1] {
            StepOutcome::Failed(reason) => seq![
                ReplicationErrorModel { step: plan[count - 1]@, reason: reason@ },
            ],
            StepOutcome::Done => Seq::empty(),
        })
    } else {
        Seq::empty()
    }
}

/// The number of steps that have an outcome.
pub open spec fn steps_reported(plan: Seq<ReplicationStep>, outcomes: Seq<StepOutcome>) -> int {
    if plan.len() <= outcomes.len() {
        plan.len() as int
    } else {
        outcomes.len() as int
    }
}

impl Clone for ReplicationStep {
    fn clone(&self) -> (copy: Self)
        ensures
            copy@ == self@,
    {
        match self {
            ReplicationStep::EnsureDirectory(path) => ReplicationStep::EnsureDirectory(
                path.clone(),
            ),
            ReplicationStep::CopyFile { from, to } => ReplicationStep::CopyFile {
                from: from.clone(),
                to: to.clone(),
            },
        }
    }
}

/// The report of a replication: one error for each step of `plan` whose
/// outcome, at the same position in `outcomes`, is a failure. No failure
/// hides a later one. A step without an outcome, and an outcome without a
/// step, give nothing.
pub fn replication_errors(plan: &Vec<ReplicationStep>, outcomes: &Vec<StepOutcome>) -> (errors: Vec<
    ReplicationError,
>)
    ensures
        replication_error_models(errors@) == failures_among(
            plan@,
            outcomes@,
            steps_reported(plan@, outcomes@),
        ),
{
    let count = if plan.len() <= outcomes.len() {
        plan.len()
    } else {
        outcomes.len()
    };
    let mut errors: Vec<ReplicationError> = Vec::new();
    let mut i: usize = 0;
    while i < count
        invariant
            i <= count,
            count == steps_reported(plan@, outcomes@),
            replication_error_models(errors@) == failures_among(plan@, outcomes@, i as int),
        decreases count - i,
    {
        match &outcomes[i] {
            StepOutcome::Failed(reason) => {
                let error = ReplicationError { step: plan[i].clone(), reason: reason.clone() };
                errors.push(error);
            },
            StepOutcome::Done => {},
        }
        i = i + 1;
    }
    errors
}

/// The files under the destination, by path, once the steps of `plan` have
/// been taken on the files `dest`, where `sources` holds the files under
/// the source and no step touches them. A copy writes the content of its
/// source at its destination, over what is there; nothing else changes a file.
pub open spec fn files_after(
    plan: Seq<StepModel>,
    sources: Map<PathModel, Seq<u8>>,
    dest: Map<PathModel, Seq<u8>>,
) -> Map<PathModel, Seq<u8>>
    decreases plan.len(),
{
    if plan.len() == 0 {
        dest
    } else {
        let before = files_after(plan.drop_last(), sources, dest);
        match plan.last() {
            StepModel::CopyFile { from, to } if sources.contains_key(from) => before.insert(
                to,
                sources[from],
            ),
            _ => before,
        }
    }
}

/// The step copies a file to `path`.
pub open spec fn copies_to(step: StepModel, path: PathModel) -> bool {
    step matches StepModel::CopyFile { to, .. } && to == path
}

/// A path to which no step copies holds after the steps what it held before.
pub proof fn lemma_untouched_path_is_kept(
    plan: Seq<StepModel>,
    sources: Map<PathModel, Seq<u8>>,
    dest: Map<PathModel, Seq<u8>>,
    path: PathModel,
)
    requires
        forall|k: int| 0 <= k < plan.len() ==> !copies_to(#[trigger] plan[k], path),
    ensures
        files_after(plan, sources, dest).contains_key(path) == dest.contains_key(path),
        dest.contains_key(path) ==> files_after(plan, sources, dest)[path] == dest[path],
    decreases plan.len(),
{
    if plan.len() > 0 {
        assert(!copies_to(plan[plan.len() - 1], path));
        assert forall|k: int| 0 <= k < plan.drop_last().len() implies !copies_to(
            #[trigger] plan.drop_last()[k],
            path,
        ) by {
            assert(plan.drop_last()[k] == plan[k]);
        }
        lemma_untouched_path_is_kept(plan.drop_last(), sources, dest, path);
    }
}

/// The last step that copies to a path decides what the path holds: where
/// its source is there, the path holds the content of that source.
pub proof fn lemma_last_copy_decides(
    plan: Seq<StepModel>,
    sources: Map<PathModel, Seq<u8>>,
    dest: Map<PathModel, Seq<u8>>,
    k: int,
)
    requires
        0 <= k < plan.len(),
        plan[k] is CopyFile,
        sources.contains_key(plan[k]->from),
        forall|l: int| k < l < plan.len() ==> !copies_to(#[trigger] plan[l], plan[k]->to),
    ensures
        files_after(plan, sources, dest).contains_key(plan[k]->to),
        files_after(plan, sources, dest)[plan[k]->to] == sources[plan[k]->from],
    decreases plan.len(),
{
    if k < plan.len() - 1 {
        assert(!copies_to(plan[plan.len() - 1], plan[k]->to));
        assert(plan.drop_last()[k] == plan[k]);
        assert forall|l: int| k < l < plan.drop_last().len() implies !copies_to(
            #[trigger] plan.drop_last()[l],
            plan[k]->to,
        ) by {
            assert(plan.drop_last()[l] == plan[l]);
        }
        lemma_last_copy_decides(plan.drop_last(), sources, dest, k);
    }
}

/// The position of the last step that copies to `path`.
pub proof fn lemma_last_copy_to(plan: Seq<StepModel>, path: PathModel) -> (k: int)
    requires
        exists|l: int| 0 <= l < plan.len() && copies_to(#[trigger] plan[l], path),
    ensures
        0 <= k < plan.len(),
        copies_to(plan[k], path),
        forall|l: int| k < l < plan.len() ==> !copies_to(#[trigger] plan[l], path),
    decreases plan.len(),
{
    if copies_to(plan[plan.len() - 1], path) {
        plan.len() - 1
    } else {
        let l = choose|l: int| 0 <= l < plan.len() && copies_to(#[trigger] plan[l], path);
        assert(copies_to(plan.drop_last()[l], path));
        let k = lemma_last_copy_to(plan.drop_last(), path);
        assert(plan.drop_last()[k] == plan[k]);
        assert forall|l: int| k < l < plan.len() implies !copies_to(#[trigger] plan[l], path) by {
            if l < plan.len() - 1 {
                assert(plan.drop_last()[l] == plan[l]);
            }
        }
        k
    }
}

/// Replication touches nothing but the destinations of the retained
/// files: a path that is the destination of none of them holds afterwards
/// what it held before.
pub proof fn lemma_replication_keeps_other_paths(
    tree: DirectoryModel,
    sources: Map<PathModel, Seq<u8>>,
    dest: Map<PathModel, Seq<u8>>,
    path: PathModel,
)
    requires
        forall|file: FileModel| #[trigger] tree_holds_file(tree, file) ==> file.dest_path != path,
    ensures
        files_after(plan_of(tree), sources, dest).contains_key(path) == dest.contains_key(path),
        dest.contains_key(path) ==> files_after(plan_of(tree), sources, dest)[path] == dest[path],
{
    let plan = plan_of(tree);
    assert forall|k: int| 0 <= k < plan.len() implies !copies_to(#[trigger] plan[k], path) by {
        if copies_to(plan[k], path) {
            assert(plan.contains(plan[k]));
            lemma_plan_step_origin(tree, plan[k]);
        }
    }
    lemma_untouched_path_is_kept(plan, sources, dest, path);
}

/// After replication the destination of a retained file holds the content
/// of the file, where the file can be read and every retained file with
/// the same destination was found at the same place.
pub proof fn lemma_replicated_file_holds_source(
    tree: DirectoryModel,
    sources: Map<PathModel, Seq<u8>>,
    dest: Map<PathModel, Seq<u8>>,
    file: FileModel,
)
    requires
        tree_holds_file(tree, file),
        sources.contains_key(file.original_path),
        forall|other: FileModel|
            #[trigger] tree_holds_file(tree, other) && other.dest_path == file.dest_path
                ==> other.original_path == file.original_path,
    ensures
        files_after(plan_of(tree), sources, dest).contains_key(file.dest_path),
        files_after(plan_of(tree), sources, dest)[file.dest_path] == sources[file.original_path],
{
    let plan = plan_of(tree);
    lemma_plan_copies_every_file(tree, file);
    let l = choose|l: int| 0 <= l < plan.len() && plan[l] == copy_of(file);
    assert(copies_to(plan[l], file.dest_path));
    let k = lemma_last_copy_to(plan, file.dest_path);
    assert(plan.contains(plan[k]));
    lemma_plan_step_origin(tree, plan[k]);
    lemma_last_copy_decides(plan, sources, dest, k);
}

/// The files that a plan leaves are those it was started on, overlaid with
/// those it writes on an empty destination.
pub proof fn lemma_files_after_overlays(
    plan: Seq<StepModel>,
    sources: Map<PathModel, Seq<u8>>,
    dest: Map<PathModel, Seq<u8>>,
)
    ensures
        files_after(plan, sources, dest) == dest.union_prefer_right(
            files_after(plan, sources, Map::empty()),
        ),
    decreases plan.len(),
{
    if plan.len() > 0 {
        lemma_files_after_overlays(plan.drop_last(), sources, dest);
    }
}

/// Replication is idempotent: to replicate a tree a second time, from the
/// same source files to the same destination, leaves every file of the
/// destination as the first time left it.
pub proof fn lemma_replication_idempotent(
    tree: DirectoryModel,
    sources: Map<PathModel, Seq<u8>>,
    dest: Map<PathModel, Seq<u8>>,
)
    ensures
        files_after(plan_of(tree), sources, files_after(plan_of(tree), sources, dest))
            == files_after(plan_of(tree), sources, dest),
{
    let plan = plan_of(tree);
    let once = files_after(plan, sources, dest);
    let written = files_after(plan, sources, Map::empty());
    lemma_files_after_overlays(plan, sources, dest);
    lemma_files_after_overlays(plan, sources, once);
}

} // verus!
