//! Paths as sequences of components, and the arithmetic that moves a path
//! from under one root to under another.

use crate::text::{chars_of, same_text, texts};
use vstd::prelude::*;
use vstd::string::*;

verus! {

/// A path: whether it starts at the file-system root, and its components in order.
#[derive(Debug, PartialEq, Eq)]
pub struct TreePath {
    pub absolute: bool,
    pub components: Vec<String>,
}

/// The mathematical value of a [`TreePath`].
pub struct PathModel {
    pub absolute: bool,
    pub components: Seq<Seq<char>>,
}

/// Why a path could not be made relative.
#[derive(Clone, Copy, Debug, PartialEq, Eq, Structural)]
pub enum PathError {
    /// The path does not begin with the root it was to be stripped of.
    NotUnderRoot,
}

impl View for TreePath {
    type V = PathModel;

    open spec fn view(&self) -> PathModel {
        PathModel { absolute: self.absolute, components: texts(self.components@) }
    }
}

/// `target` lies at or below `root`: both are anchored alike and the
/// components of `root` open those of `target`.
pub open spec fn begins_with(target: PathModel, root: PathModel) -> bool {
    &&& target.absolute == root.absolute
    &&& root.components.len() <= target.components.len()
    &&& target.components.take(root.components.len() as int) == root.components
}

/// What is left of `target` once the components of `root` are taken off its front.
pub open spec fn strip_root(target: PathModel, root: PathModel) -> PathModel {
    PathModel { absolute: false, components: target.components.skip(root.components.len() as int) }
}

/// `relative` placed under `root`; an absolute second path stands for itself.
pub open spec fn join_paths(root: PathModel, relative: PathModel) -> PathModel {
    if relative.absolute {
        relative
    } else {
        PathModel { absolute: root.absolute, components: root.components + relative.components }
    }
}

/// Copies the strings of `strings` from position `from` on.
fn copy_strings_from(strings: &Vec<String>, from: usize) -> (copy: Vec<String>)
    requires
        from <= strings.len(),
    ensures
        texts(copy@) == texts(strings@).skip(from as int),
        copy.len() == strings.len() - from,
        forall|j: int| 0 <= j < copy.len() ==> copy[j]@ == strings[from + j]@,
{
    let mut copy: Vec<String> = Vec::new();
    let mut i: usize = from;
    while i < strings.len()
        invariant
            from <= i <= strings.len(),
            copy.len() == i - from,
            forall|j: int| 0 <= j < copy.len() ==> copy[j]@ == strings[from + j]@,
        decreases strings.len() - i,
    {
        copy.push(strings[i].clone());
        i = i + 1;
    }
    copy
}

/// To strip a root from a path below it and join the rest to the root again
/// gives the path back.
pub proof fn lemma_join_restores(target: PathModel, root: PathModel)
    requires
        begins_with(target, root),
    ensures
        join_paths(root, strip_root(target, root)) == target,
{
    assert(root.components + target.components.skip(root.components.len() as int)
        =~= target.components);
}

/// A relative path joined to a root lies below the root, and to strip the
/// root from it gives the relative path back.
pub proof fn lemma_strip_undoes_join(root: PathModel, relative: PathModel)
    requires
        !relative.absolute,
    ensures
        begins_with(join_paths(root, relative), root),
        strip_root(join_paths(root, relative), root) == relative,
{
    let joined = join_paths(root, relative);
    assert(joined.components.take(root.components.len() as int) =~= root.components);
    assert(joined.components.skip(root.components.len() as int) =~= relative.components);
}

impl Clone for TreePath {
    fn clone(&self) -> (copy: Self)
        ensures
            copy@ == self@,
    {
        let components = copy_strings_from(&self.components, 0);
        assert(texts(self.components@).skip(0) =~= texts(self.components@));
        TreePath { absolute: self.absolute, components }
    }
}

/// Strips `old_path` from the front of `path`.
///
/// Succeeds exactly when `path` begins with `old_path`; the result is then
/// relative and holds the components of `path` that follow those of `old_path`.
pub fn remove_path_prefix(path: &TreePath, old_path: &TreePath) -> (stripped: Result<
    TreePath,
    PathError,
>)
    ensures
        begins_with(path@, old_path@) ==> stripped is Ok && stripped->Ok_0@ == strip_root(
            path@,
            old_path@,
        ),
        !begins_with(path@, old_path@) ==> stripped == Err::<TreePath, PathError>(
            PathError::NotUnderRoot,
        ),
{
    if path.absolute != old_path.absolute || old_path.components.len() > path.components.len() {
        return Err(PathError::NotUnderRoot);
    }
    let n = old_path.components.len();
    let mut i: usize = 0;
    while i < n
        invariant
            n == old_path.components.len(),
            n <= path.components.len(),
            i <= n,
            forall|j: int| 0 <= j < i ==> path.components[j]@ == old_path.components[j]@,
        decreases n - i,
    {
        if path.components[i] != old_path.components[i] {
            assert(old_path@.components[i as int] == old_path.components[i as int]@);
            return Err(PathError::NotUnderRoot);
        }
        i = i + 1;
    }
    assert(path@.components.take(n as int) =~= old_path@.components);
    let components = copy_strings_from(&path.components, n);
    Ok(TreePath { absolute: false, components })
}

/// Places the relative path `trimmed_base_path` under `dest_root_path`.
pub fn create_dest_path(trimmed_base_path: &TreePath, dest_root_path: &TreePath) -> (dest: TreePath)
    ensures
        dest@ == join_paths(dest_root_path@, trimmed_base_path@),
{
    if trimmed_base_path.absolute {
        return trimmed_base_path.clone();
    }
    let mut components = copy_strings_from(&dest_root_path.components, 0);
    let n = dest_root_path.components.len();
    let mut i: usize = 0;
    while i < trimmed_base_path.components.len()
        invariant
            n == dest_root_path.components.len(),
            i <= trimmed_base_path.components.len(),
            components.len() == n + i,
            forall|j: int| 0 <= j < n ==> components[j]@ == dest_root_path.components[j]@,
            forall|j: int| 0 <= j < i ==> components[n + j]@ == trimmed_base_path.components[j]@,
        decreases trimmed_base_path.components.len() - i,
    {
        components.push(trimmed_base_path.components[i].clone());
        i = i + 1;
    }
    assert(texts(components@) =~= texts(dest_root_path.components@) + texts(
        trimmed_base_path.components@,
    ));
    TreePath { absolute: dest_root_path.absolute, components }
}

/// The strings of `parts` written one after another with `separator` between them.
pub open spec fn joined(parts: Seq<Seq<char>>, separator: Seq<char>) -> Seq<char>
    decreases parts.len(),
{
    if parts.len() == 0 {
        Seq::empty()
    } else if parts.len() == 1 {
        parts[0]
    } else {
        joined(parts.drop_last(), separator) + separator + parts.last()
    }
}

/// A path as text: a leading `/` if it is absolute, then its components
/// with `/` between them.
pub open spec fn path_text(path: PathModel) -> Seq<char> {
    (if path.absolute {
        seq!['/']
    } else {
        Seq::empty()
    }) + joined(path.components, seq!['/'])
}

/// The last component of a path, and the empty text where there is none or
/// where it is `..`.
pub open spec fn base_name(path: PathModel) -> Seq<char> {
    if path.components.len() == 0 || path.components.last() == seq!['.', '.'] {
        Seq::empty()
    } else {
        path.components.last()
    }
}

/// The position of the last `.` of `name`, or -1 where it has none.
pub open spec fn last_dot(name: Seq<char>) -> int
    decreases name.len(),
{
    if name.len() == 0 {
        -1
    } else if name.last() == '.' {
        name.len() - 1
    } else {
        last_dot(name.drop_last())
    }
}

/// What follows the last `.` of a file name. A name without a `.`, or whose
/// only `.` is its first character, has the empty extension.
pub open spec fn extension_of(name: Seq<char>) -> Seq<char> {
    if last_dot(name) > 0 {
        name.skip(last_dot(name) + 1)
    } else {
        Seq::empty()
    }
}

impl TreePath {
    /// The name of what the path leads to: see [`base_name`].
    pub fn file_name(&self) -> (name: String)
        ensures
            name@ == base_name(self@),
    {
        let n = self.components.len();
        if n == 0 {
            return String::new();
        }
        let last = &self.components[n - 1];
        proof {
            reveal_strlit("..");
            assert(".."@ =~= seq!['.', '.']);
        }
        if same_text(last.as_str(), "..") {
            return String::new();
        }
        last.clone()
    }

    /// The path as text: see [`path_text`].
    pub fn display(&self) -> (text: String)
        ensures
            text@ == path_text(self@),
    {
        proof {
            reveal_strlit("/");
        }
        let mut text = String::new();
        if self.absolute {
            text.append("/");
        }
        let ghost lead = text@;
        let mut i: usize = 0;
        while i < self.components.len()
            invariant
                i <= self.components.len(),
                "/"@ == seq!['/'],
                text@ == lead + joined(self@.components.take(i as int), seq!['/']),
            decreases self.components.len() - i,
        {
            let ghost before = self@.components.take(i as int);
            let ghost after = self@.components.take(i + 1);
            assert(after.drop_last() =~= before);
            if i > 0 {
                text.append("/");
            }
            text.append(self.components[i].as_str());
            i = i + 1;
        }
        assert(self@.components.take(i as int) =~= self@.components);
        text
    }
}

/// The extension of a file name: see [`extension_of`].
pub fn extension(name: &str) -> (ext: String)
    ensures
        ext@ == extension_of(name@),
{
    let chars = chars_of(name);
    let mut i: usize = chars.len();
    assert(name@.take(i as int) =~= name@);
    while i > 0 && chars[i - 1] != '.'
        invariant
            chars@ == name@,
            i <= chars.len(),
            last_dot(name@) == last_dot(name@.take(i as int)),
        decreases i,
    {
        assert(name@.take(i as int).drop_last() =~= name@.take(i - 1));
        i = i - 1;
    }
    if i > 1 {
        name.substring_char(i, chars.len()).to_owned()
    } else {
        String::new()
    }
}

} // verus!
