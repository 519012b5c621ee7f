//! Judges a path that was asked for, by what is found at it.

use vstd::prelude::*;
use vstd::string::*;

verus! {

/// Why a path that was asked for is turned down.
#[derive(Clone, Copy, Debug, PartialEq, Eq, Structural)]
pub enum PathRequestError {
    /// A file that must not exist yet is there.
    AlreadyExists,
    /// The path is not of the kind that was asked for.
    NotValid,
}

/// What is found at a path.
#[derive(Clone, Copy, Debug, PartialEq, Eq, Structural)]
pub struct PathFacts {
    /// Something exists at the path.
    pub exists: bool,
    /// A directory is at the path.
    pub is_dir: bool,
    /// A regular file is at the path.
    pub is_file: bool,
}

/// The verdict on a path. A directory is accepted where no file is asked
/// for. Where a file is asked for, a path with nothing at it is accepted; a
/// file that is there is turned down as existing if the file must be new,
/// and anything else as not valid.
pub open spec fn path_verdict(found: PathFacts, is_file: bool, is_unique: bool) -> Result<
    (),
    PathRequestError,
> {
    if found.is_dir && !is_file {
        Ok(())
    } else if found.is_file && is_file && is_unique {
        Err(PathRequestError::AlreadyExists)
    } else if is_file && !found.exists {
        Ok(())
    } else {
        Err(PathRequestError::NotValid)
    }
}

/// Judges a path by what was found at it: see [`path_verdict`].
pub fn judge_requested_path(found: PathFacts, is_file: bool, is_unique: bool) -> (verdict: Result<
    (),
    PathRequestError,
>)
    ensures
        verdict == path_verdict(found, is_file, is_unique),
{
    if found.is_dir && !is_file {
        return Ok(());
    }
    if found.is_file && is_file && is_unique {
        return Err(PathRequestError::AlreadyExists);
    }
    if is_file && !found.exists {
        Ok(())
    } else {
        Err(PathRequestError::NotValid)
    }
}

/// The words in which a refusal is reported.
pub open spec fn refusal_text(error: PathRequestError) -> Seq<char> {
    match error {
        PathRequestError::AlreadyExists => "provided path exists already"@,
        PathRequestError::NotValid => "no valid path given"@,
    }
}

impl PathRequestError {
    /// The refusal in words: see [`refusal_text`].
    pub fn message(&self) -> (text: String)
        ensures
            text@ == refusal_text(*self),
    {
        match self {
            PathRequestError::AlreadyExists => String::from_str("provided path exists already"),
            PathRequestError::NotValid => String::from_str("no valid path given"),
        }
    }
}

} // verus!
