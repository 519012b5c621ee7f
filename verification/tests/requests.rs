use vault_outline::requests::{judge_requested_path, PathFacts, PathRequestError};

fn facts(exists: bool, is_dir: bool, is_file: bool) -> PathFacts {
    PathFacts { exists, is_dir, is_file }
}

#[test]
fn directory_is_accepted_where_a_directory_is_asked_for() {
    assert_eq!(judge_requested_path(facts(true, true, false), false, false), Ok(()));
    assert_eq!(judge_requested_path(facts(true, true, false), false, true), Ok(()));
}

#[test]
fn new_file_path_is_accepted_where_a_file_is_asked_for() {
    assert_eq!(judge_requested_path(facts(false, false, false), true, false), Ok(()));
    assert_eq!(judge_requested_path(facts(false, false, false), true, true), Ok(()));
}

#[test]
fn existing_file_is_refused_where_it_must_be_new() {
    assert_eq!(
        judge_requested_path(facts(true, false, true), true, true),
        Err(PathRequestError::AlreadyExists)
    );
}

#[test]
fn other_paths_are_not_valid() {
    assert_eq!(
        judge_requested_path(facts(true, false, true), true, false),
        Err(PathRequestError::NotValid)
    );
    assert_eq!(
        judge_requested_path(facts(true, true, false), true, false),
        Err(PathRequestError::NotValid)
    );
    assert_eq!(
        judge_requested_path(facts(false, false, false), false, false),
        Err(PathRequestError::NotValid)
    );
    assert_eq!(
        judge_requested_path(facts(true, false, true), false, false),
        Err(PathRequestError::NotValid)
    );
}

#[test]
fn refusals_are_worded() {
    assert_eq!(PathRequestError::AlreadyExists.message(), "provided path exists already");
    assert_eq!(PathRequestError::NotValid.message(), "no valid path given");
}
