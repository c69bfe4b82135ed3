use std::path::Path;
use vstd::prelude::*;

verus! {

/// A file or folder by its absolute path and by its path from the working
/// directory.
#[derive(Debug)]
pub struct PathPair {
    pub absolute_path: String,
    pub relative_path: String,
}

/// The path from the directory `base` to `path`, as `pathdiff::diff_paths`
/// makes it, or `None` where it makes none.
pub uninterp spec fn relative_path_of(path: Seq<char>, base: Seq<char>) -> Option<Seq<char>>;

/// Calls `pathdiff::diff_paths` on the two paths. The crate compares the
/// components of the two paths and touches no file, so what it returns
/// depends on the two strings alone: the contract gives that result its name
/// and claims nothing else of it.
#[verifier::external_body]
fn diff_paths(path: &String, base: &String) -> (relative: Option<String>)
    ensures
        relative_path_of(path@, base@) == (match relative {
            Some(relative) => Some(relative@),
            None => None,
        }),
{
    match pathdiff::diff_paths(Path::new(path.as_str()), Path::new(base.as_str())) {
        Some(relative) => Some(relative.to_string_lossy().to_string()),
        None => None,
    }
}

/// The pair of `absolute_path` and its path from `current_working_directory`,
/// or `None` where there is no path from the one to the other.
pub fn absolute_and_relative_paths(current_working_directory: &String, absolute_path: String) -> (pair:
    Option<PathPair>)
    ensures
        match pair {
            Some(pair) => pair.absolute_path == absolute_path && relative_path_of(
                absolute_path@,
                current_working_directory@,
            ) == Some(pair.relative_path@),
            None => relative_path_of(absolute_path@, current_working_directory@).is_none(),
        },
{
    match diff_paths(&absolute_path, current_working_directory) {
        Some(relative_path) => Some(PathPair { absolute_path, relative_path }),
        None => None,
    }
}

} // verus!
