use std::path::PathBuf;
use vstd::prelude::*;

verus! {

/// The standard library's owned file-system path, carried through unchanged.
#[verifier::external_type_specification]
#[verifier::external_body]
pub struct ExPathBuf(std::path::PathBuf);

/// Runs the fetch scripts found in `scripts_path` and reads what they write.
pub struct VideoFetcher {
    pub scripts_path: PathBuf,
}

impl VideoFetcher {
    /// A fetcher whose scripts live in `scripts_path`.
    pub fn new(scripts_path: PathBuf) -> (res: Self)
        ensures
            res.scripts_path == scripts_path,
    {
        Self { scripts_path }
    }
}

} // verus!
