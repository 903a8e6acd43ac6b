use std::path::PathBuf;
use vstd::prelude::*;

verus! {

/// The directory under which each video has a directory of its own.
pub struct VideoStore {
    pub videos_path: PathBuf,
}

impl VideoStore {
    /// A store rooted at `videos_path`.
    pub fn new(videos_path: PathBuf) -> (res: Self)
        ensures
            res.videos_path == videos_path,
    {
        Self { videos_path }
    }
}

} // verus!
