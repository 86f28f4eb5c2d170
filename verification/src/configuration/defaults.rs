use vstd::prelude::*;
use crate::error::Error;

verus! {

/// The place where the history is stored when no cache directory can be found.
pub const FALLBACK_CACHE_DIR: &'static str = "/tmp/clapboard_cache";

/// The default settings: where the history is stored.
#[derive(Debug, Clone)]
pub struct Defaults {
    pub cache_dir: String,
}

impl Defaults {
    /// The defaults for the outcome of looking up the cache directory: the directory
    /// found, or the fallback where the lookup failed.
    pub fn from_cache_dir_lookup(found: Result<String, Error>) -> (d: Defaults)
        ensures
            match found {
                Ok(p) => d.cache_dir == p,
                Err(_) => d.cache_dir@ == FALLBACK_CACHE_DIR@,
            },
    {
        match found {
            Ok(p) => Defaults { cache_dir: p },
            Err(_) => Defaults { cache_dir: FALLBACK_CACHE_DIR.to_owned() },
        }
    }
}

} // verus!
