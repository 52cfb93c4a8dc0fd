//! The run's inputs, as the process boundary hands them over.

use vstd::prelude::*;

verus! {

/// Options of one run: a root directory, the removal flag, a compression
/// level, an output report path, exclusion and inclusion substrings, a traversal
/// depth, and a size cap.  Every field is optional; the argument-parsing
/// layer fills in whatever the operator supplied.
pub struct Context {
    /// top level directory to begin the search
    pub dir: Option<String>,
    /// whether to rewrite matched containers
    pub remove: Option<bool>,
    /// compression level for repacking
    pub compression: Option<i64>,
    /// output path for the report of matched files
    pub output: Option<String>,
    /// drop candidates whose path contains this substring
    pub exclude: Option<String>,
    /// traversal depth
    pub levels: Option<usize>,
    /// size cap for candidate files
    pub size: Option<u64>,
    /// keep only candidates whose path contains this substring
    pub inclusion: Option<String>,
}

impl Context {
    /// A context with no option supplied.
    pub fn new() -> (c: Context)
        ensures
            c.dir is None,
            c.remove is None,
            c.compression is None,
            c.output is None,
            c.exclude is None,
            c.levels is None,
            c.size is None,
            c.inclusion is None,
    {
        Context {
            dir: None,
            remove: None,
            compression: None,
            output: None,
            exclude: None,
            levels: None,
            size: None,
            inclusion: None,
        }
    }
}

} // verus!
