//! The directory that holds every trace, and the name a new trace gets.
use vstd::prelude::*;
use crate::engine::{FileInfo, NotSaved};
use crate::paths::{first_component_normal, first_segment, join, join_seq};

verus! {

/// The directory under the home directory that holds the traces.
pub struct MotherDir;

/// The name of that directory.
pub open spec fn folder_name_seq() -> Seq<char> {
    ".TraceHell"@
}

impl MotherDir {
    /// The path of the directory that holds the traces, under `home`.
    pub fn new(home: &str) -> (r: String)
        ensures
            r@ == join_seq(home@, folder_name_seq()),
    {
        join(home, ".TraceHell")
    }
}

/// The name of a new trace of the workspace whose rewritten files are
/// `files`: the top folder of the first of them, whose relative path has to
/// start with a normal component.
pub fn create(files: &Vec<FileInfo<NotSaved>>) -> (r: String)
    requires
        files@.len() > 0,
        first_component_normal(files@[0]@.path),
    ensures
        r@ == first_segment(files@[0]@.path),
{
    files[0].folder_name()
}

} // verus!
