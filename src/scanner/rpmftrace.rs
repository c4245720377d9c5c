//! Package ownership on RPM-based systems, where none is known yet.
use super::traceitf::PkgFileTrace;
use crate::rootfs::RootFS;
use vstd::prelude::*;

verus! {

/// Trace what package a give file belongs to, using RPM package manager.
pub struct RpmPkgFileTrace {
    pub file_to_pkg: Vec<(String, String)>,
}

impl RpmPkgFileTrace {
    pub fn new() -> (r: Self)
        ensures
            r.file_to_pkg@.len() == 0,
    {
        RpmPkgFileTrace { file_to_pkg: Vec::new() }
    }
}

impl PkgFileTrace for RpmPkgFileTrace {
    open spec fn may_own(&self, fs: RootFS, p: Seq<char>, pkg: Seq<char>) -> bool {
        false
    }

    open spec fn owns_nothing(&self, fs: RootFS, p: Seq<char>) -> bool {
        true
    }

    fn trace(&self, filename: &String, fs: &RootFS) -> Option<String> {
        None
    }
}

} // verus!
