//! Removal of directories from a candidate set.
use super::intf::{retain_kept, DataFilter};
use crate::pathstr::{distinct_paths, holds_path, paths_of};
use crate::profile::Profile;
use crate::rootfs::RootFS;
use vstd::prelude::*;

verus! {

/// Filter-out paths that are directories. `data` holds the paths known to
/// be directories; `for_root` takes them from the walk of the root.
pub struct PathsDataFilter {
    pub data: Vec<String>,
    pub do_filter: bool,
}

impl PathsDataFilter {
    /// The filter that removes the paths of `data`, which the caller names
    /// as directories, where the profile removes directories
    pub fn new(data: Vec<String>, profile: &Profile) -> (r: Self)
        ensures
            r.data == data,
            r.do_filter == profile.f_dir,
    {
        PathsDataFilter { data, do_filter: profile.filter_dirs() }
    }

    /// The filter for the directories the walk of the root found
    pub fn for_root(fs: &RootFS, profile: &Profile) -> (r: Self)
        ensures
            forall|p: Seq<char>| r.removes(p) <==> profile.f_dir && fs.is_dir_path(p),
    {
        PathsDataFilter::new(fs.directories(), profile)
    }

    /// Drops every directory, when the profile asks for it
    pub fn filter(&self, data: &mut Vec<String>)
        ensures
            paths_of(final(data)@) == paths_of(old(data)@).filter(|p: Seq<char>| !self.removes(p)),
            distinct_paths(old(data)@) ==> distinct_paths(final(data)@),
    {
        retain_kept(self, data);
    }
}

impl DataFilter for PathsDataFilter {
    open spec fn removes(&self, p: Seq<char>) -> bool {
        self.do_filter && paths_of(self.data@).contains(p)
    }

    fn drops(&self, p: &String) -> (r: bool) {
        self.do_filter && holds_path(&self.data, p)
    }
}

} // verus!
