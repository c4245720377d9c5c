//! Removal of archives, pictures and files that look like junk.
use super::defs::{
    any_equal, any_suffix, arc_f_ext, arc_f_ext_list, doc_f_ext, doc_f_ext_list, doc_fp_ext,
    doc_fp_ext_list, doc_stub_files, doc_stub_files_list, ends_with_any, equals_any, img_f_ext,
    img_f_ext_list, src_fh_ext, src_fh_ext_list,
};
use super::intf::{retain_kept, DataFilter};
use crate::pathstr::{base_name, base_name_of, distinct_paths, paths_of};
use crate::procdata::Autodeps;
use crate::profile::Profile;
use crate::textops::{to_upper, upper_of};
use vstd::prelude::*;

verus! {

/// A base name that looks like junk, judged from the name and its upper-cased
/// form: a document, archive, header or portable-document extension, a stub
/// name, or a name that upper-casing leaves as it is.
pub open spec fn junk_name(f: Seq<char>, upper: Seq<char>) -> bool {
    ||| any_suffix(doc_f_ext(), f)
    ||| any_suffix(arc_f_ext(), f)
    ||| any_suffix(src_fh_ext(), f)
    ||| any_suffix(doc_fp_ext(), f)
    ||| any_equal(doc_stub_files(), f)
    ||| f == upper
}

pub struct ResourcesDataFilter {
    pub autodeps: Autodeps,
    pub remove_archives: bool,
    pub remove_images: bool,
}

impl ResourcesDataFilter {
    pub fn new(profile: &Profile, autodeps: Autodeps) -> (r: Self)
        ensures
            r.autodeps == autodeps,
            r.remove_archives == profile.f_arc,
            r.remove_images == profile.f_img,
    {
        ResourcesDataFilter {
            autodeps,
            remove_archives: profile.filter_arc(),
            remove_images: profile.filter_img(),
        }
    }

    /// Is an archive
    pub fn filter_archives(&self, p: &str) -> (r: bool)
        ensures
            r == (self.remove_archives && any_suffix(arc_f_ext(), p@)),
    {
        self.remove_archives && ends_with_any(p, &arc_f_ext_list())
    }

    /// Is an image (picture)
    pub fn filter_images(&self, p: &str) -> (r: bool)
        ensures
            r == (self.remove_images && any_suffix(img_f_ext(), p@)),
    {
        self.remove_images && ends_with_any(p, &img_f_ext_list())
    }

    /// Detects if a base name looks like junk, given its upper-cased form
    pub fn is_junk_name(fname: &str, upper: &str) -> (r: bool)
        ensures
            r == junk_name(fname@, upper@),
    {
        if ends_with_any(fname, &doc_f_ext_list()) || ends_with_any(fname, &arc_f_ext_list())
            || ends_with_any(fname, &src_fh_ext_list()) || ends_with_any(fname, &doc_fp_ext_list())
            || equals_any(fname, &doc_stub_files_list()) {
            return true;
        }
        let a = fname.to_owned();
        let b = upper.to_owned();
        a == b
    }

    /// Detects if a file is still a potential junk (but unsure)
    pub fn is_potential_junk(fname: &str) -> (r: bool)
        ensures
            r == junk_name(fname@, upper_of(fname@)),
    {
        let upper = to_upper(fname);
        Self::is_junk_name(fname, upper.as_str())
    }

    /// Removes archives, pictures and, where the mode asks, junk
    pub fn filter(&self, data: &mut Vec<String>)
        ensures
            paths_of(final(data)@) == paths_of(old(data)@).filter(|p: Seq<char>| !self.removes(p)),
            distinct_paths(old(data)@) ==> distinct_paths(final(data)@),
    {
        retain_kept(self, data);
    }
}

impl DataFilter for ResourcesDataFilter {
    open spec fn removes(&self, p: Seq<char>) -> bool {
        ||| (self.remove_archives && any_suffix(arc_f_ext(), p))
        ||| (self.remove_images && any_suffix(img_f_ext(), p))
        ||| (self.autodeps.drops_junk() && junk_name(base_name(p), upper_of(base_name(p))))
    }

    fn drops(&self, p: &String) -> (r: bool) {
        if self.filter_archives(p.as_str()) || self.filter_images(p.as_str()) {
            return true;
        }
        if self.autodeps.removes_junk() {
            let f = base_name_of(p.as_str());
            Self::is_potential_junk(f.as_str())
        } else {
            false
        }
    }
}

} // verus!
