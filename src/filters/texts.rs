//! Removal of manual pages, documentation, localisation and
//! internationalisation data.
use super::defs::{
    any_equal, any_infix, any_suffix, contains_any, doc_f_ext, doc_f_ext_list, doc_fp_ext,
    doc_fp_ext_list, doc_stub_files, doc_stub_files_list, doc_stub_files_lower,
    doc_stub_files_lower_list, ends_with_any, equals_any, D_DOC, D_I18N, D_L10N, D_MANPAGES,
};
use super::intf::{retain_kept, DataFilter};
use crate::pathstr::{
    base_name, base_name_of, contains_seq, contains_str, distinct_paths, is_prefix,
    parent_dir, parent_dir_of, paths_of, starts_with,
};
use crate::profile::Profile;
use crate::textops::{lower_of, to_lower};
use vstd::prelude::*;

verus! {

/// A documentation path, judged from the path and its lower-cased form.
pub open spec fn doc_match(p: Seq<char>, lower: Seq<char>) -> bool {
    ||| any_equal(doc_stub_files(), base_name(p))
    ||| contains_seq(lower, "/doc/"@)
    ||| any_infix(doc_stub_files_lower(), lower)
    ||| is_prefix(D_DOC@, p)
    ||| any_suffix(doc_f_ext(), p)
    ||| any_suffix(doc_fp_ext(), p)
}

/// A manual page: below the manual directory, in a directory named `man...`.
pub open spec fn manpage_match(p: Seq<char>) -> bool {
    is_prefix(D_MANPAGES@, p) && is_prefix("man"@, base_name(parent_dir(p)))
}

pub struct TextDataFilter {
    pub remove_manpages: bool,
    pub remove_doc_data: bool,
    pub remove_l10n: bool,
    pub remove_i18n: bool,
}

impl TextDataFilter {
    pub fn new(profile: &Profile) -> (r: Self)
        ensures
            r.remove_manpages == profile.f_man,
            r.remove_doc_data == profile.f_doc,
            r.remove_l10n == profile.f_l10n,
            r.remove_i18n == profile.f_i18n,
    {
        TextDataFilter {
            remove_manpages: profile.filter_manpages(),
            remove_doc_data: profile.filter_doc(),
            remove_l10n: profile.filter_l10n(),
            remove_i18n: profile.filter_i18n(),
        }
    }

    /// If path is a manpage
    pub fn filter_manpage(&self, p: &str) -> (r: bool)
        ensures
            r == (self.remove_manpages && manpage_match(p@)),
    {
        if !self.remove_manpages || !starts_with(p, D_MANPAGES) {
            return false;
        }
        let d = parent_dir_of(p);
        let b = base_name_of(d.as_str());
        starts_with(b.as_str(), "man")
    }

    /// If path is a doc, given the path in lower case
    pub fn filter_docs_folded(&self, p: &str, lower: &str) -> (r: bool)
        ensures
            r == (self.remove_doc_data && doc_match(p@, lower@)),
    {
        if !self.remove_doc_data {
            return false;
        }
        let b = base_name_of(p);
        equals_any(b.as_str(), &doc_stub_files_list())
            || contains_str(lower, "/doc/")
            || contains_any(lower, &doc_stub_files_lower_list())
            || starts_with(p, D_DOC)
            || ends_with_any(p, &doc_f_ext_list())
            || ends_with_any(p, &doc_fp_ext_list())
    }

    /// If path is a doc
    pub fn filter_docs(&self, p: &str) -> (r: bool)
        ensures
            r == (self.remove_doc_data && doc_match(p@, lower_of(p@))),
    {
        let lower = to_lower(p);
        self.filter_docs_folded(p, lower.as_str())
    }

    /// Is localisation
    pub fn filter_l10n(&self, p: &str) -> (r: bool)
        ensures
            r == (self.remove_l10n && is_prefix(D_L10N@, p@)),
    {
        self.remove_l10n && starts_with(p, D_L10N)
    }

    /// Is internationalisation
    pub fn filter_i18n(&self, p: &str) -> (r: bool)
        ensures
            r == (self.remove_i18n && is_prefix(D_I18N@, p@)),
    {
        self.remove_i18n && starts_with(p, D_I18N)
    }

    /// Filter out text data: manpages, documentation, licensing, localisation etc.
    pub fn filter(&self, data: &mut Vec<String>)
        ensures
            paths_of(final(data)@) == paths_of(old(data)@).filter(|p: Seq<char>| !self.removes(p)),
            distinct_paths(old(data)@) ==> distinct_paths(final(data)@),
    {
        retain_kept(self, data);
    }
}

impl DataFilter for TextDataFilter {
    open spec fn removes(&self, p: Seq<char>) -> bool {
        ||| (self.remove_manpages && manpage_match(p))
        ||| (self.remove_doc_data && doc_match(p, lower_of(p)))
        ||| (self.remove_l10n && is_prefix(D_L10N@, p))
        ||| (self.remove_i18n && is_prefix(D_I18N@, p))
    }

    fn drops(&self, p: &String) -> (r: bool) {
        self.filter_manpage(p.as_str()) || self.filter_docs(p.as_str()) || self.filter_l10n(
            p.as_str(),
        ) || self.filter_i18n(p.as_str())
    }
}

} // verus!
