//! Well-known names, extensions and locations the filters look for.
use crate::pathstr::{contains_seq, contains_str, ends_with, is_prefix, is_suffix, starts_with};
use vstd::prelude::*;

verus! {

/// Base names of stub documentation files.
pub open spec fn doc_stub_files() -> Seq<&'static str> {
    seq!["AUTHORS", "COPYING", "LICENSE", "DEBUG", "DISTRIB", "DOC", "HISTORY", "README", "TERMS", "TODO"]
}

/// The stub names in lower case, for matching against a lower-cased path.
pub open spec fn doc_stub_files_lower() -> Seq<&'static str> {
    seq!["authors", "copying", "license", "debug", "distrib", "doc", "history", "readme", "terms", "todo"]
}

/// Extensions of text documents.
pub open spec fn doc_f_ext() -> Seq<&'static str> {
    seq![".txt", ".doc", ".rtf", ".md", ".rtx", ".tex", ".xml", ".htm", ".html", ".log"]
}

/// Extensions of portable documents.
pub open spec fn doc_fp_ext() -> Seq<&'static str> {
    seq![".eps", ".pdf", ".ps"]
}

/// Extensions of source headers.
pub open spec fn src_fh_ext() -> Seq<&'static str> {
    seq![".h", ".hpp"]
}

/// Extensions of archives.
pub open spec fn arc_f_ext() -> Seq<&'static str> {
    seq![".gz", ".bz2", ".xz", ".zip", ".tar"]
}

/// Extensions of graphic files.
pub open spec fn img_f_ext() -> Seq<&'static str> {
    seq![
        ".ani", ".bmp", ".dib", ".pcx", ".jpg", ".jpeg", ".jpx", ".jxr", ".png", ".gif", ".xpm",
        ".xbm", ".tif", ".tiff", ".iff", ".lbm", ".pbm", ".pgm", ".pict", ".svg", ".ico", ".ai",
    ]
}

/// Where documentation is installed.
pub const D_DOC: &'static str = "/usr/share/doc";

/// Where manual pages are installed.
pub const D_MANPAGES: &'static str = "/usr/share/man";

/// Where localisation data is installed.
pub const D_L10N: &'static str = "/usr/share/locale";

/// Where internationalisation data is installed.
pub const D_I18N: &'static str = "/usr/share/i18n";

/// Some entry of `l` is a suffix of `s`.
pub open spec fn any_suffix(l: Seq<&str>, s: Seq<char>) -> bool {
    exists|i: int| 0 <= i < l.len() && is_suffix(l[i]@, s)
}

/// Some entry of `l` occurs in `s`.
pub open spec fn any_infix(l: Seq<&str>, s: Seq<char>) -> bool {
    exists|i: int| 0 <= i < l.len() && contains_seq(s, l[i]@)
}

/// Some entry of `l` equals `s`.
pub open spec fn any_equal(l: Seq<&str>, s: Seq<char>) -> bool {
    exists|i: int| 0 <= i < l.len() && l[i]@ == s
}

pub fn doc_stub_files_list() -> (r: Vec<&'static str>)
    ensures
        r@ == doc_stub_files(),
{
    let r = vec!["AUTHORS", "COPYING", "LICENSE", "DEBUG", "DISTRIB", "DOC", "HISTORY", "README", "TERMS", "TODO"];
    assert(r@ =~= doc_stub_files());
    r
}

pub fn doc_stub_files_lower_list() -> (r: Vec<&'static str>)
    ensures
        r@ == doc_stub_files_lower(),
{
    let r = vec!["authors", "copying", "license", "debug", "distrib", "doc", "history", "readme", "terms", "todo"];
    assert(r@ =~= doc_stub_files_lower());
    r
}

pub fn doc_f_ext_list() -> (r: Vec<&'static str>)
    ensures
        r@ == doc_f_ext(),
{
    let r = vec![".txt", ".doc", ".rtf", ".md", ".rtx", ".tex", ".xml", ".htm", ".html", ".log"];
    assert(r@ =~= doc_f_ext());
    r
}

pub fn doc_fp_ext_list() -> (r: Vec<&'static str>)
    ensures
        r@ == doc_fp_ext(),
{
    let r = vec![".eps", ".pdf", ".ps"];
    assert(r@ =~= doc_fp_ext());
    r
}

pub fn src_fh_ext_list() -> (r: Vec<&'static str>)
    ensures
        r@ == src_fh_ext(),
{
    let r = vec![".h", ".hpp"];
    assert(r@ =~= src_fh_ext());
    r
}

pub fn arc_f_ext_list() -> (r: Vec<&'static str>)
    ensures
        r@ == arc_f_ext(),
{
    let r = vec![".gz", ".bz2", ".xz", ".zip", ".tar"];
    assert(r@ =~= arc_f_ext());
    r
}

pub fn img_f_ext_list() -> (r: Vec<&'static str>)
    ensures
        r@ == img_f_ext(),
{
    let r = vec![
        ".ani", ".bmp", ".dib", ".pcx", ".jpg", ".jpeg", ".jpx", ".jxr", ".png", ".gif", ".xpm",
        ".xbm", ".tif", ".tiff", ".iff", ".lbm", ".pbm", ".pgm", ".pict", ".svg", ".ico", ".ai",
    ];
    assert(r@ =~= img_f_ext());
    r
}

/// Some entry of `l` is a prefix of `s`.
pub open spec fn any_prefix(l: Seq<&str>, s: Seq<char>) -> bool {
    exists|i: int| 0 <= i < l.len() && is_prefix(l[i]@, s)
}

/// Some entry of `l` is a prefix of `s`.
pub fn starts_with_any(s: &str, l: &Vec<&str>) -> (r: bool)
    ensures
        r == any_prefix(l@, s@),
{
    let mut i: usize = 0;
    while i < l.len()
        invariant
            i <= l@.len(),
            forall|j: int| 0 <= j < i ==> !is_prefix(l@[j]@, s@),
        decreases l@.len() - i,
    {
        if starts_with(s, l[i]) {
            return true;
        }
        i = i + 1;
    }
    false
}

/// Some entry of `l` is a suffix of `s`.
pub fn ends_with_any(s: &str, l: &Vec<&str>) -> (r: bool)
    ensures
        r == any_suffix(l@, s@),
{
    let mut i: usize = 0;
    while i < l.len()
        invariant
            i <= l@.len(),
            forall|j: int| 0 <= j < i ==> !is_suffix(l@[j]@, s@),
        decreases l@.len() - i,
    {
        if ends_with(s, l[i]) {
            return true;
        }
        i = i + 1;
    }
    false
}

/// Some entry of `l` occurs in `s`.
pub fn contains_any(s: &str, l: &Vec<&str>) -> (r: bool)
    ensures
        r == any_infix(l@, s@),
{
    let mut i: usize = 0;
    while i < l.len()
        invariant
            i <= l@.len(),
            forall|j: int| 0 <= j < i ==> !contains_seq(s@, l@[j]@),
        decreases l@.len() - i,
    {
        if contains_str(s, l[i]) {
            return true;
        }
        i = i + 1;
    }
    false
}

/// Some entry of `l` equals `s`.
pub fn equals_any(s: &str, l: &Vec<&str>) -> (r: bool)
    ensures
        r == any_equal(l@, s@),
{
    let mut i: usize = 0;
    while i < l.len()
        invariant
            i <= l@.len(),
            forall|j: int| 0 <= j < i ==> l@[j]@ != s@,
        decreases l@.len() - i,
    {
        let a = s.to_owned();
        let b = l[i].to_owned();
        if a == b {
            return true;
        }
        i = i + 1;
    }
    false
}

} // verus!
