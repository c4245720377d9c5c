use mezzotint::filters::dirs::PathsDataFilter;
use mezzotint::filters::resources::ResourcesDataFilter;
use mezzotint::filters::texts::TextDataFilter;
use mezzotint::procdata::Autodeps;
use mezzotint::profile::Profile;

fn strings(v: &[&str]) -> Vec<String> {
    v.iter().map(|s| s.to_string()).collect()
}

#[test]
fn doc_filter_drops_docs() {
    let mut p = Profile::default();
    p.set_doc(false);
    let f = TextDataFilter::new(&p);
    assert!(f.filter_docs("/usr/share/doc/foo/README"));
    assert!(f.filter_docs("/opt/x/Readme.txt"));
    assert!(f.filter_docs("/opt/x/manual.pdf"));
    assert!(f.filter_docs("/opt/x/License"));
    assert!(!f.filter_docs("/usr/bin/foo"));
    let mut data = strings(&["/usr/share/doc/foo/README", "/usr/bin/foo"]);
    f.filter(&mut data);
    assert_eq!(data, strings(&["/usr/bin/foo"]));
}

#[test]
fn doc_filter_off_keeps_docs() {
    let p = Profile::default();
    let f = TextDataFilter::new(&p);
    assert!(!f.filter_docs("/usr/share/doc/foo/README"));
}

#[test]
fn doc_filter_folded_form() {
    let mut p = Profile::default();
    p.set_doc(false);
    let f = TextDataFilter::new(&p);
    assert!(f.filter_docs_folded("/X/ReadMe", "/x/readme"));
    assert!(!f.filter_docs_folded("/X/ReadMe", "/x/y"));
}

#[test]
fn manpage_and_locale_filters() {
    let mut p = Profile::default();
    p.set_manpages(false);
    p.set_l10n(false);
    p.set_i18n(false);
    let f = TextDataFilter::new(&p);
    assert!(f.filter_manpage("/usr/share/man/man1/ls.1.gz"));
    assert!(!f.filter_manpage("/usr/share/man/de/ls"));
    assert!(f.filter_l10n("/usr/share/locale/de/LC_MESSAGES/x.mo"));
    assert!(f.filter_i18n("/usr/share/i18n/charmaps/UTF-8.gz"));
    assert!(!f.filter_l10n("/usr/bin/ls"));
}

#[test]
fn resource_filters() {
    let mut p = Profile::default();
    p.set_arch(false);
    p.set_img(false);
    let f = ResourcesDataFilter::new(&p, Autodeps::Free);
    assert!(f.filter_archives("/x/a.tar"));
    assert!(f.filter_images("/x/a.png"));
    assert!(!f.filter_images("/x/a.so"));
    let mut data = strings(&["/x/a.png", "/x/b.xz", "/usr/lib/libz.so.1"]);
    f.filter(&mut data);
    assert_eq!(data, strings(&["/usr/lib/libz.so.1"]));
}

#[test]
fn junk_heuristic() {
    assert!(ResourcesDataFilter::is_potential_junk("README"));
    assert!(ResourcesDataFilter::is_potential_junk("CHANGES"));
    assert!(ResourcesDataFilter::is_potential_junk("stdio.h"));
    assert!(!ResourcesDataFilter::is_potential_junk("libc.so.6"));
    assert!(ResourcesDataFilter::is_junk_name("abc", "abc"));
    assert!(!ResourcesDataFilter::is_junk_name("abc", "ABC"));
}

#[test]
fn junk_only_in_clean_mode() {
    let p = Profile::default();
    let mut data = strings(&["/usr/share/x/NEWS", "/usr/bin/ls"]);
    ResourcesDataFilter::new(&p, Autodeps::Free).filter(&mut data);
    assert_eq!(data.len(), 2);
    ResourcesDataFilter::new(&p, Autodeps::Clean).filter(&mut data);
    assert_eq!(data, strings(&["/usr/bin/ls"]));
}

#[test]
fn directory_filter() {
    let mut p = Profile::default();
    let mut data = strings(&["/usr/share/x", "/usr/bin/ls"]);
    PathsDataFilter::new(strings(&["/usr/share/x"]), &p).filter(&mut data);
    assert_eq!(data.len(), 2);
    p.set_dir(false);
    PathsDataFilter::new(strings(&["/usr/share/x"]), &p).filter(&mut data);
    assert_eq!(data, strings(&["/usr/bin/ls"]));
}
