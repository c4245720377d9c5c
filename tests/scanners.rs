use mezzotint::procdata::{Autodeps, TintError};
use mezzotint::profile::{FilterFlags, PConfig, PTargets, Profile};
use mezzotint::rootfs::{FsEntry, RootFS};
use mezzotint::scanner::binlib::ElfScanner;
use mezzotint::scanner::debftrace::DebPkgFileTrace;
use mezzotint::scanner::debpkg::{ContentCache, DebPackageScanner};
use mezzotint::scanner::dlst::ContentFormatter;
use mezzotint::scanner::general::{ldd_path_from, strip_closing_of, parse_ldd_line, parse_libfind_output, parse_readelf_line, ScannerCommons, ScannerResult};
use mezzotint::scanner::rpmftrace::RpmPkgFileTrace;
use mezzotint::scanner::tracedeb::{dependency_of, parse_dependencies, DebPackageTrace};
use mezzotint::scanner::traceitf::{backend_for, backend_for_folded, Backend, PkgDepTrace, PkgFileTrace};
use mezzotint::shcall::ShellScript;

fn strings(v: &[&str]) -> Vec<String> {
    v.iter().map(|s| s.to_string()).collect()
}

fn sorted(mut v: Vec<String>) -> Vec<String> {
    v.sort();
    v
}

#[test]
fn ldd_lines() {
    assert_eq!(
        parse_ldd_line("\tlibc.so.6 => /lib/x86_64-linux-gnu/libc.so.6 (0x00007f0000000000)"),
        Some("/lib/x86_64-linux-gnu/libc.so.6".to_string())
    );
    assert_eq!(parse_ldd_line("\t/lib64/ld-linux-x86-64.so.2 (0x00007f)"), Some("/lib64/ld-linux-x86-64.so.2".to_string()));
    assert_eq!(parse_ldd_line("\tlinux-vdso.so.1 (0x00007ffd)"), None);
    assert_eq!(parse_ldd_line("\tnot a dynamic executable"), None);
}

#[test]
fn readelf_lines() {
    assert_eq!(
        parse_readelf_line(" 0x0000000000000001 (NEEDED)             Shared library: [libc.so.6]"),
        Some("libc.so.6".to_string())
    );
    assert_eq!(parse_readelf_line(" 0x000000000000000e (SONAME)  Library soname: [libz.so.1]"), None);
    assert_eq!(parse_readelf_line(" (NEEDED) x: []"), None);
}

#[test]
fn reader_output() {
    let out = "\tlinux-vdso.so.1 (0x1)\n\tlibc.so.6 => /lib/libc.so.6 (0x2)\n\t/lib64/ld-linux-x86-64.so.2 (0x3)\n";
    assert_eq!(parse_libfind_output(out, true), strings(&["/lib/libc.so.6", "/lib64/ld-linux-x86-64.so.2"]));
}

#[test]
fn reader_selection() {
    let mut c = ScannerCommons::new();
    assert_eq!(c.select_reader(&vec![false, false]), Err(TintError::MissingTool));
    assert_eq!(c.select_reader(&vec![false, true]), Ok(()));
    assert_eq!(c.elfrd_p, "/usr/bin/readelf");
    assert_eq!(c.reader_args(&"/bin/x".to_string()), Ok(strings(&["-d", "/bin/x"])));
    assert_eq!(c.call_libfind(" 0x1 (NEEDED) Shared library: [libm.so.6]\n"), Ok(strings(&["libm.so.6"])));
    assert_eq!(c.select_reader(&vec![true, true]), Ok(()));
    assert_eq!(c.elfrd_p, "/usr/bin/readelf");
    let mut d = ScannerCommons::new();
    d.select_reader(&vec![true, true]).unwrap();
    assert_eq!(d.elfrd_p, "/usr/bin/ldd");
    assert_eq!(d.reader_args(&"/bin/x".to_string()), Ok(strings(&["/bin/x"])));
}

#[test]
fn elf_closure() {
    let mut e = ElfScanner::new();
    e.start("/usr/bin/true".to_string());
    assert_eq!(e.next_target(), Some("/usr/bin/true".to_string()));
    e.collect_dl(&strings(&["/lib/libc.so.6", "/lib64/ld.so"]));
    let a = e.next_target().unwrap();
    e.collect_dl(&strings(&["/lib/libc.so.6", "/lib64/ld.so"]));
    let b = e.next_target().unwrap();
    assert_eq!(sorted(vec![a, b]), strings(&["/lib/libc.so.6", "/lib64/ld.so"]));
    assert_eq!(e.next_target(), None);
    assert_eq!(sorted(e.get_dynlibs()), strings(&["/lib/libc.so.6", "/lib64/ld.so"]));
}

#[test]
fn dependency_lines() {
    let out = "coreutils\n  Depends: libacl1 (>= 2.2.23)\n  PreDepends: libc6 (>= 2.34)\n  depends: libattr1 (>= 1)\n  Depends: bare\n";
    assert_eq!(parse_dependencies(out), strings(&["libacl1", "libattr1"]));
    assert_eq!(dependency_of("Depends: a (b)", "depends: a (b)"), Some("a".to_string()));
    assert_eq!(dependency_of("Depends: a (b)", "x"), None);
}

#[test]
fn dependency_trace_with_exclusions() {
    let mut t = DebPackageTrace::new();
    t.exclude(strings(&["libc6"]));
    t.start("app".to_string());
    assert_eq!(t.next(), Some("app".to_string()));
    t.get_dependencies("app\n  Depends: libfoo (>= 1)\n  Depends: libc6 (>= 2)\n");
    assert_eq!(t.next(), Some("libfoo".to_string()));
    t.get_dependencies("libfoo\n  Depends: libc6 (>= 2)\n  Depends: app (= 1)\n");
    assert_eq!(t.next(), Some("app".to_string()));
    t.get_dependencies("app\n  Depends: libfoo (>= 1)\n");
    assert_eq!(t.next(), None);
    assert_eq!(sorted(t.trace()), strings(&["app", "libfoo"]));
}

#[test]
fn package_owner_and_contents() {
    let s = DebPackageScanner::new(Autodeps::Undef);
    assert_eq!(s.get_package_for("coreutils: /bin/ls\n"), Some("coreutils".to_string()));
    assert_eq!(s.get_package_for(""), None);
    assert_eq!(s.get_package_for("no colon here"), None);
    assert_eq!(s.expand_target(&"/usr/bin/ls".to_string()), strings(&["/usr/bin/ls", "/bin/ls"]));
    assert_eq!(s.expand_target(&"/bin/ls".to_string()), strings(&["/bin/ls", "/usr/bin/ls"]));
    assert_eq!(s.expand_target(&"/etc/x".to_string()), strings(&["/etc/x"]));
    let outs = strings(&["", "coreutils: /bin/ls\n"]);
    assert_eq!(s.owner_among(true, &outs), Ok(Some("coreutils".to_string())));
    assert_eq!(s.owner_among(true, &strings(&["", ""])), Ok(None));
    assert_eq!(s.owner_among(false, &outs), Err(TintError::MissingTool));
    let mut fs = RootFS::new();
    fs.record(FsEntry { path: "/usr/share/doc/coreutils".to_string(), is_dir: true, is_file: false, link: None, real: None });
    let out = "/.\n/bin\n/bin/ls\n/usr/share/doc/coreutils\n/usr/share/doc/coreutils/copyright\n";
    assert_eq!(
        s.get_package_contents(out, &fs),
        strings(&["/bin", "/bin/ls", "/usr/share/doc/coreutils/copyright"])
    );
}

#[test]
fn packages_of_a_scan() {
    let mut s = DebPackageScanner::new(Autodeps::Free);
    s.exclude(strings(&["libc6"]));
    let deps = strings(&["libfoo", "libc6"]);
    assert_eq!(sorted(s.scan_packages(&Some("app".to_string()), &deps)), strings(&["app", "libfoo"]));
    assert!(s.scan_packages(&None, &deps).is_empty());
    let u = DebPackageScanner::new(Autodeps::Undef);
    assert_eq!(u.scan_packages(&Some("app".to_string()), &deps), strings(&["app"]));
}

#[test]
fn file_ownership_index() {
    let mut fs = RootFS::new();
    fs.record(FsEntry { path: "/usr/bin/ls".to_string(), is_dir: false, is_file: true, link: None, real: Some("/usr/bin/ls".to_string()) });
    let mut t = DebPkgFileTrace::new();
    t.load_pkg("coreutils:amd64.list", "/.\n/usr/bin/ls\n/usr/bin/gone\n", &fs);
    t.load_pkg("notes.txt", "/usr/bin/ls\n", &fs);
    assert_eq!(t.file_to_pkg.len(), 1);
    assert_eq!(t.trace(&"/usr/bin/ls".to_string(), &fs), Some("coreutils".to_string()));
    assert_eq!(t.trace(&"/usr/bin/gone".to_string(), &fs), None);
    assert_eq!(RpmPkgFileTrace::new().trace(&"/usr/bin/ls".to_string(), &fs), None);
}

#[test]
fn scanner_result_size() {
    let mut r = ScannerResult::new(strings(&["/a", "/b", "/c"]));
    assert_eq!(r.get_size(&vec![Some(4096), None, Some(8192)]), 12288);
    assert_eq!(r.get_size(&vec![Some(1), Some(1), Some(1)]), 12288);
    assert_eq!(r.get_paths().len(), 3);
    let mut e = ScannerResult::new(vec![]);
    assert_eq!(e.get_size(&vec![]), 0);
}

#[test]
fn report_data() {
    let mut f = ContentFormatter::new(strings(&["/usr/bin/ls", "/usr/bin/cat", "/etc/x"]));
    f.set_removed(strings(&["/a", "/b"]));
    assert_eq!(f.format_removed(&vec![Some(10), None]), (2, 10));
    let owners = vec![Some("coreutils".to_string()), Some("coreutils".to_string()), None];
    let (p, s) = f.collect_package_data(&owners);
    assert_eq!(p, strings(&["coreutils"]));
    assert!(s.is_empty());
    f.set_bundled_packages(&strings(&["other"]));
    let (_, s) = f.collect_package_data(&owners);
    assert_eq!(s, strings(&["coreutils"]));
    assert_eq!(f.dn("/usr/bin/ls", false), ("/usr/bin".to_string(), "ls".to_string()));
    assert_eq!(f.dn("/usr/bin", true), ("/usr".to_string(), "".to_string()));
}

#[test]
fn shell_scripts() {
    let s = ShellScript::new("  #!/usr/bin/python3\nprint(1)\n".to_string(), None);
    assert_eq!(s.data, "#!/usr/bin/python3\nprint(1)");
    assert_eq!(s.shebang(), "/usr/bin/python3");
    assert_eq!(s.body(), "print(1)");
    assert_eq!(
        s.detach_shebang(true, &vec![false; 5]),
        ("/usr/bin/python3".to_string(), "print(1)".to_string())
    );
    assert_eq!(
        s.detach_shebang(false, &vec![false, false, true, true, false]),
        ("/usr/bin/dash".to_string(), s.data.clone())
    );
    assert_eq!(s.detach_shebang(false, &vec![false; 5]), ("/usr/bin/sh".to_string(), s.data.clone()));
    let e = ShellScript::new("   ".to_string(), Some(strings(&["a"])));
    assert_eq!(e.data, "#!/usr/bin/sh\n");
    assert_eq!(e.args, strings(&["a"]));
    assert_eq!(e.shebang(), "/usr/bin/sh");
}

#[test]
fn profile_documents() {
    let doc = PTargets {
        targets: strings(&["/usr/bin/foo"]),
        packages: Some(strings(&["bash"])),
        config: Some(PConfig {
            filters: Some(strings(&["doc", "images", "bogus"])),
            prune: Some(strings(&["/etc/x"])),
            keep: Some(strings(&["/etc/y"])),
            pre_hook: Some("echo pre".to_string()),
            post_hook: None,
            bundled_packages: None,
            dropped_packages: Some(strings(&["bar"])),
        }),
    };
    let p = Profile::new(&doc).unwrap();
    assert!(p.filter_doc() && p.filter_img());
    assert!(!p.filter_l10n() && !p.filter_manpages() && !p.filter_arc());
    assert_eq!(p.get_prune_paths(), strings(&["/etc/x"]));
    assert_eq!(p.get_keep_paths(), strings(&["/etc/y"]));
    assert_eq!(p.get_packages(), &strings(&["bash"]));
    assert_eq!(p.get_dropped_packages(), &strings(&["bar"]));
    assert!(p.has_pre_hook() && !p.has_post_hook());
    let all = PTargets {
        targets: strings(&["/x"]),
        packages: None,
        config: Some(PConfig {
            filters: Some(strings(&["all"])),
            prune: None,
            keep: None,
            pre_hook: None,
            post_hook: None,
            bundled_packages: None,
            dropped_packages: None,
        }),
    };
    let p = Profile::new(&all).unwrap();
    assert!(p.filter_l10n() && p.filter_i18n() && p.filter_doc() && p.filter_manpages());
    assert!(p.filter_dirs() && p.filter_logs() && p.filter_img() && p.filter_arc());
    let empty = PTargets { targets: vec![], packages: None, config: None };
    assert!(matches!(Profile::new(&empty), Err(TintError::MalformedProfile)));
}

#[test]
fn profile_setters() {
    let mut p = Profile::default();
    assert!(!p.filter_i18n());
    p.set_i18n(false);
    assert!(p.filter_i18n());
    assert!(!p.filter_l10n());
    p.set_i18n(true);
    assert!(!p.filter_i18n());
    p.set_log(false);
    assert!(p.filter_logs());
    let flags = FilterFlags { l10n: true, i18n: false, doc: false, man: false, dir: false, log: false, img: true, arc: false };
    let mut q = Profile::default();
    q.apply_flags(flags, false, false);
    assert!(!q.filter_l10n() && !q.filter_img());
    assert!(q.filter_doc() && q.filter_i18n() && q.filter_arc() && q.filter_dirs());
    q.apply_flags(flags, true, true);
    assert!(q.filter_l10n() && q.filter_img() && q.filter_doc());
    let mut r = Profile::default();
    r.apply_flags(flags, true, false);
    assert!(r.filter_l10n() && !r.filter_doc());
    p.add_package("x".to_string());
    p.drop_package("y".to_string());
    assert_eq!(p.get_targets().len(), 0);
    p.add_target("/bin/a".to_string());
    assert_eq!(p.get_targets(), &strings(&["/bin/a"]));
}

#[test]
fn parts_after_trimming() {
    assert_eq!(ldd_path_from("lib/libc.so.6"), "/lib/libc.so.6");
    assert_eq!(strip_closing_of("libc.so.6]]"), "libc.so.6");
    assert_eq!(strip_closing_of("]"), "");
    assert_eq!(DebPackageScanner::package_name("".to_string()), None);
    assert_eq!(DebPackageScanner::package_name("bash".to_string()), Some("bash".to_string()));
    let dirs = strings(&["/usr"]);
    assert!(DebPackageScanner::is_listed_file(&"/usr/bin/ls".to_string(), &dirs));
    assert!(!DebPackageScanner::is_listed_file(&"/usr".to_string(), &dirs));
    assert!(!DebPackageScanner::is_listed_file(&"/.".to_string(), &dirs));
    assert!(!DebPackageScanner::is_listed_file(&"".to_string(), &dirs));
    assert_eq!(ShellScript::interpreter_of("#!/bin/zsh"), "/bin/zsh");
    assert_eq!(ShellScript::interpreter_of("echo"), "");
    assert_eq!(ShellScript::from_trimmed("".to_string(), vec![]).data, "#!/usr/bin/sh\n");
    assert_eq!(ShellScript::from_trimmed("ls".to_string(), vec![]).data, "ls");
}

#[test]
fn content_cache() {
    let mut c = ContentCache::new();
    assert_eq!(c.lookup(&"bash".to_string()), None);
    c.store("bash".to_string(), strings(&["/bin/bash"]));
    c.store("zsh".to_string(), strings(&["/bin/zsh"]));
    assert_eq!(c.lookup(&"bash".to_string()), Some(strings(&["/bin/bash"])));
    c.store("bash".to_string(), vec![]);
    assert_eq!(c.lookup(&"bash".to_string()), Some(vec![]));
}

#[test]
fn backend_selection() {
    assert_eq!(backend_for("Ubuntu"), Backend::Debian);
    assert_eq!(backend_for("debian"), Backend::Debian);
    assert_eq!(backend_for("fedora"), Backend::RedHat);
    assert_eq!(backend_for_folded("Ubuntu"), Backend::RedHat);
    assert_eq!(backend_for_folded("mint"), Backend::Debian);
}
