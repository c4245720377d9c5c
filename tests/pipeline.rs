use mezzotint::procdata::{archive_entries, archive_name, collect_found, ext_path, Stamp, Autodeps, Step, TintError, TintProcessor};
use mezzotint::profile::Profile;
use mezzotint::rootfs::{FsEntry, RootFS};

fn strings(v: &[&str]) -> Vec<String> {
    v.iter().map(|s| s.to_string()).collect()
}

fn file(p: &str) -> FsEntry {
    FsEntry { path: p.to_string(), is_dir: false, is_file: true, link: None, real: Some(p.to_string()) }
}

fn dir(p: &str) -> FsEntry {
    FsEntry { path: p.to_string(), is_dir: true, is_file: false, link: None, real: None }
}

fn link(p: &str, t: &str) -> FsEntry {
    FsEntry { path: p.to_string(), is_dir: false, is_file: false, link: Some(t.to_string()), real: None }
}

fn root(entries: Vec<FsEntry>) -> RootFS {
    let mut fs = RootFS::new();
    for e in entries {
        fs.record(e);
    }
    fs
}

fn sorted(mut v: Vec<String>) -> Vec<String> {
    v.sort();
    v
}

#[test]
fn minimal_elf_dry_run() {
    let fs = root(vec![
        file("/usr/bin/true"),
        file("/usr/lib/x86_64-linux-gnu/libc.so.6"),
        file("/usr/lib64/ld-linux-x86-64.so.2"),
        file("/usr/bin/bash"),
        file("/etc/passwd"),
    ]);
    let mut tp = TintProcessor::new("/mnt".to_string());
    let mut p = Profile::default();
    p.add_target("/usr/bin/true".to_string());
    tp.set_profile(p);
    tp.set_autodeps("none");
    let found = strings(&["/usr/bin/true", "/usr/lib/x86_64-linux-gnu/libc.so.6"]);
    let kept = tp.keep_set(&found, &vec![], &fs);
    assert_eq!(sorted(kept.clone()), sorted(found.clone()));
    let d = fs.dissect(&kept);
    let k = sorted(d.kept.clone());
    assert!(k.contains(&"/usr/bin/true".to_string()));
    assert!(k.contains(&"/usr/lib/x86_64-linux-gnu/libc.so.6".to_string()));
    assert!(k.contains(&"/usr/lib64/ld-linux-x86-64.so.2".to_string()));
    assert_eq!(sorted(d.removed.clone()), strings(&["/etc/passwd", "/usr/bin/bash"]));
    for r in &d.removed {
        assert!(!d.kept.contains(r));
    }
    assert_eq!(tp.finish(), vec![Step::Report]);
}

#[test]
fn documentation_filter() {
    let fs = root(vec![file("/usr/share/doc/foo/README"), file("/usr/bin/foo")]);
    let mut tp = TintProcessor::new("/mnt".to_string());
    let mut p = Profile::default();
    p.add_target("/usr/bin/foo".to_string());
    p.set_doc(false);
    tp.set_profile(p);
    let found = strings(&["/usr/bin/foo", "/usr/share/doc/foo/README"]);
    let kept = tp.keep_set(&found, &vec![], &fs);
    assert_eq!(kept, strings(&["/usr/bin/foo"]));
    let d = fs.dissect(&kept);
    assert_eq!(d.removed, strings(&["/usr/share/doc/foo/README"]));
}

#[test]
fn keep_wins_over_filter() {
    let fs = root(vec![file("/usr/share/doc/foo/README"), file("/usr/bin/foo")]);
    let mut tp = TintProcessor::new("/mnt".to_string());
    let mut p = Profile::default();
    p.add_target("/usr/bin/foo".to_string());
    p.set_doc(false);
    p.keep_path("/usr/share/doc/foo/README".to_string());
    tp.set_profile(p);
    let found = strings(&["/usr/bin/foo", "/usr/share/doc/foo/README"]);
    let kept = tp.keep_set(&found, &vec![], &fs);
    assert_eq!(sorted(kept.clone()), strings(&["/usr/bin/foo", "/usr/share/doc/foo/README"]));
    let d = fs.dissect(&kept);
    assert!(d.removed.is_empty());
}

#[test]
fn prune_is_terminal() {
    let fs = root(vec![file("/usr/bin/foo"), link("/usr/bin/bar", "foo")]);
    let mut tp = TintProcessor::new("/mnt".to_string());
    let mut p = Profile::default();
    p.prune_path("/usr/bin/foo".to_string());
    p.keep_path("/usr/bin/foo".to_string());
    tp.set_profile(p);
    let kept = tp.keep_set(&strings(&["/usr/bin/bar"]), &vec![], &fs);
    assert_eq!(kept, strings(&["/usr/bin/bar"]));
}

#[test]
fn alias_expansion_in_dissection() {
    let fs = root(vec![file("/usr/bin/ls"), file("/usr/bin/cat")]);
    let tp = TintProcessor::new("/mnt".to_string());
    let kept = tp.keep_set(&strings(&["/bin/ls"]), &vec![], &fs);
    let d = fs.dissect(&kept);
    assert_eq!(d.removed, strings(&["/usr/bin/cat"]));
}

#[test]
fn lockfile_guard() {
    let mut tp = TintProcessor::new("/mnt".to_string());
    tp.set_dry_run(false);
    assert_eq!(tp.start(true), Err(TintError::AlreadyTinted));
    assert_eq!(tp.start(false), Ok(vec![]));
    let steps = tp.finish();
    assert_eq!(steps.last(), Some(&Step::CreateLockfile));
}

#[test]
fn dropped_package() {
    let fs = root(vec![file("/usr/lib/bar/lib.so"), file("/usr/bin/foo")]);
    let tp = TintProcessor::new("/mnt".to_string());
    let found = strings(&["/usr/bin/foo", "/usr/lib/bar/lib.so"]);
    let kept = tp.keep_set(&found, &strings(&["/usr/lib/bar/lib.so"]), &fs);
    assert_eq!(kept, strings(&["/usr/bin/foo"]));
}

#[test]
fn dropped_package_under_short_form() {
    let fs = root(vec![file("/usr/lib/bar/lib.so"), file("/lib/bar/lib.so")]);
    let tp = TintProcessor::new("/mnt".to_string());
    let found = strings(&["/usr/lib/bar/lib.so", "/lib/bar/lib.so"]);
    let kept = tp.keep_set(&found, &strings(&["/usr/lib/bar/lib.so"]), &fs);
    assert!(kept.is_empty());
}

#[test]
fn links_followed_and_cycles_end() {
    let fs = root(vec![link("/a/x", "y"), link("/a/y", "/a/x"), link("/a/z", "../q")]);
    let r = ext_path(&strings(&["/a/x"]), &fs);
    assert_eq!(sorted(r), strings(&["/a/x", "/a/y"]));
    let r = ext_path(&strings(&["/a/z"]), &fs);
    assert_eq!(sorted(r), strings(&["/a/../q", "/a/z"]));
}

#[test]
fn symlink_targets_kept() {
    let fs = root(vec![link("/bin/sh", "dash"), file("/bin/dash"), file("/bin/zsh")]);
    let tp = TintProcessor::new("/mnt".to_string());
    let kept = tp.keep_set(&strings(&["/bin/sh"]), &vec![], &fs);
    assert_eq!(sorted(kept), strings(&["/bin/dash", "/bin/sh"]));
}

#[test]
fn archive_mode_steps() {
    let mut tp = TintProcessor::new("/mnt".to_string());
    tp.set_dry_run(false);
    assert_eq!(tp.copy_to("/out/app", false, false), Ok(()));
    let mut p = Profile::default();
    p.set_post_hook("echo".to_string());
    p.set_pre_hook("echo".to_string());
    tp.set_profile(p);
    assert_eq!(tp.finish(), vec![Step::Archive]);
    assert_eq!(tp.start(false), Ok(vec![Step::RunPreHook]));
}

#[test]
fn apply_and_dry_run_steps() {
    let mut tp = TintProcessor::new("/mnt".to_string());
    let mut p = Profile::default();
    p.set_post_hook("echo".to_string());
    tp.set_profile(p);
    assert_eq!(tp.finish(), vec![Step::LogPostHook, Step::Report]);
    tp.set_dry_run(false);
    assert_eq!(
        tp.finish(),
        vec![Step::RunPostHook, Step::RemoveFiles, Step::RemoveEmptyDirs, Step::RemoveBrokenLinks, Step::CreateLockfile]
    );
}

#[test]
fn copy_to_checks() {
    let mut tp = TintProcessor::new("/mnt".to_string());
    assert_eq!(tp.copy_to("", true, true), Ok(()));
    assert!(tp.copy_to.is_none());
    assert_eq!(tp.copy_to("/x", true, true), Err(TintError::InvalidArgument));
    assert_eq!(tp.copy_to("/x", false, true), Err(TintError::AlreadyExists));
    assert!(tp.copy_to.is_none());
}

#[test]
fn autodeps_names() {
    let mut tp = TintProcessor::new("/mnt".to_string());
    tp.set_autodeps("clean");
    assert_eq!(tp.autodeps, Autodeps::Clean);
    tp.set_autodeps("tight");
    assert_eq!(tp.autodeps, Autodeps::Tight);
    tp.set_autodeps("free");
    assert_eq!(tp.autodeps, Autodeps::Free);
    tp.set_autodeps("none");
    assert_eq!(tp.autodeps, Autodeps::Undef);
}

#[test]
fn archive_plan() {
    let (file, top) = archive_name("/out/app", "20240101120000");
    assert_eq!(file, "/out/app-20240101120000.tar.gz");
    assert_eq!(top, "app-20240101120000");
    assert_eq!(archive_name("app", "1").0, "app-1.tar.gz");
    assert_eq!(archive_name("/app", "1").0, "/app-1.tar.gz");
    let entries = archive_entries(&top, &strings(&["/usr/bin/foo"]));
    assert_eq!(entries, vec![("/usr/bin/foo".to_string(), "app-20240101120000/usr/bin/foo".to_string())]);
}

#[test]
fn archive_plan_uses_stamp() {
    let at = Stamp { year: 2024, month: 3, day: 7, hour: 9, minute: 5, second: 0 };
    assert_eq!(at.to_text(), "20240307090500");
    let early = Stamp { year: 987, month: 12, day: 31, hour: 23, minute: 59, second: 60 };
    assert_eq!(early.to_text(), "09871231235960");
    let mut tp = TintProcessor::new("/mnt".to_string());
    assert!(tp.into_archive(&at).is_none());
    tp.copy_to("/out/app", false, false).unwrap();
    let (file, top) = tp.into_archive(&at).unwrap();
    assert_eq!(top, "app-20240307090500");
    assert_eq!(file, "/out/app-20240307090500.tar.gz");
}

#[test]
fn found_set_gathering() {
    let found = collect_found(
        &strings(&["/usr/bin/true"]),
        &vec![strings(&["/lib/libc.so.6", "/usr/bin/true"])],
        &vec![strings(&["/usr/share/doc/coreutils/copyright"])],
        &vec![strings(&["/bin/sh"]), vec![]],
    );
    assert_eq!(
        sorted(found),
        strings(&["/bin/sh", "/lib/libc.so.6", "/usr/bin/true", "/usr/share/doc/coreutils/copyright"])
    );
}
