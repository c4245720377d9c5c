use mezzotint::rootfs::{FsEntry, RootFS};

fn file(p: &str, real: &str) -> FsEntry {
    FsEntry { path: p.to_string(), is_dir: false, is_file: true, link: None, real: Some(real.to_string()) }
}

fn sorted(mut v: Vec<String>) -> Vec<String> {
    v.sort();
    v
}

#[test]
fn forward_aliases() {
    let fs = RootFS::new();
    assert_eq!(sorted(fs.expand_target(&"/bin/ls".to_string(), false)), vec!["/bin/ls", "/usr/bin/ls"]);
    assert_eq!(fs.expand_target(&"/usr/bin/ls".to_string(), false), vec!["/usr/bin/ls"]);
    assert_eq!(fs.expand_target(&"/etc/x".to_string(), false), vec!["/etc/x"]);
    assert_eq!(sorted(fs.expand_target(&"/lib64/ld.so".to_string(), false)), vec!["/lib64/ld.so", "/usr/lib64/ld.so"]);
}

#[test]
fn forward_aliases_idempotent() {
    let fs = RootFS::new();
    let once = sorted(fs.expand_target(&"/sbin/x".to_string(), false));
    let mut twice: Vec<String> = vec![];
    for p in &once {
        for q in fs.expand_target(p, false) {
            if !twice.contains(&q) {
                twice.push(q);
            }
        }
    }
    assert_eq!(sorted(twice), once);
}

#[test]
fn reverse_aliases_need_existence() {
    let mut fs = RootFS::new();
    fs.record(file("/usr/bin/ls", "/usr/bin/ls"));
    assert_eq!(fs.expand_target(&"/usr/bin/ls".to_string(), true), vec!["/usr/bin/ls"]);
    fs.record(file("/bin/ls", "/usr/bin/ls"));
    assert_eq!(sorted(fs.expand_target(&"/usr/bin/ls".to_string(), true)), vec!["/bin/ls", "/usr/bin/ls"]);
    assert_eq!(fs.expand_target(&"/bin/ls".to_string(), true), vec!["/bin/ls"]);
    assert!(fs.expand_target(&"/usr/bin/none".to_string(), true).is_empty());
}

#[test]
fn protected_trees_skipped() {
    let mut fs = RootFS::new();
    fs.keep_tmp(false);
    fs.keep_pds(false);
    fs.keep_tree(vec!["/opt/keep".to_string()]);
    assert!(fs.is_skipped("/tmp"));
    assert!(fs.is_skipped("/tmp/a"));
    assert!(!fs.is_skipped("/tmpfile"));
    assert!(fs.is_skipped("/proc/1/x"));
    assert!(fs.is_skipped("/opt/keep/a"));
    assert!(!fs.is_skipped("/opt/other"));
    fs.record(file("/tmp/a", "/tmp/a"));
    fs.record(file("/etc/b", "/etc/b"));
    fs.record(file("/etc/c", "/tmp/c"));
    fs.record_broken("/etc/dangling".to_string());
    fs.record_broken("/tmp/dangling".to_string());
    fs.record_broken("/etc/kept".to_string());
    let d = fs.dissect(&vec!["/etc/kept".to_string(), "/etc/kept".to_string()]);
    assert_eq!(sorted(d.removed), vec!["/etc/b", "/etc/dangling"]);
    assert_eq!(d.kept, vec!["/etc/kept"]);
}

#[test]
fn canonical_paths_deduplicated() {
    let mut fs = RootFS::new();
    fs.record(file("/bin/ls", "/usr/bin/ls"));
    fs.record(file("/usr/bin/ls", "/usr/bin/ls"));
    let d = fs.dissect(&vec![]);
    assert_eq!(d.removed, vec!["/usr/bin/ls"]);
}
