use mezzotint::textops::trim_of;
use mezzotint::pathstr::{base_name_of, contains_str, ends_with, link_destination_of, parent_dir_of, split_on, starts_with};

#[test]
fn base_and_parent() {
    assert_eq!(base_name_of("/usr/bin/ls"), "ls");
    assert_eq!(base_name_of("ls"), "ls");
    assert_eq!(parent_dir_of("/usr/bin/ls"), "/usr/bin");
    assert_eq!(parent_dir_of("/ls"), "/");
    assert_eq!(parent_dir_of("ls"), "");
}

#[test]
fn prefixes_and_suffixes() {
    assert!(starts_with("/usr/share/doc/x", "/usr/share/doc"));
    assert!(!starts_with("/usr", "/usr/share"));
    assert!(ends_with("a.tar.gz", ".gz"));
    assert!(!ends_with("gz", ".gz"));
    assert!(contains_str("/a/doc/b", "/doc/"));
    assert!(!contains_str("/a/docs", "/doc/"));
}

#[test]
fn link_destinations() {
    assert_eq!(link_destination_of("/bin/sh", "dash"), "/bin/dash");
    assert_eq!(link_destination_of("/bin/sh", "/usr/bin/dash"), "/usr/bin/dash");
    assert_eq!(link_destination_of("/sh", "dash"), "/dash");
}

#[test]
fn splitting() {
    assert_eq!(split_on("a\nb\n", '\n'), vec!["a".to_string(), "b".to_string(), "".to_string()]);
    assert_eq!(split_on("", '\n'), vec!["".to_string()]);
    assert_eq!(split_on("x y  z", ' '), vec!["x", "y", "", "z"]);
}

#[test]
fn trimming_follows_unicode_white_space() {
    assert_eq!(trim_of("\u{3000} a b\u{85}\n"), "a b");
    assert_eq!(trim_of("   "), "");
    assert_eq!(trim_of("x"), "x");
    for u in 0u32..0x10000 {
        if let Some(c) = char::from_u32(u) {
            let s = format!("{}a{}", c, c);
            assert_eq!(trim_of(&s) == "a", c.is_whitespace(), "character {:#x}", u);
        }
    }
}
