//! Tests for the walker's whitelist filtering and name handling.

use haystack::{base_name, extension_of, should_scan};

fn whitelist(entries: &[&str]) -> Vec<String> {
    entries.iter().map(|e| e.to_string()).collect()
}

#[test]
fn whitelist_admits_only_listed_extensions() {
    let wl = whitelist(&["txt"]);
    assert!(should_scan("notes.txt".as_bytes(), &wl));
    assert!(!should_scan("readme.md".as_bytes(), &wl));
    assert!(!should_scan("blob.bin".as_bytes(), &wl));
}

#[test]
fn whitelist_matches_case_insensitively() {
    let wl = whitelist(&["txt"]);
    assert!(should_scan("UPPER.TXT".as_bytes(), &wl));
    assert!(should_scan("mixed.TxT".as_bytes(), &wl));
    let wl_upper = whitelist(&["TXT"]);
    assert!(should_scan("lower.txt".as_bytes(), &wl_upper));
}

#[test]
fn empty_whitelist_admits_everything() {
    let wl: Vec<String> = Vec::new();
    assert!(should_scan("notes.txt".as_bytes(), &wl));
    assert!(should_scan("readme.md".as_bytes(), &wl));
    assert!(should_scan("no_extension".as_bytes(), &wl));
}

#[test]
fn whitelist_with_several_entries() {
    let wl = whitelist(&["txt", "md"]);
    assert!(should_scan("a.txt".as_bytes(), &wl));
    assert!(should_scan("b.md".as_bytes(), &wl));
    assert!(!should_scan("c.bin".as_bytes(), &wl));
}

#[test]
fn extension_is_the_part_after_the_last_dot() {
    assert_eq!("gz".as_bytes(), extension_of("archive.tar.gz".as_bytes()));
    assert_eq!("txt".as_bytes(), extension_of("notes.txt".as_bytes()));
    assert_eq!("txt".as_bytes(), extension_of(".txt".as_bytes()));
}

#[test]
fn name_without_dot_is_its_own_extension() {
    assert_eq!("makefile".as_bytes(), extension_of("makefile".as_bytes()));
}

#[test]
fn name_ending_in_dot_has_empty_extension() {
    assert_eq!("".as_bytes(), extension_of("oddity.".as_bytes()));
}

#[test]
fn base_name_is_the_last_path_component() {
    assert_eq!("c.txt".as_bytes(), base_name("a/b/c.txt".as_bytes()));
    assert_eq!("file".as_bytes(), base_name("file".as_bytes()));
    assert_eq!("".as_bytes(), base_name("dir/".as_bytes()));
}

#[test]
fn whitelist_looks_at_the_file_name_not_the_directory() {
    let wl = whitelist(&["txt"]);
    let name = base_name("dir.txt/file.md".as_bytes());
    assert!(!should_scan(name, &wl));
}
