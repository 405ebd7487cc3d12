//! Tests for the output line formatting and the version banner.

use haystack::{build_version_str, format_match_line};

#[test]
fn match_line_has_count_separator_path_and_newline() {
    let line = format_match_line(3, "dir/file.txt");
    assert_eq!("3x in dir/file.txt\n".as_bytes(), line.as_slice());
}

#[test]
fn match_line_renders_multi_digit_counts() {
    let line = format_match_line(12045, "x");
    assert_eq!("12045x in x\n".as_bytes(), line.as_slice());
}

#[test]
fn match_line_renders_zero() {
    let line = format_match_line(0, "p");
    assert_eq!("0x in p\n".as_bytes(), line.as_slice());
}

#[test]
fn match_line_renders_the_largest_count() {
    let line = format_match_line(u64::MAX, "p");
    assert_eq!("18446744073709551615x in p\n".as_bytes(), line.as_slice());
}

#[test]
fn version_without_revision() {
    assert_eq!("v1.2.3", build_version_str("1.2.3", ""));
}

#[test]
fn version_with_revision() {
    assert_eq!("v0.1.0-1a2b3c", build_version_str("0.1.0", "1a2b3c"));
}
