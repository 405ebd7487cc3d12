//! Tests for the streaming matcher: matches at every position, across
//! chunk boundaries, under case folding, and for degenerate buffer sizes.

use haystack::process;

#[test]
fn core_find_at_end() {
    // use buf size 4 to test also, if it works if the buffer is not full at the end
    assert_eq!(
        1,
        process("789", "0123456789".as_bytes(), 4, false),
        "finding the search term at the end should return true"
    );
}

/// This test should NOT fail (e. g. index out of bounds)
#[test]
fn core_find_only_half_at_end() {
    assert_eq!(
        0,
        process("8910", "0123456789".as_bytes(), 5, false),
        "finding the pattern only half at the end should return false"
    );
}

#[test]
fn core_find_at_beginning() {
    assert_eq!(
        1,
        process("012", "0123456789".as_bytes(), 5, false),
        "finding the pattern at the beginning should return true"
    );
}

#[test]
fn core_find_at_center() {
    assert_eq!(
        1,
        process("34567", "0123456789".as_bytes(), 5, false),
        "finding the pattern at the center should return true"
    );
}

#[test]
fn core_finding_nothing() {
    assert_eq!(
        0,
        process("asdf", "0123456789".as_bytes(), 5, false),
        "finding nothing should return false"
    );
}

#[test]
fn core_find_several_times() {
    assert_eq!(
        3,
        process("abc", "abc01234abc56789abcjab".as_bytes(), 10, false),
        "the pattern should exist 3 times in the file"
    );
}

#[test]
fn find_case_insensitive() {
    assert_eq!(
        3,
        process("abc", "ABC01234aBc56789abcjab".as_bytes(), 10, true),
        "the pattern should exist 3 times in the file"
    );
}

#[test]
fn find_not_case_insensitive() {
    assert_eq!(
        0,
        process("ABC", "abc01234abc56789abcjab".as_bytes(), 10, false),
        "the pattern should exist 3 times in the file"
    );
}

#[test]
fn exp_find_at_end() {
    assert_eq!(
        1,
        process("789", "0123456789".as_bytes(), 5, false),
        "finding the search term at the end should return true"
    );
}

/// This test should NOT fail (e. g. index out of bounds)
#[test]
fn exp_find_only_half_at_end() {
    assert_eq!(
        0,
        process("8910", "0123456789".as_bytes(), 5, false),
        "finding the pattern only half at the end should return false"
    );
}

#[test]
fn exp_find_at_beginning() {
    assert_eq!(
        1,
        process("012", "0123456789".as_bytes(), 5, false),
        "finding the pattern at the beginning should return true"
    );
}

#[test]
fn exp_find_at_center() {
    assert_eq!(
        1,
        process("34567", "0123456789".as_bytes(), 5, false),
        "finding the pattern at the center should return true"
    );
}

#[test]
fn exp_finding_nothing() {
    assert_eq!(
        0,
        process("asdf", "0123456789".as_bytes(), 5, false),
        "finding nothing should return false"
    );
}

#[test]
fn exp_find_several_times() {
    assert_eq!(
        3,
        process("abc", "abc01234abc56789abcjab".as_bytes(), 10, false),
        "the pattern should exist 3 times in the file"
    );
}

#[test]
fn count_invariant_under_buffer_size() {
    let content = "abc01234abc56789abcjab".as_bytes();
    let reference = process("abc", content, 1, false);
    assert_eq!(3, reference);
    for buf_size in 1..=(content.len() + 3) {
        assert_eq!(
            reference,
            process("abc", content, buf_size, false),
            "the count must not depend on the buffer size"
        );
    }
}

#[test]
fn match_split_across_chunks() {
    // buffer size 2 splits every occurrence of the three-byte term
    assert_eq!(2, process("xyz", "..xyz..xyz.".as_bytes(), 2, false));
}

#[test]
fn buffer_size_zero_finds_nothing() {
    assert_eq!(0, process("789", "0123456789".as_bytes(), 0, false));
    assert_eq!(0, process("a", "aaaa".as_bytes(), 0, false));
    assert_eq!(0, process("abc", "".as_bytes(), 0, true));
}

#[test]
fn empty_content_finds_nothing() {
    assert_eq!(0, process("abc", "".as_bytes(), 8, false));
}

#[test]
fn term_longer_than_content() {
    assert_eq!(0, process("0123456789x", "0123456789".as_bytes(), 4, false));
}

#[test]
fn counts_non_overlapping_occurrences() {
    // a completed match restarts from scratch: "aaa" holds one "aa", not two
    assert_eq!(1, process("aa", "aaa".as_bytes(), 8, false));
    assert_eq!(2, process("aa", "aaaa".as_bytes(), 8, false));
}

#[test]
fn restart_on_term_head_after_mismatch() {
    // after a partial match fails, a byte equal to the term's head restarts
    // the cursor at one
    assert_eq!(1, process("ab", "aab".as_bytes(), 8, false));
}

#[test]
fn mismatch_keeps_only_the_head_byte() {
    // the cursor does not track borders: after matching "aa" of "aab", the
    // third "a" restarts at one, so "aaab" holds no "aab" for this matcher
    assert_eq!(0, process("aab", "aaab".as_bytes(), 8, false));
}

#[test]
fn case_folding_is_ascii_only() {
    assert_eq!(1, process("abc", "xAbCx".as_bytes(), 8, true));
    assert_eq!(0, process("abc", "xAbCx".as_bytes(), 8, false));
}

#[test]
fn matcher_keeps_cursor_across_feeds() {
    let mut m = haystack::Matcher::new("abc".as_bytes(), false);
    m.feed("ab".as_bytes());
    assert_eq!(0, m.total());
    m.feed("c..a".as_bytes());
    assert_eq!(1, m.total());
    m.feed("bc".as_bytes());
    assert_eq!(2, m.total());
}
