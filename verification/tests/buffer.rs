use agent_kit::buffer::{apply_mode, resolve_target, EditMode};

fn after_line(content: &str, anchor: &str, ins: &str) -> String {
    let t = resolve_target(content, anchor, None, None).unwrap();
    apply_mode(content, &t, ins, &EditMode::AfterLine)
}
fn before_line(content: &str, anchor: &str, ins: &str) -> String {
    let t = resolve_target(content, anchor, None, None).unwrap();
    apply_mode(content, &t, ins, &EditMode::BeforeLine)
}

#[test]
fn after_line_inserts_whole_line_no_glue() {
    assert_eq!(after_line("A\nB\nC\n", "A", "X"), "A\nX\nB\nC\n");
}

#[test]
fn after_line_does_not_double_a_supplied_trailing_newline() {
    assert_eq!(after_line("A\nB\n", "A", "X\n"), "A\nX\nB\n");
}

#[test]
fn after_line_on_last_line_without_trailing_newline() {
    assert_eq!(after_line("A\nB", "B", "X"), "A\nB\nX\n");
}

#[test]
fn after_line_on_last_line_with_trailing_newline() {
    assert_eq!(after_line("A\nB\n", "B", "X"), "A\nB\nX\n");
}

#[test]
fn after_line_anchors_on_the_whole_line_not_the_match_offset() {
    assert_eq!(
        after_line("foo bar\nbaz\n", "foo", "X"),
        "foo bar\nX\nbaz\n"
    );
}

#[test]
fn after_line_with_line_range_targeting_inserts_after_that_line_not_the_next() {
    let t = resolve_target("A\nB\nC\n", "", None, Some((2, 2))).unwrap();
    assert_eq!(
        apply_mode("A\nB\nC\n", &t, "X", &EditMode::AfterLine),
        "A\nB\nX\nC\n"
    );
}

#[test]
fn after_line_with_anchor_ending_in_newline() {
    let t = resolve_target("A\nB\nC\n", "B\n", None, None).unwrap();
    assert_eq!(
        apply_mode("A\nB\nC\n", &t, "X", &EditMode::AfterLine),
        "A\nB\nX\nC\n"
    );
}

#[test]
fn before_line_inserts_whole_line_no_glue() {
    assert_eq!(before_line("A\nB\nC\n", "B", "X"), "A\nX\nB\nC\n");
}

#[test]
fn before_line_on_first_line() {
    assert_eq!(before_line("A\nB\n", "A", "X"), "X\nA\nB\n");
}

#[test]
fn before_line_multiline_block_each_on_own_line() {
    assert_eq!(before_line("A\nB\n", "B", "X\nY"), "A\nX\nY\nB\n");
}

#[test]
fn before_line_with_anchor_starting_with_newline() {
    let t = resolve_target("A\nB\nC\n", "\nB", None, None).unwrap();
    assert_eq!(
        apply_mode("A\nB\nC\n", &t, "X", &EditMode::BeforeLine),
        "A\nX\nB\nC\n"
    );
}

#[test]
fn empty_new_string_is_a_noop_for_line_modes() {
    let after = resolve_target("A\nB\n", "A", None, None).unwrap();
    assert_eq!(
        apply_mode("A\nB\n", &after, "", &EditMode::AfterLine),
        "A\nB\n"
    );
    let before = resolve_target("A\nB\n", "B", None, None).unwrap();
    assert_eq!(
        apply_mode("A\nB\n", &before, "", &EditMode::BeforeLine),
        "A\nB\n"
    );
}

#[test]
fn line_range_resolves_crlf_terminators_correctly() {
    let t1 = resolve_target("A\r\nB\r\n", "", None, Some((1, 1))).unwrap();
    assert_eq!((t1.byte_start, t1.byte_end), (0, 3));
    let t2 = resolve_target("A\r\nB\r\n", "", None, Some((2, 2))).unwrap();
    assert_eq!((t2.byte_start, t2.byte_end), (3, 4));
    let t3 = resolve_target("A\r\nB\r\nC\r\n", "", None, Some((1, 2))).unwrap();
    assert_eq!((t3.byte_start, t3.byte_end), (0, 6));
}

#[test]
fn line_range_lf_behavior_unchanged() {
    let a = resolve_target("A\nB\nC\n", "", None, Some((1, 2))).unwrap();
    assert_eq!((a.byte_start, a.byte_end), (0, 4));
    let b = resolve_target("A\nB\nC\n", "", None, Some((3, 3))).unwrap();
    assert_eq!((b.byte_start, b.byte_end), (4, 5));
}

#[test]
fn raw_after_still_glues_documenting_the_footgun_the_line_modes_fix() {
    let t = resolve_target("A\nB\n", "A", None, None).unwrap();
    assert_eq!(apply_mode("A\nB\n", &t, "X", &EditMode::After), "AX\nB\n");
}

// ── further cases ─────────────────────────────────────────

#[test]
fn search_errors_report_counts() {
    assert_eq!(
        resolve_target("a a a", "a", None, None).err().unwrap(),
        "old_string appears 3 times (must be unique, or use match_index)"
    );
    assert_eq!(
        resolve_target("a a a", "a", Some(4), None).err().unwrap(),
        "match_index 4 out of range (found 3 occurrences)"
    );
    assert_eq!(
        resolve_target("a a a", "a", Some(0), None).err().unwrap(),
        "match_index 0 out of range (found 3 occurrences)"
    );
    assert_eq!(
        resolve_target("abc", "x", None, None).err().unwrap(),
        "old_string not found in file"
    );
    let t = resolve_target("a a a", "a", Some(2), None).unwrap();
    assert_eq!((t.byte_start, t.byte_end), (2, 3));
}

#[test]
fn line_range_out_of_bounds_message() {
    assert_eq!(
        resolve_target("A\nB\n", "", None, Some((3, 4))).err().unwrap(),
        "line range 3-4 out of bounds (file has 2 lines)"
    );
    assert_eq!(
        resolve_target("", "", None, Some((2, 1))).err().unwrap(),
        "line range 2-1 out of bounds (file has 1 lines)"
    );
    let t = resolve_target("", "", None, Some((0, 5))).unwrap();
    assert_eq!((t.byte_start, t.byte_end), (0, 0));
}

#[test]
fn matches_do_not_overlap_and_offsets_are_bytes() {
    // "aa" in "aaaa" matches at 0 and 2 only
    let t = resolve_target("aaaa", "aa", Some(2), None).unwrap();
    assert_eq!((t.byte_start, t.byte_end), (2, 4));
    // non-ASCII text: offsets count UTF-8 bytes
    let t = resolve_target("é→x", "x", None, None).unwrap();
    assert_eq!((t.byte_start, t.byte_end), (5, 6));
    assert_eq!(apply_mode("é→x", &t, "yz", &EditMode::Replace), "é→yz");
}

#[test]
fn empty_pattern_matches_every_boundary() {
    assert_eq!(
        resolve_target("ab", "", None, None).err().unwrap(),
        "old_string appears 3 times (must be unique, or use match_index)"
    );
    let t = resolve_target("aé", "", Some(3), None).unwrap();
    assert_eq!((t.byte_start, t.byte_end), (3, 3));
}

#[test]
fn replace_before_and_append_modes() {
    let t = resolve_target("hello world", "world", None, None).unwrap();
    assert_eq!(apply_mode("hello world", &t, "there", &EditMode::Replace), "hello there");
    assert_eq!(apply_mode("hello world", &t, "big ", &EditMode::Before), "hello big world");
    assert_eq!(apply_mode("A", &t, "B", &EditMode::Append), "A\nB");
    assert_eq!(apply_mode("A\n", &t, "B", &EditMode::Append), "A\nB");
    assert_eq!(apply_mode("", &t, "B", &EditMode::Append), "\nB");
}
