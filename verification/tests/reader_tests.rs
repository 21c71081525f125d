//! Tests for splitting, filtering and position tracking.

use log_reader::error::Error;
use log_reader::reader::{
    calculate_bytes_to_read, detect_file_truncation, split_and_filter_content, ReadPlan,
    TailState,
};

#[test]
fn test_split_and_filter_content_newline() {
    let content = "line1\nline2\nline3\n";
    let result = split_and_filter_content(content, "\n");
    assert_eq!(result, vec!["line1", "line2", "line3"]);
}

#[test]
fn test_split_and_filter_content_with_empty_lines() {
    let content = "line1\n\n\nline2\n  \n\nline3\n";
    let result = split_and_filter_content(content, "\n");
    assert_eq!(result, vec!["line1", "line2", "line3"]);
}

#[test]
fn test_split_and_filter_content_custom_separator() {
    let content = "data1|data2|data3|";
    let result = split_and_filter_content(content, "|");
    assert_eq!(result, vec!["data1", "data2", "data3"]);
}

#[test]
fn test_split_and_filter_content_multi_char_separator() {
    let content = "part1<<>>part2<<>>part3<<>>";
    let result = split_and_filter_content(content, "<<>>");
    assert_eq!(result, vec!["part1", "part2", "part3"]);
}

#[test]
fn test_split_and_filter_content_no_separator() {
    let content = "single_line_content";
    let result = split_and_filter_content(content, "\n");
    assert_eq!(result, vec!["single_line_content"]);
}

#[test]
fn test_split_and_filter_content_empty_string() {
    let content = "";
    let result = split_and_filter_content(content, "\n");
    assert_eq!(result, Vec::<String>::new());
}

#[test]
fn test_split_and_filter_content_only_separators() {
    let content = "\n\n\n";
    let result = split_and_filter_content(content, "\n");
    assert_eq!(result, Vec::<String>::new());
}

#[test]
fn test_split_and_filter_content_whitespace_preservation() {
    let content = "  line1  \n  line2  \n";
    let result = split_and_filter_content(content, "\n");
    // Should preserve internal whitespace but filter empty lines
    assert_eq!(result, vec!["  line1  ", "  line2  "]);
}

#[test]
fn test_split_and_filter_content_edge_cases() {
    // Test with separator at the beginning
    let content = "\nline1\nline2";
    let result = split_and_filter_content(content, "\n");
    assert_eq!(result, vec!["line1", "line2"]);

    // Test with separator at the end
    let content = "line1\nline2\n";
    let result = split_and_filter_content(content, "\n");
    assert_eq!(result, vec!["line1", "line2"]);

    // Test with repeated separators
    let content = "line1\n\n\n\nline2";
    let result = split_and_filter_content(content, "\n");
    assert_eq!(result, vec!["line1", "line2"]);

    // Test with whitespace-only content between separators
    let content = "line1\n   \n\t\n  \nline2";
    let result = split_and_filter_content(content, "\n");
    assert_eq!(result, vec!["line1", "line2"]);
}

#[test]
fn test_detect_file_truncation() {
    assert!(detect_file_truncation(100, 200)); // File was truncated
    assert!(!detect_file_truncation(200, 100)); // File grew
    assert!(!detect_file_truncation(100, 100)); // No change
}

#[test]
fn test_calculate_bytes_to_read() {
    assert_eq!(calculate_bytes_to_read(200, 100), Some(100)); // 100 new bytes
    assert_eq!(calculate_bytes_to_read(100, 100), None); // No new bytes
    assert_eq!(calculate_bytes_to_read(50, 100), None); // File truncated
    assert_eq!(calculate_bytes_to_read(0, 0), None); // Empty file
}

#[test]
fn test_position_calculation_edge_cases() {
    // Test with zero values
    assert_eq!(calculate_bytes_to_read(0, 0), None);

    // Test with large values
    assert_eq!(calculate_bytes_to_read(u64::MAX, u64::MAX - 1), Some(1));
    assert_eq!(calculate_bytes_to_read(u64::MAX - 1, u64::MAX), None);

    // Test boundary conditions
    assert_eq!(calculate_bytes_to_read(1, 0), Some(1));
    assert_eq!(calculate_bytes_to_read(0, 1), None);
}

#[test]
fn test_file_truncation_edge_cases() {
    // Test with equal sizes
    assert!(!detect_file_truncation(100, 100));

    // Test with zero values
    assert!(!detect_file_truncation(0, 0));
    assert!(detect_file_truncation(0, 1));

    // Test with large values
    assert!(detect_file_truncation(u64::MAX - 1, u64::MAX));
    assert!(!detect_file_truncation(u64::MAX, u64::MAX - 1));
}

#[test]
fn test_split_scenario_blank_segment_dropped() {
    let result = split_and_filter_content("a\nb\n\nc\n", "\n");
    assert_eq!(result, vec!["a", "b", "c"]);
}

#[test]
fn test_split_scenario_trailing_separator() {
    let result = split_and_filter_content("x|y|z|", "|");
    assert_eq!(result, vec!["x", "y", "z"]);
}

#[test]
fn test_split_with_empty_separator_keeps_non_blank_characters() {
    let result = split_and_filter_content("a b", "");
    assert_eq!(result, vec!["a", "b"]);
}

#[test]
fn test_split_preserves_unicode_text() {
    let result = split_and_filter_content("Hello 世界\nUnicode: 🦀\n", "\n");
    assert_eq!(result, vec!["Hello 世界", "Unicode: 🦀"]);
}

#[test]
fn test_tail_state_default_separator_is_newline() {
    let state = TailState::new("app.log".to_string(), None);
    assert_eq!(state.position, 0);
    assert_eq!(state.path, "app.log");
    assert_eq!(state.separator, "\n");
}

#[test]
fn test_tail_state_custom_separator() {
    let state = TailState::new("app.log".to_string(), Some("|".to_string()));
    assert_eq!(state.separator, "|");
}

#[test]
fn test_plan_read_missing_file_fetches_nothing() {
    let mut state = TailState::new("app.log".to_string(), None);
    state.position = 25;
    let plan = state.plan_read(false, 0);
    assert_eq!(plan, ReadPlan::Skip);
    assert_eq!(state.position, 25);
}

#[test]
fn test_plan_read_new_bytes_are_fetched_from_position() {
    let mut state = TailState::new("app.log".to_string(), None);
    state.position = 50;
    let plan = state.plan_read(true, 200);
    assert_eq!(plan, ReadPlan::Fetch { offset: 50, len: 150 });
    assert_eq!(state.position, 50);
}

#[test]
fn test_plan_read_at_end_of_file_fetches_nothing() {
    let mut state = TailState::new("app.log".to_string(), None);
    state.position = 200;
    let plan = state.plan_read(true, 200);
    assert_eq!(plan, ReadPlan::Skip);
    assert_eq!(state.position, 200);
}

#[test]
fn test_plan_read_truncation_restarts_from_zero() {
    let mut state = TailState::new("app.log".to_string(), None);
    state.position = 1000;
    let plan = state.plan_read(true, 40);
    assert_eq!(plan, ReadPlan::Fetch { offset: 0, len: 40 });
    assert_eq!(state.position, 0);
}

#[test]
fn test_plan_read_truncated_to_empty_fetches_nothing() {
    let mut state = TailState::new("app.log".to_string(), None);
    state.position = 1000;
    let plan = state.plan_read(true, 0);
    assert_eq!(plan, ReadPlan::Skip);
    assert_eq!(state.position, 0);
}

#[test]
fn test_absorb_advances_position_and_splits() {
    let mut state = TailState::new("app.log".to_string(), None);
    let raw = b"a\nb\n\nc\n".to_vec();
    let outcome = state.absorb_new_content(raw.len() as u64, raw);
    assert_eq!(outcome, Ok(Some(vec!["a".to_string(), "b".to_string(), "c".to_string()])));
    assert_eq!(state.position, 7);

    // A second read cycle on the unchanged file finds nothing new.
    let plan = state.plan_read(true, 7);
    assert_eq!(plan, ReadPlan::Skip);
    assert_eq!(state.position, 7);
}

#[test]
fn test_incremental_reads_only_new_content() {
    let mut state = TailState::new("app.log".to_string(), None);

    // First cycle: the file holds six bytes.
    let first = b"line1\n".to_vec();
    assert_eq!(state.plan_read(true, 6), ReadPlan::Fetch { offset: 0, len: 6 });
    let outcome = state.absorb_new_content(6, first);
    assert_eq!(outcome, Ok(Some(vec!["line1".to_string()])));
    assert_eq!(state.position, 6);

    // Second cycle: six more bytes were appended; the position never moves
    // backwards and only the new window is fetched.
    assert_eq!(state.plan_read(true, 12), ReadPlan::Fetch { offset: 6, len: 6 });
    let outcome = state.absorb_new_content(12, b"line2\n".to_vec());
    assert_eq!(outcome, Ok(Some(vec!["line2".to_string()])));
    assert_eq!(state.position, 12);
}

#[test]
fn test_truncation_reread_emits_full_content() {
    let mut state = TailState::new("app.log".to_string(), None);
    state.position = 1000;

    // The file shrank to six bytes: the next cycle starts over at zero and
    // re-emits the whole current content as one batch.
    assert_eq!(state.plan_read(true, 6), ReadPlan::Fetch { offset: 0, len: 6 });
    let outcome = state.absorb_new_content(6, b"fresh\n".to_vec());
    assert_eq!(outcome, Ok(Some(vec!["fresh".to_string()])));
    assert_eq!(state.position, 6);
}

#[test]
fn test_absorb_blank_content_yields_no_batch() {
    let mut state = TailState::new("app.log".to_string(), None);
    let raw = b" \n\t\n\n".to_vec();
    let outcome = state.absorb_new_content(raw.len() as u64, raw);
    assert_eq!(outcome, Ok(None));
    assert_eq!(state.position, 5);
}

#[test]
fn test_absorb_invalid_utf8_is_a_decode_error() {
    let mut state = TailState::new("app.log".to_string(), None);
    state.position = 3;
    let raw = vec![0x66u8, 0x6f, 0xff, 0xfe];
    let outcome = state.absorb_new_content(7, raw);
    match outcome {
        Err(Error::Utf8 { .. }) => {}
        other => panic!("Expected Error::Utf8 variant, got {:?}", other),
    }
    assert_eq!(state.position, 3);
}
