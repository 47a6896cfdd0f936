use rke2_image_manager::log_viewer::{
    highlight_span, is_error_line, print_to_scrollback, LogSelection, LogViewer,
};

fn lines() -> Vec<String> {
    vec![
        "STEP 1/5: FROM ubuntu:20.04".to_string(),
        "STEP 2/5: RUN apt-get update".to_string(),
        "STEP 3/5: COPY app.sh /".to_string(),
        "STEP 4/5: ENTRYPOINT [\"/app.sh\"]".to_string(),
        "STEP 5/5: CMD [\"start\"]".to_string(),
    ]
}

#[test]
fn test_selection_inactive_until_drag() {
    let mut sel = LogSelection::default();
    assert!(!sel.is_active());
    sel.start(0, 0);
    assert!(!sel.is_active());
    sel.update(0, 5);
    assert!(sel.is_active());
}

#[test]
fn test_selection_normalizes_reversed_drag() {
    let mut sel = LogSelection::default();
    sel.start(2, 10);
    sel.update(0, 3);
    let ((r1, c1), (r2, c2)) = sel.range().unwrap();
    assert_eq!((r1, c1), (0, 3));
    assert_eq!((r2, c2), (2, 10));
}

#[test]
fn test_selection_cols_for_single_row() {
    let mut sel = LogSelection::default();
    sel.start(1, 5);
    sel.update(1, 10);
    assert_eq!(sel.cols_for_row(1), Some((5, 10)));
    assert_eq!(sel.cols_for_row(0), None);
    assert_eq!(sel.cols_for_row(2), None);
}

#[test]
fn test_selection_cols_for_multi_row() {
    let mut sel = LogSelection::default();
    sel.start(0, 4);
    sel.update(3, 8);
    assert_eq!(sel.cols_for_row(0), Some((4, usize::MAX)));
    assert_eq!(sel.cols_for_row(1), Some((0, usize::MAX)));
    assert_eq!(sel.cols_for_row(2), Some((0, usize::MAX)));
    assert_eq!(sel.cols_for_row(3), Some((0, 8)));
    assert_eq!(sel.cols_for_row(4), None);
}

#[test]
fn test_selection_extract_single_line() {
    let mut sel = LogSelection::default();
    sel.start(0, 5);
    sel.update(0, 10);
    let extracted = sel.extract(&lines());
    assert_eq!(extracted, "1/5: ");
}

#[test]
fn test_selection_extract_multi_line() {
    let mut sel = LogSelection::default();
    sel.start(0, 13);
    sel.update(2, 4);
    let extracted = sel.extract(&lines());
    assert_eq!(extracted, "M ubuntu:20.04\nSTEP 2/5: RUN apt-get update\nSTEP");
}

#[test]
fn test_selection_extract_clamps_to_line_length() {
    let mut sel = LogSelection::default();
    sel.start(0, 0);
    sel.update(0, 1000);
    let extracted = sel.extract(&lines());
    assert_eq!(extracted, "STEP 1/5: FROM ubuntu:20.04");
}

#[test]
fn test_selection_extract_empty_when_inactive() {
    let sel = LogSelection::default();
    assert_eq!(sel.extract(&lines()), "");
}

#[test]
fn selection_on_one_spot_extracts_nothing() {
    let mut sel = LogSelection::default();
    sel.start(1, 3);
    assert!(!sel.is_active());
    assert_eq!(sel.extract(&lines()), "");
}

#[test]
fn update_without_start_is_ignored() {
    let mut sel = LogSelection::default();
    sel.update(2, 2);
    assert_eq!(sel.anchor, None);
    assert_eq!(sel.cursor, None);
    sel.start(1, 1);
    sel.clear();
    assert_eq!(sel.range(), None);
}

#[test]
fn extract_past_last_line_and_empty_middle() {
    let text = vec!["abc".to_string(), "".to_string(), "xyz".to_string()];
    let mut sel = LogSelection::default();
    sel.start(0, 1);
    sel.update(9, 2);
    assert_eq!(sel.extract(&text), "bc\n\nxyz");
}

#[test]
fn scroll_is_clamped_to_last_page() {
    let mut v = LogViewer::new();
    v.total_lines = 100;
    v.scroll(30, 20);
    assert_eq!(v.scroll_offset, 30);
    v.scroll(1000, 20);
    assert_eq!(v.scroll_offset, 80);
    v.scroll(-1000, 20);
    assert_eq!(v.scroll_offset, 0);
    v.page_down(50, 20);
    assert_eq!(v.scroll_offset, 50);
    v.page_down(50, 20);
    assert_eq!(v.scroll_offset, 80);
    v.page_up(30);
    assert_eq!(v.scroll_offset, 50);
    v.page_up(300);
    assert_eq!(v.scroll_offset, 0);
    v.end(20);
    assert_eq!(v.scroll_offset, 80);
    v.home();
    assert_eq!(v.scroll_offset, 0);
    v.end(500);
    assert_eq!(v.scroll_offset, 0);
}

#[test]
fn fit_pulls_view_back_when_log_shrinks() {
    let mut v = LogViewer { scroll_offset: 90, total_lines: 100 };
    v.fit(50, 20);
    assert_eq!(v.total_lines, 50);
    assert_eq!(v.scroll_offset, 30);
    let mut w = LogViewer { scroll_offset: 5, total_lines: 0 };
    w.fit(3, 20);
    assert_eq!(w.scroll_offset, 0);
    let mut x = LogViewer { scroll_offset: 5, total_lines: 0 };
    x.fit(100, 20);
    assert_eq!(x.scroll_offset, 5);
}

#[test]
fn highlight_is_clamped_to_the_line() {
    let mut sel = LogSelection::default();
    sel.start(0, 2);
    sel.update(1, 3);
    assert_eq!(highlight_span("abcdef", 0, &sel), Some((2, 6)));
    assert_eq!(highlight_span("abcdef", 1, &sel), Some((0, 3)));
    assert_eq!(highlight_span("", 1, &sel), None);
    assert_eq!(highlight_span("ab", 0, &sel), None);
    assert_eq!(highlight_span("abcdef", 2, &sel), None);
}

#[test]
fn error_lines_are_recognised_in_any_case() {
    assert!(is_error_line("Error: something"));
    assert!(is_error_line("an ERROR happened"));
    assert!(!is_error_line("all good"));
}

#[test]
fn scrollback_transcript() {
    let mut out = String::new();
    print_to_scrollback(&mut out, "Build Log: caddy", &["one".to_string(), "two".to_string()]);
    assert_eq!(
        out,
        "\n=== Build Log: caddy ===\none\ntwo\n\n--- Use your terminal's text selection to copy. Press any key to return ---\n"
    );
}

#[test]
fn selection_text_keeps_empty_lines() {
    let text = vec!["ab".to_string(), String::new(), "cd".to_string()];
    let mut sel = LogSelection::default();
    sel.start(0, 0);
    sel.update(2, 2);
    assert_eq!(sel.extract(&text), "ab\n\ncd");
}

#[test]
fn selection_ending_at_column_zero_keeps_the_last_row_empty() {
    let text = vec!["ab".to_string(), "cd".to_string()];
    let mut sel = LogSelection::default();
    sel.start(0, 1);
    sel.update(1, 0);
    assert_eq!(sel.extract(&text), "b\n");
}
