use rke2_image_manager::output::{env_no_color, format_row, render_table, OutputOptions};

#[test]
fn test_render_table_aligns_columns() {
    let headers = ["NAME", "VERSION"];
    let rows = vec![
        vec!["adguardhome".to_string(), "v1".to_string()],
        vec!["a".to_string(), "v0.107.68-1.0.2".to_string()],
    ];
    let table = render_table(&headers, &rows);
    let lines: Vec<&str> = table.lines().collect();
    assert_eq!(lines[0], "NAME         VERSION");
    assert_eq!(lines[1], "adguardhome  v1");
    assert_eq!(lines[2], "a            v0.107.68-1.0.2");
}

#[test]
fn test_render_table_empty_rows() {
    let table = render_table(&["NAME"], &[]);
    assert_eq!(table, "NAME\n");
}

#[test]
fn render_table_exact_text() {
    let table = render_table(
        &["A", "BB"],
        &[vec!["xyz".to_string(), "1".to_string()], vec!["".to_string(), "".to_string()]],
    );
    assert_eq!(table, "A    BB\nxyz  1\n\n");
}

#[test]
fn format_row_pads_every_cell() {
    let row = format_row(&["ab".to_string(), "c".to_string(), "d".to_string()], &[4, 3, 9]);
    assert_eq!(row, "ab    c    d        ");
}

#[test]
fn format_row_cell_past_widths_keeps_its_length() {
    let row = format_row(&["ab".to_string(), "xyz".to_string()], &[4]);
    assert_eq!(row, "ab    xyz");
}

#[test]
fn output_options_color_rules() {
    let o = OutputOptions::new(false, false, false, false, true);
    assert!(o.color);
    assert!(!OutputOptions::new(true, false, false, false, true).color);
    assert!(!OutputOptions::new(false, false, true, false, true).color);
    assert!(!OutputOptions::new(false, false, false, true, true).color);
    assert!(!OutputOptions::new(false, false, false, false, false).color);
    let q = OutputOptions::new(true, true, false, false, false);
    assert!(q.json && q.quiet);
}

#[test]
fn env_no_color_values() {
    assert!(!env_no_color(None));
    assert!(!env_no_color(Some("")));
    assert!(env_no_color(Some("1")));
}
