use rke2_image_manager::models::{BuildState, ImageTableRow, ManagedImage, ScanStatus, UnknownTarball};
use rke2_image_manager::names::{NameMap, NameSet};
use rke2_image_manager::popup::{build_cleanup_actions, Action};
use rke2_image_manager::view::{
    action_menu_lines, column_widths, header_cells, row_cells, search_bar_text, server_picker_lines,
    status_hint, status_line, visible_rows, Cell, ColumnWidth, Tone,
};

fn image(name: &str, version: &str) -> ManagedImage {
    ManagedImage {
        name: name.to_string(),
        version: version.to_string(),
        dockerfile_path: format!("{}.dockerfile", name),
        context_dir: ".".to_string(),
        local_tarball: false,
        server_presence: NameMap::new(),
        build_state: BuildState::Idle,
        build_log: Vec::new(),
    }
}

fn texts(cells: &[Cell]) -> Vec<(String, Tone)> {
    cells.iter().map(|c| (c.text.clone(), c.tone)).collect()
}

fn t(s: &str, tone: Tone) -> (String, Tone) {
    (s.to_string(), tone)
}

fn names(v: &[&str]) -> Vec<String> {
    v.iter().map(|s| s.to_string()).collect()
}

fn status() -> NameMap<ScanStatus> {
    let mut m = NameMap::new();
    m.insert("s1".to_string(), ScanStatus::Succeeded);
    m.insert("s2".to_string(), ScanStatus::Pending);
    m.insert("s3".to_string(), ScanStatus::Error("x".to_string()));
    m
}

#[test]
fn current_row_cells() {
    let mut img = image("caddy", "2.10");
    img.local_tarball = true;
    img.server_presence.insert("s2".to_string(), true);
    img.server_presence.insert("s3".to_string(), false);
    let cells = row_cells(&ImageTableRow::Current(img), &names(&["s1", "s2", "s3", "s4"]), &status());
    assert_eq!(
        texts(&cells),
        vec![
            t("caddy  2.10", Tone::Plain),
            t("  ✓", Tone::Green),
            t("  ✗", Tone::Red),
            t("  ✓", Tone::Green),
            t("  ✗", Tone::Red),
            t("  ?", Tone::DarkGray),
        ]
    );
}

#[test]
fn building_row_cells() {
    let mut img = image("caddy", "2.10");
    img.build_state = BuildState::Building;
    let cells = row_cells(&ImageTableRow::Current(img), &[], &status());
    assert_eq!(
        texts(&cells),
        vec![t("caddy  2.10  ⏳", Tone::Yellow), t("  ⏳", Tone::Yellow)]
    );
}

#[test]
fn stale_and_unknown_row_cells() {
    let mut held = NameSet::new();
    held.insert("s2".to_string());
    let stale = ImageTableRow::Stale { family_name: "a".to_string(), version: "1".to_string(), servers: held };
    assert_eq!(
        texts(&row_cells(&stale, &names(&["s1", "s2", "s3"]), &status())),
        vec![
            t("  a  1", Tone::DarkGray),
            t("  —", Tone::DarkGray),
            t("  ✗", Tone::Red),
            t("  ✓", Tone::Yellow),
            t("  ?", Tone::DarkGray),
        ]
    );
    let unknown = ImageTableRow::Unknown(UnknownTarball { filename: "m.tar".to_string(), servers: NameSet::new() });
    assert_eq!(
        texts(&row_cells(&unknown, &names(&["s1"]), &status())),
        vec![t("? m.tar", Tone::DarkGray), t("  —", Tone::DarkGray), t("  ✗", Tone::Red)]
    );
}

#[test]
fn header_and_columns() {
    assert_eq!(
        texts(&header_cells(&names(&["s1"]))),
        vec![t("Image", Tone::Cyan), t("Local", Tone::Cyan), t("s1", Tone::Cyan)]
    );
    assert_eq!(
        column_widths(2),
        vec![ColumnWidth::AtLeast(30), ColumnWidth::Exactly(6), ColumnWidth::Exactly(5), ColumnWidth::Exactly(5)]
    );
}

#[test]
fn visible_rows_follow_search() {
    assert_eq!(visible_rows(3, false, &[2]), vec![0, 1, 2]);
    assert_eq!(visible_rows(3, true, &[]), vec![0, 1, 2]);
    assert_eq!(visible_rows(3, true, &[2, 7, 0]), vec![2, 0]);
}

#[test]
fn status_line_padding() {
    let hint = status_hint();
    let line = status_line("ok", false, 100);
    assert_eq!(line.text, "ok");
    assert_eq!(line.padding, 100 - 2 - hint.len());
    let building = status_line("ok", true, 100);
    assert_eq!(building.text, "ok  [b] Building...");
    assert_eq!(building.padding, 100 - 2 - 17 - hint.len());
    assert_eq!(status_line("a long message", true, 10).padding, 0);
}

#[test]
fn search_bar() {
    assert_eq!(search_bar_text(""), "Search: ");
    assert_eq!(search_bar_text("cad"), "Search: cad");
}

#[test]
fn menu_and_picker_lines() {
    let entries = build_cleanup_actions();
    let lines = texts(&action_menu_lines(&entries, 1));
    assert_eq!(lines.len(), entries.len());
    assert_eq!(lines[1].1, Tone::Inverted);
    assert_eq!(lines[0].1, if entries[0].dimmed { Tone::DarkGray } else { Tone::Plain });

    let picker = texts(&server_picker_lines(&[true, false], Action::Deploy, &names(&["s1"]), 2));
    assert_eq!(
        picker,
        vec![
            t("[x] s1", Tone::Plain),
            t("[ ] ?  (already present)", Tone::Plain),
            t("> [Continue]", Tone::Inverted),
            t("  [Cancel]", Tone::Plain),
        ]
    );
    let remove = texts(&server_picker_lines(&[false], Action::Remove, &names(&["s1"]), 0));
    assert_eq!(
        remove,
        vec![t("[ ] s1", Tone::Inverted), t("  [Continue]", Tone::Plain), t("  [Cancel]", Tone::Plain)]
    );
}
