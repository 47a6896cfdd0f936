use rke2_image_manager::models::{BuildState, ImageTableRow, ManagedImage, UnknownTarball};
use rke2_image_manager::names::{NameMap, NameSet};
use rke2_image_manager::popup::{build_cleanup_actions, build_current_actions, Action, Popup};
use rke2_image_manager::search::{rows_to_info, RowInfo, Searcher};

fn image(name: &str, version: &str) -> ManagedImage {
    ManagedImage {
        name: name.to_string(),
        version: version.to_string(),
        dockerfile_path: format!("{}.dockerfile", name),
        context_dir: ".".to_string(),
        local_tarball: false,
        server_presence: NameMap::new(),
        build_state: BuildState::Idle,
        build_log: Vec::new(),
    }
}

#[test]
fn current_menu_entries() {
    let mut img = image("a", "1");
    let plain = build_current_actions(&img);
    let summary: Vec<(Action, bool, String)> =
        plain.iter().map(|e| (e.action, e.dimmed, e.label.clone())).collect();
    assert_eq!(
        summary,
        vec![
            (Action::Build, false, "  Build".to_string()),
            (Action::Deploy, true, "  Deploy to servers...".to_string()),
            (Action::Remove, true, "  Remove from servers...".to_string()),
            (Action::ViewLogs, true, "  View build logs".to_string()),
            (Action::DumpLogs, true, "  Dump logs to file".to_string()),
            (Action::Cancel, false, "  Cancel".to_string()),
        ]
    );
    img.build_state = BuildState::Building;
    img.local_tarball = true;
    img.server_presence.insert("s1".to_string(), false);
    img.server_presence.insert("s2".to_string(), true);
    img.build_log.push("x".to_string());
    let busy = build_current_actions(&img);
    assert_eq!((busy[0].dimmed, busy[0].label.as_str()), (true, "  [Building...]"));
    assert!(!busy[1].dimmed && !busy[2].dimmed && !busy[3].dimmed && !busy[4].dimmed);
    assert!(img.present_on_any_server());
}

#[test]
fn cleanup_menu_entries() {
    let entries = build_cleanup_actions();
    assert_eq!(entries.len(), 2);
    assert_eq!((entries[0].action, entries[0].dimmed), (Action::Remove, false));
    assert_eq!((entries[1].action, entries[1].label.as_str()), (Action::Cancel, "  Cancel"));
    assert!(!Popup::Hidden.is_visible());
    assert!(Popup::Actions { entries, title: "t".to_string() }.is_visible());
}

#[test]
fn rows_to_info_names_each_row() {
    let rows = vec![
        ImageTableRow::Current(image("caddy", "2")),
        ImageTableRow::Stale { family_name: "caddy".to_string(), version: "1".to_string(), servers: NameSet::new() },
        ImageTableRow::Unknown(UnknownTarball { filename: "m.tar".to_string(), servers: NameSet::new() }),
    ];
    let infos = rows_to_info(&rows);
    let got: Vec<(usize, String, String)> =
        infos.iter().map(|i| (i.index, i.name.clone(), i.version.clone())).collect();
    assert_eq!(
        got,
        vec![
            (0, "caddy".to_string(), "2".to_string()),
            (1, "caddy".to_string(), "1".to_string()),
            (2, "m.tar".to_string(), String::new()),
        ]
    );
}

fn info(index: usize, name: &str, version: &str) -> RowInfo {
    RowInfo { index, name: name.to_string(), version: version.to_string() }
}

#[test]
fn searcher_filters_by_fuzzy_pattern() {
    let rows = vec![info(0, "adguardhome", "v2"), info(1, "caddy", "1.0"), info(2, "sonarr", "4")];
    let mut s = Searcher::new(&rows);
    assert_eq!(s.visible_indices, vec![0, 1, 2]);
    s.set_pattern("SON");
    assert_eq!(s.pattern, "son");
    assert_eq!(s.visible_indices, vec![2]);
    s.set_pattern("zzz");
    assert!(s.visible_indices.is_empty());
    s.set_pattern("");
    assert_eq!(s.visible_indices, vec![0, 1, 2]);
    s.update_items(&rows[..1]);
    assert_eq!(s.visible_indices, vec![0]);
}

#[test]
fn searcher_reports_the_rows_own_indices() {
    let rows = vec![info(7, "sonarr", "4"), info(3, "caddy", "1.0")];
    let mut s = Searcher::new(&rows);
    s.set_pattern("sonarr");
    assert_eq!(s.visible_indices, vec![7]);
    s.set_pattern("");
    assert_eq!(s.visible_indices, vec![0, 1]);
}

#[test]
fn searcher_settles_and_matches_accented_names() {
    let rows = vec![info(0, "cafe\u{301}-bar", "1"), info(1, "caddy", "2")];
    let mut s = Searcher::new(&rows);
    assert!(s.settled);
    s.set_pattern("cafe");
    assert!(s.settled);
    assert_eq!(s.visible_indices, vec![0]);
    s.set_pattern("cad");
    assert!(s.settled);
    assert_eq!(s.visible_indices, vec![1]);
}

#[test]
fn searcher_shows_every_matching_row_once() {
    let rows = vec![info(0, "abc", "1"), info(1, "zzz", "2"), info(2, "xabc", "3"), info(3, "abc-extra", "4")];
    let mut s = Searcher::new(&rows);
    s.set_pattern("abc");
    assert!(s.settled);
    let mut shown = s.visible_indices.clone();
    shown.sort();
    assert_eq!(shown, vec![0, 2, 3]);
    assert_eq!(s.positions.len(), 3);
}

#[test]
fn searcher_blank_pattern_keeps_every_row_in_order() {
    let rows = vec![info(0, "zeta", "1"), info(1, "alpha", "2"), info(2, "mid", "3")];
    let mut s = Searcher::new(&rows);
    s.set_pattern("!");
    assert!(s.settled);
    assert_eq!(s.visible_indices, vec![0, 1, 2]);
}
