use rke2_image_manager::app_state::{builds_in_progress, count_status, App, Area, Effect};
use rke2_image_manager::dockerfile::{discover_image_families, ScanEntry};
use rke2_image_manager::image_build::BuildEvent;
use rke2_image_manager::models::{BuildState, Config, ImageTableRow, PathsConfig, ScanStatus, Server};
use rke2_image_manager::names::NameSet;
use rke2_image_manager::popup::{Action, Popup};
use rke2_image_manager::remote::RemoteEvent;

fn file(rel: &[&str], content: &str) -> ScanEntry {
    ScanEntry::File {
        rel: rel.iter().map(|s| s.to_string()).collect(),
        display: rel.join("/"),
        lines: content.lines().map(|l| l.to_string()).collect(),
    }
}

fn server(name: &str) -> Server {
    Server {
        name: name.to_string(),
        host: format!("{}.lan", name),
        user: "root".to_string(),
        port: 22,
        identity_file: None,
    }
}

fn config(servers: &[&str]) -> Config {
    Config {
        paths: PathsConfig {
            server_images_dir: "images".to_string(),
            staging_dir: "staging".to_string(),
            rke2_images_dir: "/var/lib/rancher/rke2/agent/images".to_string(),
            image_registry: "registry.local".to_string(),
        },
        servers: servers.iter().map(|s| server(s)).collect(),
    }
}

/// A session over `adguardhome` (staged) and `caddy`, with two servers.
fn app() -> App {
    let discovery = discover_image_families(&vec![
        file(&["adguardhome.dockerfile"], "# v2\n"),
        file(&["caddy.dockerfile"], "# 1.0\n"),
    ])
    .unwrap();
    let mut staged = NameSet::new();
    staged.insert("adguardhome-v2.tar".to_string());
    App::new(config(&["s1", "s2"]), discovery, &staged)
}

fn scan(app: &mut App, server: &str, files: &[&str]) {
    app.process_remote_event(RemoteEvent::Scan {
        server_name: server.to_string(),
        filenames: Ok(files.iter().map(|s| s.to_string()).collect()),
    });
}

fn labels(app: &App) -> Vec<String> {
    app.rows
        .iter()
        .map(|r| match r {
            ImageTableRow::Current(img) => format!("{}:{}", img.name, img.version),
            ImageTableRow::Stale { family_name, version, .. } => format!("{}~{}", family_name, version),
            ImageTableRow::Unknown(u) => u.filename.clone(),
        })
        .collect()
}

#[test]
fn new_session_starts_scanning() {
    let a = app();
    assert!(a.running);
    assert_eq!(a.status_message, "Scanning 2 servers...");
    assert_eq!(labels(&a), vec!["adguardhome:v2", "caddy:1.0"]);
    assert_eq!(a.server_scan_status.get("s1"), Some(&ScanStatus::Pending));
    assert_eq!(a.selected_row_index(), Some(0));
    assert!(matches!(a.popup, Popup::Hidden));
}

#[test]
fn new_session_counts_startup_warnings() {
    let discovery = discover_image_families(&vec![file(&["x.dockerfile"], "FROM a\n")]).unwrap();
    let a = App::new(config(&["s1"]), discovery, &NameSet::new());
    assert_eq!(a.status_message, "Scanning 1 servers... (1 startup warnings)");
}

#[test]
fn selection_wraps_both_ways() {
    let mut a = app();
    a.move_selection(-1);
    assert_eq!(a.selected_row, 1);
    a.move_selection(1);
    assert_eq!(a.selected_row, 0);
    a.move_selection(5);
    assert_eq!(a.selected_row, 1);
}

#[test]
fn scans_update_rows_and_status() {
    let mut a = app();
    scan(&mut a, "s1", &["adguardhome-v1.tar", "mystery.tar"]);
    assert_eq!(a.status_message, "Scanning servers... 1/2");
    a.process_remote_event(RemoteEvent::Scan { server_name: "s2".to_string(), filenames: Err("timeout".to_string()) });
    assert_eq!(a.status_message, "2 managed (1 stale) | 1 unknown | 0 building...");
    assert_eq!(a.server_scan_status.get("s2"), Some(&ScanStatus::Error("timeout".to_string())));
    assert_eq!(labels(&a), vec!["adguardhome:v2", "adguardhome~v1", "caddy:1.0", "mystery.tar"]);
}

#[test]
fn action_menu_for_current_row() {
    let mut a = app();
    a.open_action_popup();
    match &a.popup {
        Popup::Actions { entries, title } => {
            assert_eq!(title, "adguardhome v2");
            assert_eq!(entries.len(), 6);
            assert!(!entries[1].dimmed, "staged tarball makes deploy available");
            assert!(entries[2].dimmed, "no server holds it yet");
        }
        _ => panic!("expected the action menu"),
    }
    a.popup_move(-1);
    assert_eq!(a.popup_selection, 5);
    assert!(matches!(a.popup_confirm(), Effect::Nothing));
    assert!(matches!(a.popup, Popup::Hidden));
}

#[test]
fn deploy_through_picker() {
    let mut a = app();
    scan(&mut a, "s1", &["adguardhome-v2.tar"]);
    scan(&mut a, "s2", &[]);
    a.selected_row = 0;
    a.open_action_popup();
    a.popup_move(1);
    assert!(matches!(a.popup_confirm(), Effect::Nothing));
    match &a.popup {
        Popup::ServerPicker { selected, for_action, title, .. } => {
            assert_eq!(selected, &vec![false, true]);
            assert_eq!(*for_action, Action::Deploy);
            assert_eq!(title, "Deploy adguardhome to...");
        }
        _ => panic!("expected the server picker"),
    }
    a.popup_move(2);
    match a.popup_confirm() {
        Effect::Deploy { image_name, tarball, selected, target_count } => {
            assert_eq!(image_name, "adguardhome");
            assert_eq!(tarball, "adguardhome-v2.tar");
            assert_eq!(selected, vec![false, true]);
            assert_eq!(target_count, 1);
        }
        _ => panic!("expected a deploy"),
    }
    a.begin_deploy("adguardhome", 1, true);
    assert_eq!(a.status_message, "Deploying adguardhome...");
    assert!(a.operation_in_flight);
    a.process_remote_event(RemoteEvent::Deploy { server_name: "s2".to_string(), success: true, error: None });
    assert!(!a.operation_in_flight);
    match &a.rows[0] {
        ImageTableRow::Current(img) => assert_eq!(img.server_presence.get("s2"), Some(&true)),
        _ => panic!("expected the current row"),
    }
}

#[test]
fn deploy_without_tarball_asks_for_build() {
    let mut a = app();
    a.begin_deploy("caddy", 2, false);
    assert_eq!(a.status_message, "No local tarball for caddy (build first)");
    assert!(!a.operation_in_flight);
}

#[test]
fn removing_last_holder_drops_stale_row() {
    let mut a = app();
    scan(&mut a, "s1", &["adguardhome-v1.tar"]);
    scan(&mut a, "s2", &[]);
    assert_eq!(labels(&a), vec!["adguardhome:v2", "adguardhome~v1", "caddy:1.0"]);
    a.selected_row = 1;
    a.open_action_popup();
    a.popup_confirm();
    match &a.popup {
        Popup::ServerPicker { selected, .. } => assert_eq!(selected, &vec![true, false]),
        _ => panic!("expected the server picker"),
    }
    a.popup_move(2);
    match a.popup_confirm() {
        Effect::Remove { tarball, selected } => {
            assert_eq!(tarball, "adguardhome-v1.tar");
            assert_eq!(selected, vec![true, false]);
        }
        _ => panic!("expected a removal"),
    }
    assert_eq!(a.status_message, "Removing adguardhome-v1.tar from servers...");
    a.process_remote_event(RemoteEvent::Remove {
        server_name: "s1".to_string(),
        tarball: "adguardhome-v1.tar".to_string(),
        success: true,
        error: None,
    });
    assert_eq!(labels(&a), vec!["adguardhome:v2", "caddy:1.0"]);
    assert_eq!(a.status_message, "2 managed (0 stale) | 0 unknown | 0 building...");
}

#[test]
fn picker_with_nothing_ticked() {
    let mut a = app();
    a.open_server_picker(Action::Remove, 1);
    a.popup_move(2);
    assert!(matches!(a.popup_confirm(), Effect::Nothing));
    assert_eq!(a.status_message, "No servers selected");
}

#[test]
fn build_events_are_applied_in_sequence_order() {
    let mut a = app();
    a.selected_row = 1;
    let img = a.start_build_for_row().expect("build starts");
    assert_eq!(img.name, "caddy");
    assert_eq!(a.status_message, "Building caddy...");
    assert!(a.start_build_for_row().is_none());
    assert_eq!(a.status_message, "Already building this image");

    let line = |s: &str, seq: u64| BuildEvent::LogLine { image_name: "caddy".to_string(), line: s.to_string(), seq };
    let events = vec![
        BuildEvent::BuildComplete { image_name: "caddy".to_string(), result: Ok(()), tarball_written: true },
        line("second", 2),
        line("first", 1),
    ];
    assert!(a.apply_build_events(&events));
    match &a.rows[1] {
        ImageTableRow::Current(img) => {
            assert_eq!(img.build_log, vec!["first".to_string(), "second".to_string()]);
            assert_eq!(img.build_state, BuildState::Success);
        }
        _ => panic!("expected the current row"),
    }
    assert_eq!(builds_in_progress(&a.families), 0);
    assert_eq!(a.current_build_name, None);
    assert_eq!(a.status_message, "2 managed (0 stale) | 0 unknown | 0 building...");
}

#[test]
fn failed_build_is_recorded() {
    let mut a = app();
    a.start_build_for_row();
    let done = BuildEvent::BuildComplete {
        image_name: "adguardhome".to_string(),
        result: Err("podman build exited with status: 1".to_string()),
        tarball_written: false,
    };
    assert!(!a.apply_build_event(&done));
    match &a.rows[0] {
        ImageTableRow::Current(img) => {
            assert_eq!(img.build_state, BuildState::Failed("podman build exited with status: 1".to_string()))
        }
        _ => panic!("expected the current row"),
    }
}

#[test]
fn log_dump_requests() {
    let mut a = app();
    assert!(a.dump_current_log().is_none());
    assert_eq!(a.status_message, "No build log to dump");
    a.start_build_for_row();
    a.apply_build_event(&BuildEvent::LogLine { image_name: "adguardhome".to_string(), line: "x".to_string(), seq: 0 });
    let (name, version, lines) = a.dump_current_log().unwrap();
    assert_eq!((name.as_str(), version.as_str()), ("adguardhome", "v2"));
    assert_eq!(lines, vec!["x".to_string()]);
    a.log_dumped(Ok("staging/logs/adguardhome-v2-1.log".to_string()));
    assert_eq!(a.status_message, "Dumped logs to staging/logs/adguardhome-v2-1.log");
    a.log_dumped(Err("disk full".to_string()));
    assert_eq!(a.status_message, "Failed to dump logs: disk full");
}

#[test]
fn log_viewer_mouse_mapping() {
    let mut a = app();
    a.open_log_viewer("caddy", vec!["one".to_string(), "two".to_string()]);
    assert!(a.viewing_logs);
    assert_eq!(a.current_log_title, "Build Log: caddy");
    a.log_area = Area { x: 0, y: 0, width: 20, height: 10 };
    assert_eq!(a.mouse_to_log_text(3, 2), Some((1, 2)));
    assert_eq!(a.mouse_to_log_text(0, 2), None);
    assert_eq!(a.mouse_to_log_text(3, 3), None);
    a.handle_log_mouse_down(1, 1);
    a.handle_log_mouse_drag(3, 2);
    assert_eq!(a.log_selection.extract(&a.current_log_lines), "one\ntw");
    a.close_log_viewer();
    assert!(!a.viewing_logs);
    assert!(a.current_log_lines.is_empty());
}

#[test]
fn search_narrows_the_table() {
    let mut a = app();
    a.search_active = true;
    a.search_push('c');
    a.search_push('a');
    a.search_push('d');
    assert_eq!(a.search_query, "cad");
    assert_eq!(a.filtered_indices, vec![1]);
    assert_eq!(a.selected_row_index(), Some(1));
    a.search_pop();
    assert_eq!(a.search_query, "ca");
    a.search_clear();
    assert_eq!(a.filtered_indices, vec![0, 1]);
}

#[test]
fn quit_stops_the_session() {
    let mut a = app();
    a.quit();
    assert!(!a.running);
}

#[test]
fn build_log_keeps_the_newest_lines() {
    let mut a = app();
    a.start_build_for_row();
    let events: Vec<BuildEvent> = (0..10_005u64)
        .map(|i| BuildEvent::LogLine { image_name: "adguardhome".to_string(), line: i.to_string(), seq: i })
        .collect();
    a.apply_build_events(&events);
    let img = a.families.get("adguardhome").unwrap().current.as_ref().unwrap();
    assert_eq!(img.build_log.len(), 10_000);
    assert_eq!(img.build_log[0], "5");
    assert_eq!(img.build_log[9_999], "10004");
    assert_eq!(a.current_log_lines.len(), 10_000);
    assert_eq!(a.current_log_lines[0], "5");
}

#[test]
fn removing_an_unknown_tarball_everywhere_drops_it() {
    let mut a = app();
    scan(&mut a, "s1", &["mystery.tar"]);
    scan(&mut a, "s2", &["mystery.tar"]);
    let remove = |a: &mut App, server: &str| {
        a.process_remote_event(RemoteEvent::Remove {
            server_name: server.to_string(),
            tarball: "mystery.tar".to_string(),
            success: true,
            error: None,
        })
    };
    remove(&mut a, "s1");
    assert_eq!(a.unknowns.len(), 1);
    assert!(a.unknowns[0].servers.contains("s2"));
    remove(&mut a, "s2");
    assert!(a.unknowns.is_empty());
}

#[test]
fn failed_removal_is_reported() {
    let mut a = app();
    scan(&mut a, "s1", &["mystery.tar"]);
    a.operation_in_flight = true;
    a.operation_expected = 2;
    a.process_remote_event(RemoteEvent::Remove {
        server_name: "s1".to_string(),
        tarball: "mystery.tar".to_string(),
        success: false,
        error: Some("Permission denied".to_string()),
    });
    assert_eq!(a.status_message, "Remove failed on s1: Permission denied");
    assert_eq!(a.unknowns.len(), 1);
    assert!(a.operation_in_flight);
}

#[test]
fn count_status_counts_the_inventory() {
    let mut a = app();
    assert_eq!(count_status(&a, true), "2 managed (0 stale) | 0 unknown | 0 building...");
    a.start_build_for_row();
    assert_eq!(count_status(&a, true), "2 managed (0 stale) | 0 unknown | 1 building...");
    assert_eq!(count_status(&a, false), "2 managed (0 stale) | 0 unknown | 0 building...");
}

#[test]
fn picker_for_unknown_tarball_ticks_its_holders() {
    let mut a = app();
    scan(&mut a, "s2", &["mystery.tar"]);
    scan(&mut a, "s1", &[]);
    let idx = a
        .rows
        .iter()
        .position(|r| matches!(r, ImageTableRow::Unknown(_)))
        .expect("an unknown row");
    a.open_server_picker(Action::Remove, idx);
    match &a.popup {
        Popup::ServerPicker { selected, for_action, row_index, server_names, .. } => {
            assert_eq!(server_names, &vec!["s1".to_string(), "s2".to_string()]);
            assert_eq!(selected, &vec![false, true]);
            assert_eq!(*for_action, Action::Remove);
            assert_eq!(*row_index, idx);
        }
        _ => panic!("expected the server picker"),
    }
    assert_eq!(a.popup_selection, 0);
}

#[test]
fn new_session_marks_staged_tarballs_and_pending_scans() {
    let a = app();
    let adguard = a.families.get("adguardhome").unwrap().current.as_ref().unwrap();
    assert!(adguard.local_tarball);
    let caddy = a.families.get("caddy").unwrap().current.as_ref().unwrap();
    assert!(!caddy.local_tarball);
    assert_eq!(a.families.len(), 2);
    assert_eq!(a.server_scan_status.get("s2"), Some(&ScanStatus::Pending));
    assert_eq!(a.server_scan_status.len(), 2);
    assert_eq!(a.search_query, "");
}

#[test]
fn two_images_build_at_once() {
    let mut a = app();
    a.selected_row = 0;
    assert_eq!(a.start_build_for_row().expect("first build").name, "adguardhome");
    a.selected_row = 1;
    assert_eq!(a.start_build_for_row().expect("second build").name, "caddy");
    assert_eq!(a.status_message, "Building caddy...");
    assert_eq!(builds_in_progress(&a.families), 2);
    assert_eq!(a.current_build_name.as_deref(), Some("caddy"));

    let done = BuildEvent::BuildComplete { image_name: "adguardhome".to_string(), result: Ok(()), tarball_written: false };
    assert!(!a.apply_build_event(&done));
    assert_eq!(builds_in_progress(&a.families), 1);
    assert_eq!(a.current_build_name.as_deref(), Some("caddy"));
    assert_eq!(a.status_message, "2 managed (0 stale) | 0 unknown | 1 building...");
}
