use rke2_image_manager::dockerfile::{discover_image_families, ScanEntry};
use rke2_image_manager::inventory::{any_scan_error, rows, Inventory};
use rke2_image_manager::models::{ImageTableRow, ScanStatus, Server, UnknownTarball};
use rke2_image_manager::names::NameSet;

fn file(rel: &[&str], content: &str) -> ScanEntry {
    ScanEntry::File {
        rel: rel.iter().map(|s| s.to_string()).collect(),
        display: format!("server_images/{}", rel.join("/")),
        lines: content.lines().map(|l| l.to_string()).collect(),
    }
}

fn set_of(v: &[&str]) -> NameSet {
    let mut s = NameSet::new();
    for x in v {
        s.insert(x.to_string());
    }
    s
}

fn server(name: &str) -> Server {
    Server {
        name: name.to_string(),
        host: format!("{}.local", name),
        user: "deploy".to_string(),
        port: 22,
        identity_file: None,
    }
}

/// An inventory as loading builds it: discovery over the given entries,
/// local tarballs marked from the staging listing, scans pending.
fn load(entries: Vec<ScanEntry>, staging: &[&str], servers: &[Server]) -> Inventory {
    let discovery = discover_image_families(&entries).expect("load failed");
    Inventory::from_discovery(discovery, &set_of(staging), servers)
}

#[test]
fn test_load_no_scan_discovers_families_and_local_tarballs() {
    let inv = load(
        vec![
            file(&["adguardhome.dockerfile"], "# v0.107.68-1.0.2\nFROM adguard/adguardhome:v0.107.68\n"),
            file(&["caddy.dockerfile"], "# 2.10.2-0.4.0\nFROM caddy:2.10.2\n"),
        ],
        &["adguardhome-v0.107.68-1.0.2.tar"],
        &[],
    );

    assert_eq!(inv.families.len(), 2);
    assert!(inv.server_names.is_empty());
    assert_eq!(inv.scan_status.len(), 0);

    let adguard = inv.families.get("adguardhome").expect("adguardhome missing");
    let current = adguard.current.as_ref().expect("current missing");
    assert!(current.local_tarball, "expected local tarball to be detected");

    let caddy = inv.families.get("caddy").expect("caddy missing");
    let caddy_current = caddy.current.as_ref().expect("current missing");
    assert!(!caddy_current.local_tarball);
}

#[test]
fn test_load_scan_true_with_no_servers_completes() {
    let inv = load(Vec::new(), &[], &[]);

    assert_eq!(inv.families.len(), 0);
    assert_eq!(inv.scan_status.len(), 0);
}

#[test]
fn test_rows_orders_current_then_stale_then_unknown() {
    let mut inv = load(
        vec![file(&["adguardhome.dockerfile"], "# v0.107.68-1.0.2\nFROM adguard/adguardhome:v0.107.68\n")],
        &[],
        &[],
    );

    let idx = inv.families.find("adguardhome").unwrap();
    let family = &mut inv.families.vals[idx];
    family.stale_versions.insert("v0.107.67-1.0.1".to_string());
    family
        .remote_presence
        .insert("v0.107.67-1.0.1".to_string(), NameSet::singleton("bamserve4".to_string()));
    inv.unknowns.push(UnknownTarball {
        filename: "mystery.tar".to_string(),
        servers: NameSet::singleton("bamserve5".to_string()),
    });

    let result = rows(&inv);
    assert_eq!(result.len(), 3);
    assert!(matches!(result[0], ImageTableRow::Current(_)));
    assert!(matches!(result[1], ImageTableRow::Stale { .. }));
    assert!(matches!(result[2], ImageTableRow::Unknown(_)));
}

#[test]
fn test_rows_skips_unknowns_with_no_servers() {
    let mut inv = load(Vec::new(), &[], &[]);
    inv.unknowns.push(UnknownTarball {
        filename: "orphan.tar".to_string(),
        servers: NameSet::new(),
    });

    let result = rows(&inv);
    assert!(result.is_empty());
}

#[test]
fn load_with_servers_marks_scans_pending() {
    let inv = load(Vec::new(), &[], &[server("bamserve4"), server("bamserve5")]);
    assert_eq!(inv.server_names, vec!["bamserve4".to_string(), "bamserve5".to_string()]);
    assert_eq!(inv.scan_status.get("bamserve4"), Some(&ScanStatus::Pending));
    assert_eq!(inv.scan_status.get("bamserve5"), Some(&ScanStatus::Pending));
    assert!(!any_scan_error(&inv));
}

#[test]
fn load_keeps_discovery_warnings() {
    let inv = load(vec![file(&["nover.dockerfile"], "FROM x\n")], &[], &[]);
    assert_eq!(
        inv.warnings,
        vec!["No version comment found in server_images/nover.dockerfile -- using 'latest'".to_string()]
    );
}

#[test]
fn record_scan_success_and_failure() {
    let mut inv = load(
        vec![file(&["caddy.dockerfile"], "# 2.10.2-0.4.0\n")],
        &[],
        &[server("bamserve4"), server("bamserve5")],
    );
    inv.record_scan("bamserve4".to_string(), Ok(vec!["caddy-2.10.2-0.4.0.tar".to_string(), "x.tar".to_string()]));
    inv.record_scan("bamserve5".to_string(), Err("SSH timeout".to_string()));

    assert_eq!(inv.scan_status.get("bamserve4"), Some(&ScanStatus::Succeeded));
    assert_eq!(inv.scan_status.get("bamserve5"), Some(&ScanStatus::Error("SSH timeout".to_string())));
    assert!(any_scan_error(&inv));

    let caddy = inv.families.get("caddy").unwrap().current.as_ref().unwrap();
    assert_eq!(caddy.server_presence.get("bamserve4"), Some(&true));
    assert_eq!(caddy.server_presence.get("bamserve5"), None);
    assert_eq!(inv.unknowns.len(), 1);
    assert_eq!(inv.unknowns[0].filename, "x.tar");
}

#[test]
fn rows_list_stale_versions_in_name_order() {
    let mut inv = load(
        vec![
            file(&["b.dockerfile"], "# 2\n"),
            file(&["a.dockerfile"], "# 1\n"),
        ],
        &[],
        &[server("s1")],
    );
    inv.record_scan("s1".to_string(), Ok(vec!["b-0.3.tar".to_string(), "b-0.1.tar".to_string(), "a-1.tar".to_string()]));
    let result = rows(&inv);
    let labels: Vec<String> = result
        .iter()
        .map(|r| match r {
            ImageTableRow::Current(img) => format!("{}:{}", img.name, img.version),
            ImageTableRow::Stale { family_name, version, .. } => format!("{}~{}", family_name, version),
            ImageTableRow::Unknown(u) => u.filename.clone(),
        })
        .collect();
    assert_eq!(labels, vec!["a:1", "b:2", "b~0.1", "b~0.3"]);
}
