use rke2_image_manager::dockerfile::{
    classify_dockerfile, discover_image_families, extract_version, parse_version_comment,
    DiscoveryResult, ScanEntry,
};
use rke2_image_manager::models::ImageFamily;
use rke2_image_manager::names::NameMap;

/// A file met while walking the images directory: its path below it and
/// its contents.
fn file(rel: &[&str], content: &str) -> ScanEntry {
    ScanEntry::File {
        rel: rel.iter().map(|s| s.to_string()).collect(),
        display: format!("/base/{}", rel.join("/")),
        lines: content.lines().map(|l| l.to_string()).collect(),
    }
}

fn discover_all(entries: Vec<ScanEntry>) -> DiscoveryResult {
    discover_image_families(&entries).expect("discover_image_families failed")
}

fn discover(entries: Vec<ScanEntry>) -> NameMap<ImageFamily> {
    discover_all(entries).families
}

// -- version comments ----------------------------------------------------

#[test]
fn test_parse_version_comment_v_prefix() {
    assert_eq!(parse_version_comment("v0.107.68-1.0.2"), Some("v0.107.68-1.0.2".to_string()));
    assert_eq!(parse_version_comment("v1.0"), Some("v1.0".to_string()));
}

#[test]
fn test_parse_version_comment_digit_prefix() {
    assert_eq!(parse_version_comment("2.10.2-0.4.0"), Some("2.10.2-0.4.0".to_string()));
    assert_eq!(parse_version_comment("1.1.1"), Some("1.1.1".to_string()));
}

#[test]
fn test_parse_version_comment_trailing_text() {
    assert_eq!(parse_version_comment("v1.0.0-1.0.0 trailing"), Some("v1.0.0-1.0.0".to_string()));
    assert_eq!(parse_version_comment("1.2.3 stuff"), Some("1.2.3".to_string()));
}

#[test]
fn test_parse_version_comment_rejects_non_version() {
    assert_eq!(parse_version_comment("version 1.2.3"), None);
    assert_eq!(parse_version_comment(""), None);
    assert_eq!(parse_version_comment("latest"), None);
}

#[test]
fn parse_version_comment_edge_cases() {
    assert_eq!(parse_version_comment("  v2 "), Some("v2".to_string()));
    assert_eq!(parse_version_comment("v"), None);
    assert_eq!(parse_version_comment("vx1"), None);
    assert_eq!(parse_version_comment("3\tnext"), Some("3".to_string()));
}

#[test]
fn extract_version_uses_first_version_comment() {
    let lines: Vec<String> = vec![
        "FROM ubuntu".to_string(),
        "# maintained by me".to_string(),
        "  ## v1.2.3 note".to_string(),
        "# 9.9.9".to_string(),
    ];
    assert_eq!(extract_version(&lines), Some("v1.2.3".to_string()));
    assert_eq!(extract_version(&vec!["FROM ubuntu".to_string()]), None);
    assert_eq!(extract_version(&vec!["RUN x # 1.0".to_string()]), None);
}

#[test]
fn classify_dockerfile_forms() {
    let rel = |v: &[&str]| v.iter().map(|s| s.to_string()).collect::<Vec<String>>();
    assert_eq!(
        classify_dockerfile(&rel(&["caddy.dockerfile"])),
        Some(("caddy".to_string(), "caddy.dockerfile".to_string(), ".".to_string()))
    );
    assert_eq!(
        classify_dockerfile(&rel(&["a", "b", "x.dockerfile"])),
        Some(("x".to_string(), "x.dockerfile".to_string(), "a/b".to_string()))
    );
    assert_eq!(
        classify_dockerfile(&rel(&["a", "b", "Dockerfile"])),
        Some(("b".to_string(), "Dockerfile".to_string(), "a/b".to_string()))
    );
    assert_eq!(classify_dockerfile(&rel(&["Dockerfile"])), None);
    assert_eq!(classify_dockerfile(&rel(&["readme.txt"])), None);
}

// -- discovery -------------------------------------------------------------

#[test]
fn test_discover_simple_dockerfiles() {
    let families = discover(vec![
        file(&["adguardhome.dockerfile"], "# v0.107.68-1.0.2\nFROM adguard/adguardhome:v0.107.68\n"),
        file(&["caddy.dockerfile"], "# 2.10.2-0.4.0\nFROM caddy:2.10.2\n"),
    ]);

    assert_eq!(families.len(), 2);

    let adguard = families.get("adguardhome").expect("adguardhome not found");
    assert_eq!(adguard.name, "adguardhome");
    assert_eq!(adguard.current_version.as_deref(), Some("v0.107.68-1.0.2"));

    let caddy = families.get("caddy").expect("caddy not found");
    assert_eq!(caddy.name, "caddy");
    assert_eq!(caddy.current_version.as_deref(), Some("2.10.2-0.4.0"));
}

#[test]
fn test_discover_nested_dockerfile() {
    let families = discover(vec![
        file(&["immich_transfer", "immich_transfer.dockerfile"], "# 1.1.1\nFROM python:3.13-slim\n"),
        file(
            &["portal_knights_dedicated_server", "Dockerfile"],
            "# v1.0.0-1.0.0\nFROM lancommander/wine:latest-amd64\n",
        ),
    ]);

    assert_eq!(families.len(), 2);

    let immich = families.get("immich_transfer").expect("immich_transfer not found");
    assert_eq!(immich.name, "immich_transfer");
    assert_eq!(immich.current_version.as_deref(), Some("1.1.1"));
    assert_eq!(immich.current.as_ref().unwrap().dockerfile_path, "immich_transfer.dockerfile");
    assert_eq!(immich.current.as_ref().unwrap().context_dir, "immich_transfer");

    let portal = families
        .get("portal_knights_dedicated_server")
        .expect("portal_knights_dedicated_server not found");
    assert_eq!(portal.name, "portal_knights_dedicated_server");
    assert_eq!(portal.current_version.as_deref(), Some("v1.0.0-1.0.0"));
    assert_eq!(portal.current.as_ref().unwrap().dockerfile_path, "Dockerfile");
    assert_eq!(portal.current.as_ref().unwrap().context_dir, "portal_knights_dedicated_server");
}

#[test]
fn test_discover_no_version_comment_uses_latest() {
    let discovery = discover_all(vec![file(&["nover.dockerfile"], "FROM ubuntu:latest\n")]);

    assert_eq!(discovery.families.len(), 1);
    let nover = discovery.families.get("nover").expect("nover not found");
    assert_eq!(nover.current_version.as_deref(), Some("latest"));
    assert!(!discovery.warnings.is_empty());
    assert!(
        discovery.warnings.iter().any(|w| w.contains("nover.dockerfile")),
        "expected warning about missing version: {:?}",
        discovery.warnings
    );
}

#[test]
fn test_discover_ignores_non_dockerfiles() {
    let families = discover(vec![
        file(&["adguardhome.dockerfile"], "# v0.107.68-1.0.2\nFROM adguard/adguardhome:v0.107.68\n"),
        file(&["readme.txt"], "This is not a dockerfile\n"),
        file(&["script.sh"], "#!/bin/bash\necho hello\n"),
    ]);

    assert_eq!(families.len(), 1);
    assert!(families.contains_key("adguardhome"));
}

#[test]
fn test_discover_handles_subdirs_with_dockerfile() {
    let families = discover(vec![file(&["myimage", "Dockerfile"], "# v2.0.0-1.0.0\nFROM ubuntu:latest\n")]);

    assert_eq!(families.len(), 1);
    let myimage = families.get("myimage").expect("myimage not found");
    assert_eq!(myimage.current_version.as_deref(), Some("v2.0.0-1.0.0"));
}

#[test]
fn test_discover_empty_dir() {
    let discovery = discover_all(Vec::new());

    assert!(discovery.families.len() == 0);
    assert!(discovery.warnings.is_empty());
}

#[test]
fn test_discover_respects_existing_family_name() {
    let families = discover(vec![file(
        &["adguardhome.dockerfile"],
        "# v0.107.68-1.0.2\nFROM adguard/adguardhome:v0.107.68\n",
    )]);

    let adguard = families.get("adguardhome").expect("adguardhome not found");
    assert_eq!(adguard.current.as_ref().unwrap().name, "adguardhome");
    assert_eq!(adguard.current.as_ref().unwrap().version, "v0.107.68-1.0.2");
    assert!(!adguard.current.as_ref().unwrap().local_tarball);
    assert!(adguard.current.as_ref().unwrap().build_log.is_empty());
}

#[test]
fn test_discover_multiple_versions_different_files() {
    let families = discover(vec![
        file(&["radarr.dockerfile"], "# v5.28.0.10274-1.0.3\nFROM radarr:5.28.0\n"),
        file(&["sonarr.dockerfile"], "# v4.0.15.2941-1.0.0\nFROM sonarr:4.0.15\n"),
        file(&["jellyfin.dockerfile"], "# v10.11.7-1.1.3\nFROM jellyfin:10.11.7\n"),
        file(&["sabnzbd.dockerfile"], "# v4.5.5-1.0.3\nFROM sabnzbd:4.5.5\n"),
    ]);

    assert_eq!(families.len(), 4);

    let radarr = families.get("radarr").expect("radarr not found");
    assert_eq!(radarr.current_version.as_deref(), Some("v5.28.0.10274-1.0.3"));

    let sonarr = families.get("sonarr").expect("sonarr not found");
    assert_eq!(sonarr.current_version.as_deref(), Some("v4.0.15.2941-1.0.0"));

    let jellyfin = families.get("jellyfin").expect("jellyfin not found");
    assert_eq!(jellyfin.current_version.as_deref(), Some("v10.11.7-1.1.3"));

    let sabnzbd = families.get("sabnzbd").expect("sabnzbd not found");
    assert_eq!(sabnzbd.current_version.as_deref(), Some("v4.5.5-1.0.3"));
}

#[test]
fn test_discover_lubelogger() {
    let families = discover(vec![file(
        &["lubelogger.dockerfile"],
        "# v1.5.4-1.0.0\nFROM lubelogger/lubelogger:latest\n",
    )]);

    let lubelogger = families.get("lubelogger").expect("lubelogger not found");
    assert_eq!(lubelogger.name, "lubelogger");
    assert_eq!(lubelogger.current_version.as_deref(), Some("v1.5.4-1.0.0"));
}

#[test]
fn test_discover_kavita() {
    let families = discover(vec![file(
        &["kavita.dockerfile"],
        "# v0.8.8.3-1.0.1\nFROM kavita/kavita:latest\n",
    )]);

    let kavita = families.get("kavita").expect("kavita not found");
    assert_eq!(kavita.name, "kavita");
    assert_eq!(kavita.current_version.as_deref(), Some("v0.8.8.3-1.0.1"));
}

#[test]
fn test_discover_duplicate_name_produces_warning() {
    let discovery = discover_all(vec![
        file(&["inner.dockerfile"], "# v1.0.0\nFROM ubuntu:latest\n"),
        file(&["sub", "inner.dockerfile"], "# v2.0.0\nFROM ubuntu:latest\n"),
    ]);

    assert_eq!(discovery.families.len(), 1);
    assert!(!discovery.warnings.is_empty());
    assert!(
        discovery.warnings.iter().any(|w| w.contains("inner") && w.contains("Duplicate")),
        "expected duplicate warning, got: {:?}",
        discovery.warnings
    );
    assert_eq!(
        discovery.families.get("inner").unwrap().current_version.as_deref(),
        Some("v1.0.0")
    );
}

#[test]
fn test_discover_stores_paths_relative_to_base_dir() {
    let families = discover(vec![
        file(&["adguardhome.dockerfile"], "# v0.107.68-1.0.2\nFROM adguard/adguardhome:v0.107.68\n"),
        file(&["immich_transfer", "immich_transfer.dockerfile"], "# 1.1.1\nFROM python:3.13-slim\n"),
        file(
            &["portal_knights_dedicated_server", "Dockerfile"],
            "# v1.0.0-1.0.0\nFROM lancommander/wine:latest-amd64\n",
        ),
    ]);

    let adguard = families.get("adguardhome").expect("adguardhome not found");
    let adguard_path = &adguard.current.as_ref().unwrap().dockerfile_path;
    let adguard_ctx = &adguard.current.as_ref().unwrap().context_dir;
    assert_eq!(adguard_path, "adguardhome.dockerfile");
    assert_eq!(adguard_ctx, ".");
    assert!(!adguard_path.contains(".."));
    assert!(!adguard_ctx.contains(".."));

    let immich = families.get("immich_transfer").expect("immich_transfer not found");
    let immich_path = &immich.current.as_ref().unwrap().dockerfile_path;
    let immich_ctx = &immich.current.as_ref().unwrap().context_dir;
    assert_eq!(immich_path, "immich_transfer.dockerfile");
    assert_eq!(immich_ctx, "immich_transfer");
    assert!(!immich_path.contains(".."));
    assert!(!immich_ctx.contains(".."));

    let portal = families
        .get("portal_knights_dedicated_server")
        .expect("portal_knights_dedicated_server not found");
    let portal_path = &portal.current.as_ref().unwrap().dockerfile_path;
    let portal_ctx = &portal.current.as_ref().unwrap().context_dir;
    assert_eq!(portal_path, "Dockerfile");
    assert_eq!(portal_ctx, "portal_knights_dedicated_server");
    assert!(!portal_path.contains(".."));
    assert!(!portal_ctx.contains(".."));
}

#[test]
fn discover_warning_texts() {
    let discovery = discover_all(vec![
        ScanEntry::Unreadable { dir: "/base/locked".to_string(), error: "Permission denied".to_string() },
        file(&["nover.dockerfile"], "FROM ubuntu\n"),
        file(&["x", "nover.dockerfile"], "# 1.0\n"),
    ]);
    assert_eq!(
        discovery.warnings,
        vec![
            "Failed to read /base/locked: Permission denied".to_string(),
            "No version comment found in /base/nover.dockerfile -- using 'latest'".to_string(),
            "Duplicate image name 'nover' at /base/x/nover.dockerfile; skipping".to_string(),
        ]
    );
}

#[test]
fn discovered_families_are_fresh() {
    let families = discover(vec![file(&["a.dockerfile"], "# 1.0\n")]);
    let a = families.get("a").unwrap();
    assert!(a.stale_versions.is_empty());
    assert_eq!(a.remote_presence.len(), 0);
    let cur = a.current.as_ref().unwrap();
    assert_eq!(cur.server_presence.len(), 0);
    assert!(!cur.local_tarball);
}

#[test]
fn versions_are_single_words() {
    for comment in ["v1.2 extra", "3.0\tnote", "  v9-beta  ", "12"] {
        let v = parse_version_comment(comment).unwrap();
        assert!(!v.is_empty());
        assert!(v.starts_with('v') || v.chars().next().unwrap().is_ascii_digit());
        assert!(!v.chars().any(|c| c.is_whitespace()));
    }
}
