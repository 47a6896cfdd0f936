use rke2_image_manager::models::{BuildState, ImageFamily, ManagedImage, Server, UnknownTarball};
use rke2_image_manager::names::{NameMap, NameSet};
use rke2_image_manager::remote::{
    apply_scan_results, deploy_next, deploy_tarball, discard_upload_command, list_remote_tarballs,
    list_tarballs_command, local_tarball_names, move_into_place_command, parse_ls_output,
    preview_remove_command, refresh_local_tarballs, remove_command, remove_tarball, scp_args,
    ssh_args, tarball_filename, tarball_name_of_path, upload_command, CommandOutcome, DeployStage, DeployStep,
};

fn make_image(name: &str, version: &str) -> ManagedImage {
    ManagedImage {
        name: name.to_string(),
        version: version.to_string(),
        dockerfile_path: format!("{}.dockerfile", name),
        context_dir: ".".to_string(),
        local_tarball: false,
        server_presence: NameMap::new(),
        build_state: BuildState::Idle,
        build_log: Vec::new(),
    }
}

fn make_family(name: &str, version: &str) -> ImageFamily {
    ImageFamily {
        name: name.to_string(),
        current_version: Some(version.to_string()),
        current: Some(make_image(name, version)),
        stale_versions: NameSet::new(),
        remote_presence: NameMap::new(),
    }
}

fn names(v: &[&str]) -> Vec<String> {
    v.iter().map(|s| s.to_string()).collect()
}

fn set_of(v: &[&str]) -> NameSet {
    let mut s = NameSet::new();
    for x in v {
        s.insert(x.to_string());
    }
    s
}

fn server(name: &str, port: u16, identity: Option<&str>) -> Server {
    Server {
        name: name.to_string(),
        host: "10.0.0.5".to_string(),
        user: "deploy".to_string(),
        port,
        identity_file: identity.map(|s| s.to_string()),
    }
}

#[test]
fn test_apply_scan_results_current_version_present() {
    let mut families = NameMap::new();
    families.insert("adguardhome".to_string(), make_family("adguardhome", "v0.107.68-1.0.2"));
    let mut unknowns: Vec<UnknownTarball> = Vec::new();

    apply_scan_results(
        &mut families,
        &mut unknowns,
        "bamserve4",
        &["adguardhome-v0.107.68-1.0.2.tar".to_string()],
    );

    let adguard = families.get("adguardhome").unwrap();
    assert!(adguard.current.is_some());
    assert_eq!(
        adguard.current.as_ref().unwrap().server_presence.get("bamserve4"),
        Some(&true)
    );
    assert!(unknowns.is_empty());
}

#[test]
fn test_apply_scan_results_stale_version() {
    let mut families = NameMap::new();
    families.insert("adguardhome".to_string(), make_family("adguardhome", "v0.107.68-1.0.2"));
    let mut unknowns: Vec<UnknownTarball> = Vec::new();

    apply_scan_results(
        &mut families,
        &mut unknowns,
        "bamserve4",
        &["adguardhome-v0.107.50-1.0.1.tar".to_string()],
    );

    let adguard = families.get("adguardhome").unwrap();
    assert!(adguard.current.is_some());
    assert_eq!(
        adguard.current.as_ref().unwrap().server_presence.get("bamserve4"),
        Some(&false)
    );
    assert!(adguard.stale_versions.contains("v0.107.50-1.0.1"));
    assert_eq!(
        adguard.remote_presence.get("v0.107.50-1.0.1").map(|s| s.items.clone()),
        Some(names(&["bamserve4"]))
    );
    assert!(unknowns.is_empty());
}

#[test]
fn test_apply_scan_results_unknown_tarball() {
    let mut families = NameMap::new();
    families.insert("adguardhome".to_string(), make_family("adguardhome", "v0.107.68-1.0.2"));
    let mut unknowns: Vec<UnknownTarball> = Vec::new();

    apply_scan_results(
        &mut families,
        &mut unknowns,
        "bamserve4",
        &["portal-knights-server-v1.0.0.tar".to_string()],
    );

    assert_eq!(
        families
            .get("adguardhome")
            .unwrap()
            .current
            .as_ref()
            .unwrap()
            .server_presence
            .get("bamserve4"),
        Some(&false)
    );
    assert_eq!(unknowns.len(), 1);
    assert_eq!(unknowns[0].filename, "portal-knights-server-v1.0.0.tar");
    assert!(unknowns[0].servers.contains("bamserve4"));
}

#[test]
fn test_apply_scan_results_ignores_non_tar_files() {
    let mut families = NameMap::new();
    families.insert("adguardhome".to_string(), make_family("adguardhome", "v0.107.68-1.0.2"));
    let mut unknowns: Vec<UnknownTarball> = Vec::new();

    apply_scan_results(
        &mut families,
        &mut unknowns,
        "bamserve4",
        &[
            "somefile.txt".to_string(),
            "readme.md".to_string(),
            "adguardhome-v0.107.68-1.0.2.tar".to_string(),
        ],
    );

    let adguard = families.get("adguardhome").unwrap();
    assert_eq!(
        adguard.current.as_ref().unwrap().server_presence.get("bamserve4"),
        Some(&true)
    );
    assert!(unknowns.is_empty());
}

#[test]
fn test_apply_scan_results_multiple_servers_unknown_tarball() {
    let mut families = NameMap::new();
    families.insert("adguardhome".to_string(), make_family("adguardhome", "v0.107.68-1.0.2"));
    let mut unknowns: Vec<UnknownTarball> = Vec::new();

    apply_scan_results(&mut families, &mut unknowns, "bamserve4", &["strange-backup.tar".to_string()]);
    apply_scan_results(&mut families, &mut unknowns, "bamserve5", &["strange-backup.tar".to_string()]);

    assert_eq!(unknowns.len(), 1);
    assert_eq!(unknowns[0].servers.len(), 2);
    assert!(unknowns[0].servers.contains("bamserve4"));
    assert!(unknowns[0].servers.contains("bamserve5"));
}

#[test]
fn test_apply_scan_results_longest_prefix_matching() {
    let mut families = NameMap::new();
    families.insert("adguard".to_string(), make_family("adguard", "v1.0.0"));
    families.insert("adguardhome".to_string(), make_family("adguardhome", "v0.107.68-1.0.2"));
    let mut unknowns: Vec<UnknownTarball> = Vec::new();

    apply_scan_results(
        &mut families,
        &mut unknowns,
        "bamserve4",
        &["adguardhome-v0.107.50-1.0.1.tar".to_string()],
    );

    let adguardhome = families.get("adguardhome").unwrap();
    assert!(adguardhome.stale_versions.contains("v0.107.50-1.0.1"));
    assert!(families.get("adguard").unwrap().stale_versions.is_empty());
    assert!(unknowns.is_empty());
}

#[test]
fn test_apply_scan_results_caddy_version() {
    let mut families = NameMap::new();
    families.insert("caddy".to_string(), make_family("caddy", "2.10.2-0.4.0"));
    let mut unknowns: Vec<UnknownTarball> = Vec::new();

    apply_scan_results(&mut families, &mut unknowns, "bamserve4", &["caddy-2.10.2-0.4.0.tar".to_string()]);

    let caddy = families.get("caddy").unwrap();
    assert_eq!(
        caddy.current.as_ref().unwrap().server_presence.get("bamserve4"),
        Some(&true)
    );
    assert!(unknowns.is_empty());
}

#[test]
fn test_apply_scan_results_multiple_stale_versions() {
    let mut families = NameMap::new();
    families.insert("radarr".to_string(), make_family("radarr", "v5.28.0.10274-1.0.3"));
    let mut unknowns: Vec<UnknownTarball> = Vec::new();

    apply_scan_results(
        &mut families,
        &mut unknowns,
        "bamserve4",
        &["radarr-v5.20.0.9280-1.0.2.tar".to_string()],
    );
    apply_scan_results(
        &mut families,
        &mut unknowns,
        "bamserve5",
        &["radarr-v5.20.0.9280-1.0.2.tar".to_string()],
    );

    let radarr = families.get("radarr").unwrap();
    assert_eq!(radarr.stale_versions.len(), 1);
    assert!(radarr.stale_versions.contains("v5.20.0.9280-1.0.2"));
    assert_eq!(
        radarr.remote_presence.get("v5.20.0.9280-1.0.2").map(|s| s.items.clone()),
        Some(names(&["bamserve4", "bamserve5"]))
    );
}

#[test]
fn test_apply_scan_results_inserts_false_for_absent_servers() {
    let mut families = NameMap::new();
    families.insert("caddy".to_string(), make_family("caddy", "2.10.2-0.4.0"));
    let mut unknowns: Vec<UnknownTarball> = Vec::new();

    apply_scan_results(&mut families, &mut unknowns, "bamserve4", &[]);

    let caddy = families.get("caddy").unwrap();
    let presence = &caddy.current.as_ref().unwrap().server_presence;
    assert_eq!(presence.get("bamserve4"), Some(&false));
}

#[test]
fn test_apply_scan_results_ambiguous_three_family_prefix() {
    let mut families = NameMap::new();
    families.insert("adguard".to_string(), make_family("adguard", "v1.0.0"));
    families.insert("adguardhome".to_string(), make_family("adguardhome", "v2.0.0"));
    families.insert("adguardhome-old".to_string(), make_family("adguardhome-old", "v3.0.0"));
    let mut unknowns: Vec<UnknownTarball> = Vec::new();

    apply_scan_results(&mut families, &mut unknowns, "bamserve4", &["adguardhome-v9.9.9.tar".to_string()]);

    assert!(families.get("adguardhome").unwrap().stale_versions.contains("v9.9.9"));
    assert!(families.get("adguard").unwrap().stale_versions.is_empty());
    assert!(families.get("adguardhome-old").unwrap().stale_versions.is_empty());
}

#[test]
fn test_refresh_local_tarballs_marks_existing_files() {
    let staging = set_of(&["myimg-v1.0.0.tar"]);

    let mut families = NameMap::new();
    families.insert("myimg".to_string(), make_family("myimg", "v1.0.0"));
    families.insert("other".to_string(), make_family("other", "v2.0.0"));

    refresh_local_tarballs(&mut families, &staging);

    assert!(families.get("myimg").unwrap().current.as_ref().unwrap().local_tarball);
    assert!(!families.get("other").unwrap().current.as_ref().unwrap().local_tarball);
}

#[test]
fn test_refresh_local_tarballs_marks_missing_files() {
    let staging = NameSet::new();
    let mut families = NameMap::new();
    families.insert("myimg".to_string(), make_family("myimg", "v1.0.0"));

    refresh_local_tarballs(&mut families, &staging);

    assert!(!families.get("myimg").unwrap().current.as_ref().unwrap().local_tarball);
}

#[test]
fn test_tarball_filename_helper() {
    assert_eq!(tarball_filename("adguardhome", "v0.107.68-1.0.2"), "adguardhome-v0.107.68-1.0.2.tar");
    assert_eq!(tarball_filename("caddy", "2.10.2-0.4.0"), "caddy-2.10.2-0.4.0.tar");
}

// ---------------------------------------------------------------------------
// Further cases
// ---------------------------------------------------------------------------

#[test]
fn refresh_local_tarballs_clears_a_stale_mark() {
    let mut families = NameMap::new();
    let mut fam = make_family("myimg", "v1.0.0");
    fam.current.as_mut().unwrap().local_tarball = true;
    families.insert("myimg".to_string(), fam);
    refresh_local_tarballs(&mut families, &set_of(&["myimg-v0.9.tar"]));
    assert!(!families.get("myimg").unwrap().current.as_ref().unwrap().local_tarball);
}

#[test]
fn apply_scan_results_saved_tarball_is_recognised() {
    let mut families = NameMap::new();
    families.insert("a-b".to_string(), make_family("a-b", "1.0"));
    families.insert("a".to_string(), make_family("a", "b-1.0"));
    let mut unknowns: Vec<UnknownTarball> = Vec::new();
    let saved = tarball_filename("a-b", "1.0");
    apply_scan_results(&mut families, &mut unknowns, "s1", &[saved]);
    assert_eq!(
        families.get("a-b").unwrap().current.as_ref().unwrap().server_presence.get("s1"),
        Some(&true)
    );
    assert!(unknowns.is_empty());
}

#[test]
fn apply_scan_results_unknowns_appended_in_name_order() {
    let mut families: NameMap<ImageFamily> = NameMap::new();
    let mut unknowns: Vec<UnknownTarball> = Vec::new();
    apply_scan_results(&mut families, &mut unknowns, "s1", &names(&["zeta.tar", "alpha.tar"]));
    let files: Vec<&str> = unknowns.iter().map(|u| u.filename.as_str()).collect();
    assert_eq!(files, vec!["alpha.tar", "zeta.tar"]);
}

#[test]
fn local_tarball_names_lists_current_tarballs() {
    let mut families = NameMap::new();
    families.insert("b".to_string(), make_family("b", "2"));
    families.insert("a".to_string(), make_family("a", "1"));
    assert_eq!(local_tarball_names(&families), names(&["a-1.tar", "b-2.tar"]));
}

#[test]
fn parse_ls_output_trims_and_drops_blank_lines() {
    let out = "a.tar\n  b.tar  \nnotes.txt\n\n   \nc.tar.gz";
    assert_eq!(parse_ls_output(out), names(&["a.tar", "b.tar", "notes.txt", "c.tar.gz"]));
    assert!(parse_ls_output("").is_empty());
}

#[test]
fn ssh_and_scp_arguments() {
    let s = server("n1", 2222, Some("/k/id"));
    assert_eq!(
        ssh_args(&s, &names(&["ls", "-1"])),
        names(&[
            "-o", "BatchMode=yes", "-o", "ConnectTimeout=15", "-p", "2222", "-i", "/k/id",
            "deploy@10.0.0.5", "--", "ls", "-1",
        ])
    );
    let plain = server("n2", 22, None);
    assert_eq!(
        scp_args(&plain, "/stage/x.tar", "/tmp/x.tar"),
        names(&[
            "-o", "BatchMode=yes", "-o", "ConnectTimeout=15", "/stage/x.tar",
            "deploy@10.0.0.5:/tmp/x.tar",
        ])
    );
    assert_eq!(
        scp_args(&s, "/stage/x.tar", "/tmp/x.tar")[4..8].to_vec(),
        names(&["-P", "2222", "-i", "/k/id"])
    );
}

#[test]
fn remote_command_texts() {
    let s = server("n1", 22, None);
    let login_and_sep = names(&["-o", "BatchMode=yes", "-o", "ConnectTimeout=15", "deploy@10.0.0.5", "--"]);
    let with = |tail: &[&str]| {
        let mut v = login_and_sep.clone();
        v.extend(names(tail));
        v
    };
    assert_eq!(
        list_tarballs_command(&s, "/var/images"),
        with(&["sudo", "-n", "ls", "--color=never", "-1", "/var/images"])
    );
    assert_eq!(
        upload_command(&s, "/stage/a.tar", "a.tar"),
        names(&["-o", "BatchMode=yes", "-o", "ConnectTimeout=15", "/stage/a.tar", "deploy@10.0.0.5:/tmp/a.tar"])
    );
    assert_eq!(
        move_into_place_command(&s, "a.tar", "/var/images"),
        with(&["sudo", "-n", "mv", "/tmp/a.tar", "/var/images/a.tar"])
    );
    assert_eq!(discard_upload_command(&s, "a.tar"), with(&["sudo", "-n", "rm", "/tmp/a.tar"]));
    assert_eq!(
        remove_command(&s, "a.tar", "/var/images"),
        with(&["sudo", "-n", "rm", "/var/images/a.tar"])
    );
    assert_eq!(
        preview_remove_command(&s, "a.tar", "/var/images"),
        "ssh -o BatchMode=yes -o ConnectTimeout=15 deploy@10.0.0.5 -- sudo -n rm /var/images/a.tar"
    );
}

#[test]
fn list_remote_tarballs_outcomes() {
    let s = server("n1", 22, None);
    let ok = CommandOutcome::Exited { success: true, stdout: "a.tar\nb.txt\n".to_string(), stderr: String::new() };
    assert_eq!(list_remote_tarballs(&s, &ok), Ok(names(&["a.tar", "b.txt"])));
    let failed = CommandOutcome::Exited { success: false, stdout: String::new(), stderr: "denied\n".to_string() };
    assert_eq!(list_remote_tarballs(&s, &failed), Ok(Vec::new()));
    assert_eq!(
        list_remote_tarballs(&s, &CommandOutcome::SpawnFailed("no ssh".to_string())),
        Err("SSH to n1 failed: no ssh".to_string())
    );
    assert_eq!(
        list_remote_tarballs(&s, &CommandOutcome::JoinFailed("cancelled".to_string())),
        Err("Join error: cancelled".to_string())
    );
}

#[test]
fn remove_tarball_outcomes() {
    let s = server("n1", 22, None);
    let ok = CommandOutcome::Exited { success: true, stdout: String::new(), stderr: String::new() };
    assert_eq!(remove_tarball(&s, &ok), Ok(()));
    let failed = CommandOutcome::Exited { success: false, stdout: String::new(), stderr: " nope \n".to_string() };
    assert_eq!(remove_tarball(&s, &failed), Err("SSH rm failed on n1: nope".to_string()));
    assert_eq!(
        remove_tarball(&s, &CommandOutcome::SpawnFailed("x".to_string())),
        Err("SSH rm on n1 failed: x".to_string())
    );
    assert_eq!(
        remove_tarball(&s, &CommandOutcome::JoinFailed("y".to_string())),
        Err("SSH spawn failed: y".to_string())
    );
}

#[test]
fn deploy_runs_upload_then_move() {
    let s = server("n1", 22, None);
    let ok = CommandOutcome::Exited { success: true, stdout: String::new(), stderr: String::new() };
    match deploy_tarball(&s, "/stage/a.tar", "a.tar") {
        DeployStep::Upload(args) => assert_eq!(args, upload_command(&s, "/stage/a.tar", "a.tar")),
        _ => panic!("expected Upload"),
    }
    match deploy_next(&s, "a.tar", "/var/images", DeployStage::Uploading, &ok) {
        DeployStep::MoveIntoPlace(args) => {
            assert_eq!(args, move_into_place_command(&s, "a.tar", "/var/images"))
        }
        _ => panic!("expected MoveIntoPlace"),
    }
    match deploy_next(&s, "a.tar", "/var/images", DeployStage::Moving, &ok) {
        DeployStep::Done(r) => assert_eq!(r, Ok(())),
        _ => panic!("expected Done"),
    }
}

#[test]
fn deploy_failed_upload_ends_with_error() {
    let s = server("n1", 22, None);
    let failed = CommandOutcome::Exited { success: false, stdout: String::new(), stderr: "lost\n".to_string() };
    match deploy_next(&s, "a.tar", "/var/images", DeployStage::Uploading, &failed) {
        DeployStep::Done(r) => assert_eq!(r, Err("SCP upload to n1 failed: lost".to_string())),
        _ => panic!("expected Done"),
    }
}

#[test]
fn deploy_failed_move_discards_upload() {
    let s = server("n1", 22, None);
    let failed = CommandOutcome::Exited { success: false, stdout: String::new(), stderr: "mv: denied".to_string() };
    match deploy_next(&s, "a.tar", "/var/images", DeployStage::Moving, &failed) {
        DeployStep::DiscardUpload { args, error } => {
            assert_eq!(args, discard_upload_command(&s, "a.tar"));
            assert_eq!(error, "sudo mv to n1 failed: mv: denied");
        }
        _ => panic!("expected DiscardUpload"),
    }
    let ok = CommandOutcome::Exited { success: true, stdout: String::new(), stderr: String::new() };
    match deploy_next(&s, "a.tar", "/var/images", DeployStage::Discarding("boom".to_string()), &ok) {
        DeployStep::Done(r) => assert_eq!(r, Err("boom".to_string())),
        _ => panic!("expected Done"),
    }
}

#[test]
fn rescanning_the_same_listing_changes_nothing() {
    let mut families = NameMap::new();
    families.insert("adguardhome".to_string(), make_family("adguardhome", "v2"));
    families.insert("caddy".to_string(), make_family("caddy", "1.0"));
    let mut unknowns: Vec<UnknownTarball> = Vec::new();
    let listing = names(&[
        "adguardhome-v2.tar",
        "adguardhome-v1.tar",
        "mystery.tar",
        "notes.txt",
        "mystery.tar",
    ]);

    apply_scan_results(&mut families, &mut unknowns, "s1", &listing);
    let families_once = format!("{:?}", families);
    let unknowns_once = format!("{:?}", unknowns);
    apply_scan_results(&mut families, &mut unknowns, "s1", &listing);

    assert_eq!(format!("{:?}", families), families_once);
    assert_eq!(format!("{:?}", unknowns), unknowns_once);
    assert_eq!(unknowns.len(), 1);
    let adguard = families.get("adguardhome").unwrap();
    assert!(adguard.stale_versions.contains("v1"));
    assert_eq!(adguard.current.as_ref().unwrap().server_presence.get("s1"), Some(&true));
    let caddy = families.get("caddy").unwrap();
    assert_eq!(caddy.current.as_ref().unwrap().server_presence.get("s1"), Some(&false));
}

#[test]
fn a_later_scan_only_adds() {
    let mut families = NameMap::new();
    families.insert("adguardhome".to_string(), make_family("adguardhome", "v2"));
    let mut unknowns: Vec<UnknownTarball> = Vec::new();
    apply_scan_results(&mut families, &mut unknowns, "s1", &names(&["adguardhome-v2.tar", "adguardhome-v1.tar", "odd.tar"]));
    apply_scan_results(&mut families, &mut unknowns, "s2", &names(&["adguardhome-v0.tar"]));
    apply_scan_results(&mut families, &mut unknowns, "s1", &names(&[]));

    let adguard = families.get("adguardhome").unwrap();
    assert!(adguard.stale_versions.contains("v1"));
    assert!(adguard.stale_versions.contains("v0"));
    assert!(!adguard.stale_versions.contains("v2"));
    assert!(adguard.remote_presence.get("v1").unwrap().contains("s1"));
    let presence = &adguard.current.as_ref().unwrap().server_presence;
    assert_eq!(presence.get("s1"), Some(&true));
    assert_eq!(presence.get("s2"), Some(&false));
    assert_eq!(unknowns.len(), 1);
    assert!(unknowns[0].servers.contains("s1"));
}

#[test]
fn tarball_name_comes_from_the_path() {
    assert_eq!(tarball_name_of_path("staging/adguardhome-v2.tar"), Ok("adguardhome-v2.tar".to_string()));
    assert_eq!(tarball_name_of_path("caddy-1.0.tar"), Ok("caddy-1.0.tar".to_string()));
    assert_eq!(tarball_name_of_path("staging//x.tar/"), Ok("x.tar".to_string()));
    assert_eq!(tarball_name_of_path("staging/x.tar/."), Ok("x.tar".to_string()));
    assert_eq!(tarball_name_of_path("staging/.."), Err("Invalid local tarball path: staging/..".to_string()));
    assert_eq!(tarball_name_of_path("/"), Err("Invalid local tarball path: /".to_string()));
    assert_eq!(tarball_name_of_path(""), Err("Invalid local tarball path: ".to_string()));
}
