use rke2_image_manager::commands::{
    build_row, build_state_label, clean_targets, count_stale, filter_matches, filter_rows,
    last_server_named, list_table, resolve_all, resolve_targets, row_names, row_type_matches,
    servers_for_image, servers_table, should_build, status_label, status_summary, status_table, yn,
    exit_status, image_deploy_step, run_outcome, ImageDeployAction, RunOutcome, ImageDeployEvent, ImageDeployPlan, ImageDeployStage,
    ListArgs,
};
use rke2_image_manager::models::{
    BuildState, ImageFamily, ImageTableRow, ManagedImage, ScanStatus, Server, UnknownTarball,
};
use rke2_image_manager::names::{NameMap, NameSet};
use rke2_image_manager::select::ResolvedTarget;

fn make_image(name: &str, version: &str) -> ManagedImage {
    ManagedImage {
        name: name.to_string(),
        version: version.to_string(),
        dockerfile_path: format!("{}.dockerfile", name),
        context_dir: ".".to_string(),
        local_tarball: false,
        server_presence: NameMap::new(),
        build_state: BuildState::Idle,
        build_log: Vec::new(),
    }
}

fn make_family(name: &str, version: &str) -> ImageFamily {
    ImageFamily {
        name: name.to_string(),
        current_version: Some(version.to_string()),
        current: Some(make_image(name, version)),
        stale_versions: NameSet::new(),
        remote_presence: NameMap::new(),
    }
}

fn set_of(v: &[&str]) -> NameSet {
    let mut s = NameSet::new();
    for x in v {
        s.insert(x.to_string());
    }
    s
}

fn server(name: &str, port: u16, identity: Option<&str>) -> Server {
    Server {
        name: name.to_string(),
        host: format!("{}.lan", name),
        user: "root".to_string(),
        port,
        identity_file: identity.map(|s| s.to_string()),
    }
}

fn args(current: bool, stale: bool, unknown: bool, filter: Option<&str>) -> ListArgs {
    ListArgs { no_scan: false, filter: filter.map(|s| s.to_string()), current, stale, unknown }
}

fn sample_rows() -> Vec<ImageTableRow> {
    let mut img = make_image("AdGuard", "v1");
    img.local_tarball = true;
    img.server_presence.insert("s1".to_string(), true);
    vec![
        ImageTableRow::Current(img),
        ImageTableRow::Stale {
            family_name: "AdGuard".to_string(),
            version: "v0".to_string(),
            servers: set_of(&["s2"]),
        },
        ImageTableRow::Unknown(UnknownTarball { filename: "x.tar".to_string(), servers: set_of(&["s1"]) }),
    ]
}

#[test]
fn list_kind_and_filter_selection() {
    let rows = sample_rows();
    assert_eq!(filter_rows(&rows, &args(false, false, false, None)).len(), 3);
    assert_eq!(filter_rows(&rows, &args(true, false, false, None)).len(), 1);
    assert_eq!(filter_rows(&rows, &args(false, true, true, None)).len(), 2);
    let by_name = filter_rows(&rows, &args(false, false, false, Some("ADGUARD-V0")));
    assert_eq!(by_name.len(), 1);
    assert!(matches!(by_name[0], ImageTableRow::Stale { .. }));
    assert!(row_type_matches(&rows[2], false, &args(false, false, true, None)));
    assert!(!row_type_matches(&rows[2], false, &args(true, false, false, None)));
}

#[test]
fn list_filter_matches_lowercased_names() {
    let rows = sample_rows();
    assert!(filter_matches(&rows[0], Some("guard")));
    assert!(filter_matches(&rows[0], Some("adguard-v1")));
    assert!(!filter_matches(&rows[0], Some("Guard")));
    assert!(filter_matches(&rows[2], None));
    assert_eq!(row_names(&rows[0]), ("AdGuard".to_string(), "AdGuard-v1".to_string()));
    assert_eq!(row_names(&rows[2]), ("x.tar".to_string(), "x.tar".to_string()));
}

#[test]
fn list_rows_and_table() {
    let rows = sample_rows();
    let names = vec!["s1".to_string(), "s2".to_string()];
    assert_eq!(build_row(&rows[0], &names), vec!["AdGuard", "v1", "yes", "yes", "no", "ok"]);
    assert_eq!(build_row(&rows[1], &names), vec!["  (stale)", "v0", "-", "no", "yes", "stale"]);
    assert_eq!(build_row(&rows[2], &names), vec!["x.tar", "-", "-", "yes", "no", "unknown"]);
    let table = list_table(&names, &rows);
    assert_eq!(
        table,
        "NAME       VERSION  LOCAL  s1   s2   STATE\n\
         AdGuard    v1       yes    yes  no   ok\n\
         \x20 (stale)  v0       -      no   yes  stale\n\
         x.tar      -        -      yes  no   unknown\n"
    );
}

#[test]
fn labels() {
    assert_eq!(yn(true), "yes");
    assert_eq!(yn(false), "no");
    assert_eq!(build_state_label(&BuildState::Building), "building");
    assert_eq!(build_state_label(&BuildState::Failed("x".to_string())), "failed");
    assert_eq!(build_state_label(&BuildState::Success), "ok");
    assert_eq!(build_state_label(&BuildState::Idle), "ok");
    assert_eq!(status_label(&ScanStatus::Pending), "pending");
    assert_eq!(status_label(&ScanStatus::Succeeded), "ok");
    assert_eq!(status_label(&ScanStatus::Error("timeout".to_string())), "error: timeout");
}

#[test]
fn status_table_and_summary() {
    let mut status = NameMap::new();
    status.insert("s1".to_string(), ScanStatus::Succeeded);
    status.insert("s2".to_string(), ScanStatus::Error("down".to_string()));
    let names = vec!["s2".to_string(), "s1".to_string(), "s3".to_string()];
    assert_eq!(
        status_table(&names, &status),
        "SERVER  STATUS\ns2      error: down\ns1      ok\ns3      pending\n"
    );

    let mut families = NameMap::new();
    let mut a = make_family("a", "2");
    a.stale_versions.insert("1".to_string());
    a.stale_versions.insert("0".to_string());
    let mut b = make_family("b", "5");
    b.stale_versions.insert("4".to_string());
    families.insert("a".to_string(), a);
    families.insert("b".to_string(), b);
    assert_eq!(count_stale(&families), 3);
    assert_eq!(status_summary(&families, 7), "2 managed (3 stale) | 7 unknown");
}

#[test]
fn servers_table_text() {
    let servers = vec![server("n1", 22, None), server("n2", 2222, Some("/k"))];
    assert_eq!(
        servers_table(&servers),
        "NAME  USER@HOST:PORT    IDENTITY\nn1    root@n1.lan:22    -\nn2    root@n2.lan:2222  /k\n"
    );
}

#[test]
fn resolve_targets_all_and_named() {
    let mut families = NameMap::new();
    families.insert("b".to_string(), make_family("b", "2"));
    families.insert("a".to_string(), make_family("a", "1"));
    let all = resolve_targets(true, &[], &families).unwrap();
    let names: Vec<&str> = all.iter().map(|i| i.name.as_str()).collect();
    assert_eq!(names, vec!["a", "b"]);
    let named = resolve_targets(false, &["b".to_string()], &families).unwrap();
    assert_eq!(named.len(), 1);
    assert_eq!(named[0].version, "2");
    assert!(resolve_targets(false, &["b:2".to_string()], &families).is_err());
    let err = resolve_targets(false, &["zzz".to_string()], &families).unwrap_err();
    assert!(err.contains("zzz"));
}

#[test]
fn deploy_server_choice_and_build_decision() {
    let mut img = make_image("a", "1");
    img.server_presence.insert("s1".to_string(), true);
    img.server_presence.insert("s2".to_string(), false);
    let servers = vec![server("s1", 22, None), server("s2", 22, None), server("s3", 22, None)];
    let all = servers_for_image(&img, &servers, false);
    assert_eq!(all.len(), 3);
    let missing: Vec<String> = servers_for_image(&img, &servers, true).into_iter().map(|s| s.name).collect();
    assert_eq!(missing, vec!["s2".to_string(), "s3".to_string()]);

    assert!(should_build(None, Some(5)));
    assert!(should_build(None, None));
    assert!(should_build(Some(5), Some(6)));
    assert!(!should_build(Some(5), Some(5)));
    assert!(!should_build(Some(5), None));
}

#[test]
fn clean_targets_order_and_server_choice() {
    let mut families = NameMap::new();
    let mut a = make_family("a", "3");
    a.stale_versions.insert("1".to_string());
    a.stale_versions.insert("2".to_string());
    a.remote_presence.insert("1".to_string(), set_of(&["s1", "s2"]));
    a.remote_presence.insert("2".to_string(), set_of(&["s2"]));
    families.insert("a".to_string(), a);
    let unknowns = vec![UnknownTarball { filename: "z.tar".to_string(), servers: set_of(&["s1", "s3"]) }];
    let chosen = set_of(&["s1", "s2"]);

    let pair = |t: &str, s: &str| (t.to_string(), s.to_string());
    assert_eq!(
        clean_targets(&families, &unknowns, &chosen, true, true),
        vec![pair("a-1.tar", "s1"), pair("a-1.tar", "s2"), pair("a-2.tar", "s2"), pair("z.tar", "s1")]
    );
    assert_eq!(clean_targets(&families, &unknowns, &chosen, false, true), vec![pair("z.tar", "s1")]);
    assert!(clean_targets(&families, &unknowns, &NameSet::new(), true, true).is_empty());
}

#[test]
fn last_server_named_prefers_last() {
    let servers = vec![server("a", 22, None), server("b", 22, None), server("a", 23, None)];
    assert_eq!(last_server_named(&servers, "a"), Some(2));
    assert_eq!(last_server_named(&servers, "b"), Some(1));
    assert_eq!(last_server_named(&servers, "c"), None);
}

#[test]
fn resolve_all_stops_at_first_error() {
    let mut families = NameMap::new();
    families.insert("a".to_string(), make_family("a", "1"));
    let unknowns = vec![UnknownTarball { filename: "m.tar".to_string(), servers: set_of(&["s"]) }];
    let ok = resolve_all(&["a".to_string(), "m.tar".to_string()], &families, &unknowns).unwrap();
    assert!(matches!(ok[0], ResolvedTarget::Current { .. }));
    assert!(matches!(ok[1], ResolvedTarget::Unknown { .. }));
    let err = resolve_all(&["a".to_string(), "q.tar".to_string(), "zz".to_string()], &families, &unknowns)
        .unwrap_err();
    assert_eq!(err, "No unknown tarball named 'q.tar'");
}

fn run_deploy(plan: ImageDeployPlan, events: &[ImageDeployEvent]) -> (ImageDeployStage, Vec<ImageDeployAction>) {
    let mut stage = ImageDeployStage::Start;
    let mut actions = Vec::new();
    let (next, action) = image_deploy_step(plan, stage, ImageDeployEvent::Begin);
    stage = next;
    actions.push(action);
    for e in events {
        let (next, action) = image_deploy_step(plan, stage, *e);
        stage = next;
        actions.push(action);
    }
    (stage, actions)
}

#[test]
fn deploy_step_without_targets_reports_and_stops() {
    let plan = ImageDeployPlan { targets: 0, needs_build: true, dry_run: false };
    let (stage, actions) = run_deploy(plan, &[]);
    assert_eq!(stage, ImageDeployStage::Done { failed: false });
    assert_eq!(actions, vec![ImageDeployAction::ReportNoTargets]);
}

#[test]
fn deploy_step_dry_run_touches_nothing() {
    let plan = ImageDeployPlan { targets: 2, needs_build: true, dry_run: true };
    let (stage, actions) = run_deploy(plan, &[]);
    assert_eq!(stage, ImageDeployStage::Done { failed: false });
    assert_eq!(actions, vec![ImageDeployAction::ReportDryRun { build: true }]);
}

#[test]
fn deploy_step_skips_image_after_failed_build() {
    let plan = ImageDeployPlan { targets: 2, needs_build: true, dry_run: false };
    let (stage, actions) = run_deploy(plan, &[ImageDeployEvent::Built { ok: false }]);
    assert_eq!(stage, ImageDeployStage::Done { failed: true });
    assert_eq!(actions, vec![ImageDeployAction::Build, ImageDeployAction::ReportBuildFailed]);
}

#[test]
fn deploy_step_refuses_missing_tarball() {
    let plan = ImageDeployPlan { targets: 1, needs_build: false, dry_run: false };
    let (stage, actions) = run_deploy(plan, &[ImageDeployEvent::TarballChecked { present: false }]);
    assert_eq!(stage, ImageDeployStage::Done { failed: true });
    assert_eq!(actions, vec![ImageDeployAction::CheckTarball, ImageDeployAction::ReportMissingTarball]);
}

#[test]
fn deploy_step_goes_on_after_a_failed_copy() {
    let plan = ImageDeployPlan { targets: 3, needs_build: true, dry_run: false };
    let (stage, actions) = run_deploy(
        plan,
        &[
            ImageDeployEvent::Built { ok: true },
            ImageDeployEvent::TarballChecked { present: true },
            ImageDeployEvent::Copied { ok: true },
            ImageDeployEvent::Copied { ok: false },
            ImageDeployEvent::Copied { ok: true },
        ],
    );
    assert_eq!(stage, ImageDeployStage::Done { failed: true });
    assert_eq!(
        actions,
        vec![
            ImageDeployAction::Build,
            ImageDeployAction::CheckTarball,
            ImageDeployAction::Copy { server: 0 },
            ImageDeployAction::Copy { server: 1 },
            ImageDeployAction::Copy { server: 2 },
            ImageDeployAction::Finish,
        ]
    );
}

#[test]
fn deploy_step_all_copies_succeed() {
    let plan = ImageDeployPlan { targets: 1, needs_build: false, dry_run: false };
    let (stage, actions) = run_deploy(
        plan,
        &[ImageDeployEvent::TarballChecked { present: true }, ImageDeployEvent::Copied { ok: true }],
    );
    assert_eq!(stage, ImageDeployStage::Done { failed: false });
    assert_eq!(
        actions,
        vec![ImageDeployAction::CheckTarball, ImageDeployAction::Copy { server: 0 }, ImageDeployAction::Finish]
    );
    assert_eq!(
        image_deploy_step(plan, ImageDeployStage::Building, ImageDeployEvent::Copied { ok: true }),
        (ImageDeployStage::Building, ImageDeployAction::Ignore)
    );
}

#[test]
fn exit_statuses_follow_the_documented_codes() {
    assert_eq!(exit_status(RunOutcome::Success), 0);
    assert_eq!(exit_status(RunOutcome::Failure), 1);
    assert_eq!(exit_status(RunOutcome::UsageError), 2);
    assert_eq!(exit_status(RunOutcome::ConfigError), 3);
    assert_eq!(run_outcome(true), RunOutcome::Failure);
    assert_eq!(run_outcome(false), RunOutcome::Success);
}
