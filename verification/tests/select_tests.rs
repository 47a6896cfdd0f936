use rke2_image_manager::models::{BuildState, ImageFamily, ManagedImage, UnknownTarball};
use rke2_image_manager::names::{NameMap, NameSet};
use rke2_image_manager::select::{resolve, resolve_current, ImageSelector, ResolvedTarget};

fn make_image(name: &str, version: &str) -> ManagedImage {
    ManagedImage {
        name: name.to_string(),
        version: version.to_string(),
        dockerfile_path: format!("{}.dockerfile", name),
        context_dir: ".".to_string(),
        local_tarball: false,
        server_presence: NameMap::new(),
        build_state: BuildState::Idle,
        build_log: Vec::new(),
    }
}

fn make_family(name: &str, version: &str) -> ImageFamily {
    ImageFamily {
        name: name.to_string(),
        current_version: Some(version.to_string()),
        current: Some(make_image(name, version)),
        stale_versions: NameSet::new(),
        remote_presence: NameMap::new(),
    }
}

#[test]
fn test_parse_name() {
    assert_eq!(
        ImageSelector::parse("adguardhome"),
        ImageSelector::Name("adguardhome".to_string())
    );
}

#[test]
fn test_parse_name_version() {
    assert_eq!(
        ImageSelector::parse("adguardhome:v1.0.0"),
        ImageSelector::NameVersion("adguardhome".to_string(), "v1.0.0".to_string())
    );
}

#[test]
fn test_parse_tarball() {
    assert_eq!(
        ImageSelector::parse("mystery.tar"),
        ImageSelector::Tarball("mystery.tar".to_string())
    );
}

#[test]
fn test_parse_tarball_takes_priority_over_colon() {
    assert_eq!(
        ImageSelector::parse("weird:name.tar"),
        ImageSelector::Tarball("weird:name.tar".to_string())
    );
}

#[test]
fn test_resolve_current_by_name() {
    let mut families = NameMap::new();
    families.insert("adguardhome".to_string(), make_family("adguardhome", "v1"));
    let selector = ImageSelector::Name("adguardhome".to_string());

    let resolved = resolve(&selector, &families, &[]).unwrap();
    match resolved {
        ResolvedTarget::Current { family_name, image } => {
            assert_eq!(family_name, "adguardhome");
            assert_eq!(image.version, "v1");
        }
        _ => panic!("expected Current"),
    }
}

#[test]
fn test_resolve_unknown_name_errors_with_known_list() {
    let mut families = NameMap::new();
    families.insert("adguardhome".to_string(), make_family("adguardhome", "v1"));
    let selector = ImageSelector::Name("nope".to_string());

    let err = resolve(&selector, &families, &[]).unwrap_err();
    assert!(err.contains("adguardhome"));
    assert!(err.contains("nope"));
}

#[test]
fn test_resolve_stale_version() {
    let mut family = make_family("adguardhome", "v2");
    family.stale_versions.insert("v1".to_string());
    family
        .remote_presence
        .insert("v1".to_string(), NameSet::singleton("bamserve4".to_string()));
    let mut families = NameMap::new();
    families.insert("adguardhome".to_string(), family);

    let selector = ImageSelector::NameVersion("adguardhome".to_string(), "v1".to_string());
    let resolved = resolve(&selector, &families, &[]).unwrap();
    match resolved {
        ResolvedTarget::Stale {
            family_name,
            version,
            servers,
        } => {
            assert_eq!(family_name, "adguardhome");
            assert_eq!(version, "v1");
            assert!(servers.contains("bamserve4"));
        }
        _ => panic!("expected Stale"),
    }
}

#[test]
fn test_resolve_unknown_version_errors() {
    let families_map = {
        let mut m = NameMap::new();
        m.insert("adguardhome".to_string(), make_family("adguardhome", "v2"));
        m
    };
    let selector = ImageSelector::NameVersion("adguardhome".to_string(), "v99".to_string());
    let err = resolve(&selector, &families_map, &[]).unwrap_err();
    assert!(err.contains("v99"));
}

#[test]
fn test_resolve_unknown_tarball() {
    let unknowns = vec![UnknownTarball {
        filename: "mystery.tar".to_string(),
        servers: NameSet::singleton("bamserve4".to_string()),
    }];
    let selector = ImageSelector::Tarball("mystery.tar".to_string());
    let resolved = resolve(&selector, &NameMap::new(), &unknowns).unwrap();
    match resolved {
        ResolvedTarget::Unknown { filename, servers } => {
            assert_eq!(filename, "mystery.tar");
            assert!(servers.contains("bamserve4"));
        }
        _ => panic!("expected Unknown"),
    }
}

#[test]
fn test_resolve_missing_tarball_errors() {
    let selector = ImageSelector::Tarball("ghost.tar".to_string());
    let err = resolve(&selector, &NameMap::new(), &[]).unwrap_err();
    assert!(err.contains("ghost.tar"));
}

// ---------------------------------------------------------------------------
// Further cases
// ---------------------------------------------------------------------------

#[test]
fn selector_text_round_trips_through_parse() {
    for raw in ["caddy", "jellyfin:v10.11.7-1.2.0", "crowdsec-v1.6.4-1.0.0.tar", "foo:", ""] {
        let sel = ImageSelector::parse(raw);
        assert_eq!(sel.to_string(), raw);
        assert_eq!(ImageSelector::parse(&sel.to_string()), sel);
    }
}

#[test]
fn selector_leading_colon_is_a_name() {
    assert_eq!(ImageSelector::parse(":v1"), ImageSelector::Name(":v1".to_string()));
}

#[test]
fn selector_splits_at_first_colon() {
    assert_eq!(
        ImageSelector::parse("a:b:c"),
        ImageSelector::NameVersion("a".to_string(), "b:c".to_string())
    );
}

#[test]
fn resolve_name_version_of_current_is_current() {
    let mut families = NameMap::new();
    families.insert("caddy".to_string(), make_family("caddy", "2.10.2-0.4.0"));
    let selector = ImageSelector::NameVersion("caddy".to_string(), "2.10.2-0.4.0".to_string());
    match resolve(&selector, &families, &[]).unwrap() {
        ResolvedTarget::Current { family_name, image } => {
            assert_eq!(family_name, "caddy");
            assert_eq!(image.name, "caddy");
        }
        _ => panic!("expected Current"),
    }
}

#[test]
fn resolve_stale_without_presence_has_no_servers() {
    let mut family = make_family("adguardhome", "v2");
    family.stale_versions.insert("v1".to_string());
    let mut families = NameMap::new();
    families.insert("adguardhome".to_string(), family);
    let selector = ImageSelector::NameVersion("adguardhome".to_string(), "v1".to_string());
    match resolve(&selector, &families, &[]).unwrap() {
        ResolvedTarget::Stale { servers, .. } => assert!(servers.is_empty()),
        _ => panic!("expected Stale"),
    }
}

#[test]
fn resolved_target_names() {
    let unknowns = vec![UnknownTarball {
        filename: "mystery.tar".to_string(),
        servers: NameSet::singleton("bamserve4".to_string()),
    }];
    let target = resolve(&ImageSelector::Tarball("mystery.tar".to_string()), &NameMap::new(), &unknowns)
        .unwrap();
    assert_eq!(target.tarball_filename(), "mystery.tar");
    assert_eq!(target.display_name(), "mystery.tar");

    let mut family = make_family("adguardhome", "v2");
    family.stale_versions.insert("v1".to_string());
    let mut families = NameMap::new();
    families.insert("adguardhome".to_string(), family);
    let stale = resolve(
        &ImageSelector::NameVersion("adguardhome".to_string(), "v1".to_string()),
        &families,
        &[],
    )
    .unwrap();
    assert_eq!(stale.tarball_filename(), "adguardhome-v1.tar");
    assert_eq!(stale.display_name(), "adguardhome:v1");
}

#[test]
fn resolve_current_rejects_non_current_targets() {
    let mut family = make_family("adguardhome", "v2");
    family.stale_versions.insert("v1".to_string());
    let mut families = NameMap::new();
    families.insert("adguardhome".to_string(), family);
    let image = resolve_current("adguardhome", &families).unwrap();
    assert_eq!(image.version, "v2");
    assert!(resolve_current("adguardhome:v1", &families).is_err());
    assert!(resolve_current("nope", &families).is_err());
}
