use rke2_image_manager::config::{config_candidates, join_path};
use rke2_image_manager::models::{default_port, Config, Server};

#[test]
fn join_path_inserts_one_separator() {
    assert_eq!(join_path("/home/me", ".config"), "/home/me/.config");
    assert_eq!(join_path("/home/me/", ".config"), "/home/me/.config");
    assert_eq!(join_path("", "config.toml"), "config.toml");
}

#[test]
fn candidates_in_lookup_order() {
    assert_eq!(
        config_candidates(Some("/etc/rim.toml"), Some("/xdg"), Some("/home/me"), Some("/opt/bin")),
        vec![
            "/etc/rim.toml".to_string(),
            "config.toml".to_string(),
            "/xdg/rke2-image-manager/config.toml".to_string(),
            "/opt/bin/config.toml".to_string(),
        ]
    );
}

#[test]
fn candidates_fall_back_to_home_config() {
    assert_eq!(
        config_candidates(None, Some(""), Some("/home/me"), None),
        vec!["config.toml".to_string(), "/home/me/.config/rke2-image-manager/config.toml".to_string()]
    );
    assert_eq!(config_candidates(None, None, None, None), vec!["config.toml".to_string()]);
}

#[test]
fn test_server_struct_clone() {
    let server = Server {
        name: "test".to_string(),
        host: "192.168.1.1".to_string(),
        user: "admin".to_string(),
        port: 22,
        identity_file: Some("/path/to/key".to_string()),
    };

    let cloned = server.clone();
    assert_eq!(cloned.name, server.name);
    assert_eq!(cloned.host, server.host);
    assert_eq!(cloned.identity_file, server.identity_file);
}

#[test]
fn defaults() {
    assert_eq!(default_port(), 22);
    let config = Config::default();
    assert!(config.servers.is_empty());
    assert_eq!(config.paths.staging_dir, "");
    assert_eq!(config.paths.image_registry, "");
}
