use rush_tunnel::config::{profile_names_from_files, toml_stem, SshConfig};

fn sample_config(port_forward: Option<i16>) -> SshConfig {
    SshConfig::from_parts(
        Some("alice".to_string()),
        Some("jump.example".to_string()),
        Some("bob".to_string()),
        Some("target.example".to_string()),
        Some(2201),
        None,
        port_forward,
    )
    .expect("all required fields were given")
}

#[test]
fn from_parts_fills_fields_and_defaults() {
    let config = sample_config(None);
    assert_eq!(config.jump_host_user, "alice");
    assert_eq!(config.jump_host, "jump.example");
    assert_eq!(config.target_host_user, "bob");
    assert_eq!(config.target_host, "target.example");
    assert_eq!(config.jump_port, 2201);
    assert_eq!(config.target_port, 22);
    assert_eq!(config.port_forward, None);
    assert!(config.enc1.is_none() && config.enc2.is_none());
}

#[test]
fn from_parts_reports_first_missing_field() {
    let missing = SshConfig::from_parts(
        Some("alice".to_string()),
        None,
        None,
        Some("target.example".to_string()),
        None,
        None,
        None,
    );
    assert!(missing.is_err());
    let all_missing = SshConfig::from_parts(None, None, None, None, None, None, None);
    assert!(all_missing.is_err());
}

#[test]
fn tunnel_args_without_forwarding() {
    let config = sample_config(None);
    let args = config.tunnel_command_args();
    assert_eq!(args, vec!["-J alice@jump.example:2201", "bob@target.example", "-p", "22"]);
}

#[test]
fn tunnel_args_with_forwarding() {
    let config = sample_config(Some(8080));
    let args = config.tunnel_command_args();
    assert_eq!(
        args,
        vec![
            "-J alice@jump.example:2201",
            "bob@target.example",
            "-p",
            "22",
            "-L",
            "8080:target.example:22"
        ]
    );
}

#[test]
fn tunnel_args_spell_negative_ports() {
    let config = SshConfig::from_parts(
        Some("alice".to_string()),
        Some("jump.example".to_string()),
        Some("bob".to_string()),
        Some("target.example".to_string()),
        Some(-5),
        Some(-32768),
        None,
    )
    .unwrap();
    let args = config.tunnel_command_args();
    assert_eq!(args[0], "-J alice@jump.example:-5");
    assert_eq!(args[3], "-32768");
}

#[test]
fn toml_stem_mirrors_path_semantics() {
    assert_eq!(toml_stem("alpha.toml"), Some("alpha".to_string()));
    assert_eq!(toml_stem("a.b.toml"), Some("a.b".to_string()));
    assert_eq!(toml_stem(".toml"), None);
    assert_eq!(toml_stem("notes.txt"), None);
    assert_eq!(toml_stem("toml"), None);
}

#[test]
fn profile_listing_keeps_only_toml_stems_in_order() {
    let files = vec![
        "alpha.toml".to_string(),
        "readme.txt".to_string(),
        ".toml".to_string(),
        "c.d.toml".to_string(),
        "plain".to_string(),
    ];
    let names = profile_names_from_files(&files);
    assert_eq!(names, vec!["alpha", "c.d"]);
}
