use braindump::config::{
    braindump_config_dir, config_dir, config_path, config_text, configured_path, creatable_ancestor,
    dir_accepts_files, usable_path, AncestorProbe, OpenProbe,
};

fn s(text: &str) -> Option<String> {
    Some(text.to_string())
}

#[test]
fn config_lives_under_xdg_config_home() {
    assert_eq!(
        config_path(s("/tmp/home/config"), s("/tmp/home")),
        Ok("/tmp/home/config/braindump/config.toml".to_string())
    );
    assert_eq!(
        braindump_config_dir(s("/tmp/home/config"), s("/tmp/home")),
        Ok("/tmp/home/config/braindump".to_string())
    );
}

#[test]
fn config_falls_back_to_dot_config_in_home() {
    assert_eq!(config_dir(None, s("/home/u")), Ok("/home/u/.config".to_string()));
    assert_eq!(config_dir(s(""), s("/home/u/")), Ok("/home/u/.config".to_string()));
    assert_eq!(
        config_path(s(""), s("/home/u")),
        Ok("/home/u/.config/braindump/config.toml".to_string())
    );
}

#[test]
fn config_dir_needs_xdg_or_home() {
    assert_eq!(
        config_dir(None, None),
        Err("failed to determine config directory".to_string())
    );
    assert_eq!(
        config_path(s(""), None),
        Err("failed to determine config directory".to_string())
    );
}

#[test]
fn saved_config_has_the_documented_form() {
    assert_eq!(
        config_text("/home/u/braindump/braindump.md"),
        Ok("braindump_file_path = \"/home/u/braindump/braindump.md\"\n".to_string())
    );
}

#[test]
fn saved_config_is_read_back() {
    for path in ["/home/u/notes.md", "/tmp/with space/n.md", "/tmp/quote\"d.md", "C:\\notes.md"] {
        let text = config_text(path).expect("serialize");
        assert_eq!(configured_path(&text), Some(path.to_string()));
    }
}

#[test]
fn saved_path_with_a_tab_is_escaped_and_read_back() {
    let text = config_text("a\tb").expect("serialize");
    assert_eq!(text, "braindump_file_path = \"a\\tb\"\n");
    assert_eq!(configured_path(&text), Some("a\tb".to_string()));
}

#[test]
fn configured_path_is_trimmed() {
    assert_eq!(
        configured_path("braindump_file_path = \"  /home/u/n.md \"\n"),
        Some("/home/u/n.md".to_string())
    );
    assert_eq!(
        configured_path("other = 1\nbraindump_file_path = '/x/y.md'\n"),
        Some("/x/y.md".to_string())
    );
}

#[test]
fn parse_broken_and_path_broken_configs_fail_identically() {
    assert_eq!(configured_path("not: [valid toml"), None);
    assert_eq!(configured_path("braindump_file_path = 3\n"), None);
}

#[test]
fn missing_path_key_triggers_setup() {
    assert_eq!(configured_path("[braindump]\n"), None);
}

#[test]
fn empty_path_value_triggers_setup() {
    assert_eq!(configured_path("braindump_file_path = \"\"\n"), None);
    assert_eq!(configured_path("braindump_file_path = \"   \"\n"), None);
}

#[test]
fn writable_directories_accept_files() {
    assert!(dir_accepts_files(0o755));
    assert!(dir_accepts_files(0o020));
    assert!(dir_accepts_files(0o002));
    assert!(!dir_accepts_files(0o555));
    assert!(!dir_accepts_files(0o000));
}

#[test]
fn blocked_parent_triggers_setup() {
    // the nearest existing ancestor is a file, not a directory
    let chain = vec![AncestorProbe::Existing { is_dir: false, mode: Some(0o644) }];
    assert!(!creatable_ancestor(&chain));
    assert!(!usable_path(OpenProbe::NotFound, &chain));
}

#[test]
fn uncreatable_parent_triggers_setup() {
    let chain = vec![AncestorProbe::Existing { is_dir: true, mode: Some(0o555) }];
    assert!(!usable_path(OpenProbe::NotFound, &chain));
}

#[test]
fn unwritable_path_triggers_setup() {
    assert!(!usable_path(OpenProbe::Failed, &Vec::new()));
}

#[test]
fn missing_file_under_creatable_ancestor_is_usable() {
    let chain = vec![
        AncestorProbe::Missing,
        AncestorProbe::Missing,
        AncestorProbe::Existing { is_dir: true, mode: Some(0o700) },
    ];
    assert!(usable_path(OpenProbe::NotFound, &chain));
    assert!(usable_path(OpenProbe::Opened, &Vec::new()));
    assert!(!usable_path(OpenProbe::NotFound, &vec![AncestorProbe::Missing]));
    assert!(usable_path(OpenProbe::NotFound, &vec![AncestorProbe::EmptyParent { cwd_ok: true }]));
    assert!(!usable_path(OpenProbe::NotFound, &vec![AncestorProbe::Failed]));
    assert!(!usable_path(
        OpenProbe::NotFound,
        &vec![AncestorProbe::Existing { is_dir: true, mode: None }]
    ));
}
