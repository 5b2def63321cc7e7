use braindump::uninstall::{
    after_binary_removal, config_removal, confirms, sudo_program, BinaryStep, ConfigRemoval,
    RemovalOutcome,
};

fn s(text: &str) -> Option<String> {
    Some(text.to_string())
}

#[test]
fn uninstall_without_confirmation_aborts_and_deletes_nothing() {
    assert!(!confirms(None));
    assert!(!confirms(s("")));
}

#[test]
fn uninstall_aborts_on_enter_and_none_inputs() {
    for input in ["\n", "n\n", "maybe\n"] {
        assert!(!confirms(s(input)));
    }
}

#[test]
fn confirmed_uninstall_removes_binary_and_config_but_not_the_braindump_file() {
    assert!(confirms(s("y\n")));
    assert!(confirms(s(" Y ")));
    assert_eq!(
        config_removal(s("/tmp/home/braindump.md"), "/tmp/home/config/braindump"),
        ConfigRemoval::RemoveDirectory
    );
    assert_eq!(after_binary_removal(RemovalOutcome::Removed), BinaryStep::Done);
}

#[test]
fn uninstall_when_config_is_missing_reports_nothing_to_remove_and_succeeds() {
    assert_eq!(
        config_removal(None, "/tmp/home/config/braindump"),
        ConfigRemoval::RemoveDirectory
    );
}

#[test]
fn uninstall_keeps_the_config_directory_when_the_braindump_file_lives_inside_it() {
    assert_eq!(
        config_removal(
            s("/tmp/home/config/braindump/notes.md"),
            "/tmp/home/config/braindump"
        ),
        ConfigRemoval::KeepDirectory {
            config_file: "/tmp/home/config/braindump/config.toml".to_string()
        }
    );
    assert_eq!(
        config_removal(s("/tmp/home/config/braindumpster/n.md"), "/tmp/home/config/braindump"),
        ConfigRemoval::RemoveDirectory
    );
}

#[test]
fn uninstall_escalates_to_sudo_when_the_binary_directory_is_not_writable() {
    assert_eq!(
        after_binary_removal(RemovalOutcome::PermissionDenied),
        BinaryStep::RetryWithSudo
    );
    assert_eq!(after_binary_removal(RemovalOutcome::Failed), BinaryStep::Fail);
    assert_eq!(sudo_program(s("/tmp/fake-sudo")), "/tmp/fake-sudo");
    assert_eq!(sudo_program(None), "sudo");
}
