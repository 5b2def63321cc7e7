use braindump::config::config_text;
use braindump::paths::join;
use braindump::setup::{
    default_path, display_path, migration_answer, offers_migration, resolve_input, MigrationAnswer,
};

fn s(text: &str) -> Option<String> {
    Some(text.to_string())
}

const HOME: &str = "/tmp/home";

fn resolve(input: &str) -> Result<String, String> {
    let default = default_path(s(HOME)).expect("default");
    resolve_input(input, &default, s(HOME), Ok("/work".to_string()))
}

#[test]
fn cli_setup_accepts_the_default_path() {
    assert_eq!(resolve(""), Ok("/tmp/home/braindump/braindump.md".to_string()));
    assert_eq!(
        config_text(&resolve("").unwrap()),
        Ok("braindump_file_path = \"/tmp/home/braindump/braindump.md\"\n".to_string())
    );
}

#[test]
fn cli_setup_accepts_a_custom_path_and_creates_parents() {
    let custom = join(HOME, "custom/dir/notes.md");
    assert_eq!(resolve(&custom), Ok("/tmp/home/custom/dir/notes.md".to_string()));
}

#[test]
fn cli_setup_expands_a_tilde_in_the_custom_path() {
    assert_eq!(resolve("~/notes.md"), Ok("/tmp/home/notes.md".to_string()));
    assert_eq!(resolve("~"), Ok("/tmp/home".to_string()));
}

#[test]
fn relative_paths_resolve_against_the_current_directory() {
    assert_eq!(resolve("notes.md"), Ok("/work/notes.md".to_string()));
    assert_eq!(resolve("~x/notes.md"), Ok("/work/~x/notes.md".to_string()));
    let default = default_path(s(HOME)).unwrap();
    assert_eq!(
        resolve_input("notes.md", &default, s(HOME), Err("gone".to_string())),
        Err("failed to determine current directory: gone".to_string())
    );
    assert_eq!(
        resolve_input("/abs.md", &default, None, Ok("/work".to_string())),
        Err("failed to determine home directory".to_string())
    );
    assert_eq!(default_path(None), Err("failed to determine home directory".to_string()));
}

#[test]
fn prompt_shows_the_default_relative_to_home() {
    assert_eq!(
        display_path("/tmp/home/braindump/braindump.md", s(HOME)),
        "~/braindump/braindump.md"
    );
    assert_eq!(display_path("/elsewhere/n.md", s(HOME)), "/elsewhere/n.md");
    assert_eq!(display_path("/tmp/home", s(HOME)), "/tmp/home");
    assert_eq!(display_path("/tmp/homework/n.md", s(HOME)), "/tmp/homework/n.md");
    assert_eq!(display_path("/tmp/home/n.md", None), "/tmp/home/n.md");
}

#[test]
fn setup_shows_migration_only_when_selected_path_differs() {
    let old = "/tmp/home/braindump/braindump.md";
    assert!(!offers_migration(s(old), old));
    assert!(offers_migration(s(old), "/tmp/home/different.md"));
    assert!(!offers_migration(None, "/tmp/home/different.md"));
}

#[test]
fn choosing_same_path_does_not_show_migration_and_does_not_duplicate() {
    let old = "/tmp/home/braindump/braindump.md";
    assert!(!offers_migration(s(old), &resolve(old).unwrap()));
}

#[test]
fn path_change_prompts_migrate_or_new_default_migrate() {
    assert!(offers_migration(s("/tmp/home/braindump.md"), "/tmp/home/new_dir/notes.md"));
    assert_eq!(migration_answer(s("\n")), MigrationAnswer::Migrate);
}

#[test]
fn choosing_new_creates_or_uses_target_without_copying_old_entries() {
    assert_eq!(migration_answer(s("n\n")), MigrationAnswer::New);
    assert_eq!(migration_answer(s("N")), MigrationAnswer::New);
}

#[test]
fn invalid_migrate_or_new_input_reprompts_and_follows_choice() {
    assert_eq!(migration_answer(s("invalid_choice\n")), MigrationAnswer::AskAgain);
    assert_eq!(migration_answer(s("y\n")), MigrationAnswer::Migrate);
    assert_eq!(migration_answer(s("Y")), MigrationAnswer::Migrate);
    assert_eq!(migration_answer(s("yes")), MigrationAnswer::AskAgain);
}

#[test]
fn end_of_input_at_the_migration_prompt_cancels() {
    assert_eq!(migration_answer(None), MigrationAnswer::Cancel);
}

use braindump::setup::{setup_step, SetupAction, SetupContext, SetupEvent, SetupState};

fn context(existing: Option<&str>) -> SetupContext {
    SetupContext {
        existing: existing.map(str::to_string),
        default: "/tmp/home/braindump/braindump.md".to_string(),
        home: s(HOME),
        cwd: Ok("/work".to_string()),
    }
}

#[test]
fn setup_setup_reprompts_when_the_choice_is_a_directory() {
    let ctx = context(None);
    let (state, action) = setup_step(&ctx, SetupState::AskingPath, SetupEvent::PathLine(s("/tmp/home/adir\n")));
    assert_eq!(action, SetupAction::CheckDirectory("/tmp/home/adir".to_string()));
    let (state, action) = setup_step(&ctx, state, SetupEvent::IsDirectory(true));
    assert_eq!(state, SetupState::AskingPath);
    assert_eq!(action, SetupAction::RejectDirectory("/tmp/home/adir".to_string()));
    let (state, _) = setup_step(&ctx, state, SetupEvent::PathLine(s("/tmp/home/custom.md\n")));
    let (state, action) = setup_step(&ctx, state, SetupEvent::IsDirectory(false));
    assert_eq!(action, SetupAction::Stop);
    assert_eq!(
        state,
        SetupState::Finished { path: "/tmp/home/custom.md".to_string(), migrate_from: None }
    );
}

#[test]
fn setup_setup_rewrites_an_existing_config() {
    let old = "/tmp/home/braindump/braindump.md";
    let ctx = context(Some(old));
    let (state, _) = setup_step(&ctx, SetupState::AskingPath, SetupEvent::PathLine(s("/tmp/home/elsewhere/notes.md\n")));
    let (state, action) = setup_step(&ctx, state, SetupEvent::IsDirectory(false));
    assert_eq!(action, SetupAction::PromptForMigration);
    let (state, action) = setup_step(&ctx, state, SetupEvent::MigrationLine(s("\n")));
    assert_eq!(action, SetupAction::Stop);
    assert_eq!(
        state,
        SetupState::Finished {
            path: "/tmp/home/elsewhere/notes.md".to_string(),
            migrate_from: s(old)
        }
    );
}

#[test]
fn ctrl_d_at_either_prompt_cancels_setup() {
    let ctx = context(Some("/tmp/home/braindump/braindump.md"));
    let (state, action) = setup_step(&ctx, SetupState::AskingPath, SetupEvent::PathLine(None));
    assert_eq!(action, SetupAction::Stop);
    assert_eq!(state, SetupState::Failed { error: "setup cancelled".to_string() });
    let (state, _) = setup_step(
        &ctx,
        SetupState::AskingMigration { path: "/tmp/home/n.md".to_string() },
        SetupEvent::MigrationLine(None),
    );
    assert_eq!(state, SetupState::Failed { error: "setup cancelled".to_string() });
}

#[test]
fn invalid_migration_answer_explains_and_asks_again() {
    let ctx = context(Some("/tmp/home/braindump/braindump.md"));
    let asking = SetupState::AskingMigration { path: "/tmp/home/n.md".to_string() };
    let (state, action) = setup_step(&ctx, asking, SetupEvent::MigrationLine(s("maybe\n")));
    assert_eq!(action, SetupAction::ExplainMigrationAnswer);
    let (state, _) = setup_step(&ctx, state, SetupEvent::MigrationLine(s("n\n")));
    assert_eq!(
        state,
        SetupState::Finished { path: "/tmp/home/n.md".to_string(), migrate_from: None }
    );
}

#[test]
fn first_run_setup_with_default_path_finishes_without_migration() {
    let ctx = context(None);
    let (state, _) = setup_step(&ctx, SetupState::AskingPath, SetupEvent::PathLine(s("\n")));
    let (state, _) = setup_step(&ctx, state, SetupEvent::IsDirectory(false));
    assert_eq!(
        state,
        SetupState::Finished {
            path: "/tmp/home/braindump/braindump.md".to_string(),
            migrate_from: None
        }
    );
}

#[test]
fn cli_setup_reprompts_when_the_choice_is_a_directory() {
    let ctx = context(None);
    let (state, _) = setup_step(&ctx, SetupState::AskingPath, SetupEvent::PathLine(s("/tmp/home/adir\n")));
    let (state, action) = setup_step(&ctx, state, SetupEvent::IsDirectory(true));
    assert_eq!(state, SetupState::AskingPath);
    assert!(matches!(action, SetupAction::RejectDirectory(_)));
}

#[test]
fn cli_setup_rewrites_an_existing_config() {
    let ctx = context(Some("/tmp/home/braindump/braindump.md"));
    let (state, _) = setup_step(&ctx, SetupState::AskingPath, SetupEvent::PathLine(s("/tmp/home/elsewhere/notes.md")));
    let (state, _) = setup_step(&ctx, state, SetupEvent::IsDirectory(false));
    let (state, _) = setup_step(&ctx, state, SetupEvent::MigrationLine(s("n")));
    assert_eq!(
        state,
        SetupState::Finished { path: "/tmp/home/elsewhere/notes.md".to_string(), migrate_from: None }
    );
    assert_eq!(
        config_text("/tmp/home/elsewhere/notes.md"),
        Ok("braindump_file_path = \"/tmp/home/elsewhere/notes.md\"\n".to_string())
    );
}

#[test]
fn setup_setup_expands_a_tilde_in_the_custom_path() {
    let ctx = context(None);
    let (state, action) = setup_step(&ctx, SetupState::AskingPath, SetupEvent::PathLine(s("~/notes.md\n")));
    assert_eq!(action, SetupAction::CheckDirectory("/tmp/home/notes.md".to_string()));
    assert_eq!(state, SetupState::CheckingPath { candidate: "/tmp/home/notes.md".to_string() });
}

#[test]
fn setup_setup_accepts_the_default_path() {
    let ctx = context(None);
    let (state, action) = setup_step(&ctx, SetupState::AskingPath, SetupEvent::PathLine(s("\n")));
    assert_eq!(action, SetupAction::CheckDirectory("/tmp/home/braindump/braindump.md".to_string()));
    let (state, _) = setup_step(&ctx, state, SetupEvent::IsDirectory(false));
    assert!(matches!(state, SetupState::Finished { migrate_from: None, .. }));
}
