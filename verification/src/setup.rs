//! Setup: the default braindump file path, how a typed path is resolved,
//! how a path is shown, and the migrate-or-new choice.

use vstd::prelude::*;
use crate::config::{opt_chars, res_chars};
use crate::paths::{
    is_absolute, is_absolute_spec, join, join_spec, path_after_prefix, paths_equal, same_path,
    strip_path_prefix,
};
use crate::text::{
    all_ws, chars_of, lemma_first_non_ws_bounds, push_all, string_from_chars, trim, trim_spec,
};

verus! {

/// The error when the home directory cannot be determined.
pub open spec fn no_home_error() -> Seq<char> {
    "failed to determine home directory"@
}

/// The default braindump file: `~/braindump/braindump.md`.
pub open spec fn default_path_spec(home: Option<Seq<char>>) -> Result<Seq<char>, Seq<char>> {
    match home {
        Some(h) => Ok(join_spec(h, "braindump/braindump.md"@)),
        None => Err(no_home_error()),
    }
}

/// The default braindump file path for the home directory `home`.
pub fn default_path(home: Option<String>) -> (r: Result<String, String>)
    ensures
        res_chars(r) == default_path_spec(opt_chars(home)),
{
    match home {
        Some(h) => Ok(join(h.as_str(), "braindump/braindump.md")),
        None => Err("failed to determine home directory".to_owned()),
    }
}

/// A typed path with a leading `~` expanded: `~` alone is the home
/// directory, `~/rest` is `rest` under it, anything else is kept.
pub open spec fn expand_tilde(input: Seq<char>, home: Seq<char>) -> Seq<char> {
    if input == seq!['~'] {
        home
    } else if input.len() >= 2 && input[0] == '~' && input[1] == '/' {
        join_spec(home, input.skip(2))
    } else {
        input
    }
}

/// The braindump file path that setup takes from the typed answer `input`
/// (already trimmed): the default for an empty answer; otherwise the answer
/// with `~` expanded, made absolute against the current directory. The home
/// directory is needed for any non-empty answer; the current directory only
/// for a relative one, and then the `Err` of `cwd` is reported.
pub open spec fn resolve_input_spec(
    input: Seq<char>,
    default: Seq<char>,
    home: Option<Seq<char>>,
    cwd: Result<Seq<char>, Seq<char>>,
) -> Result<Seq<char>, Seq<char>> {
    if input.len() == 0 {
        Ok(default)
    } else {
        match home {
            None => Err(no_home_error()),
            Some(h) => {
                let candidate = expand_tilde(input, h);
                if is_absolute_spec(candidate) {
                    Ok(candidate)
                } else {
                    match cwd {
                        Ok(c) => Ok(join_spec(c, candidate)),
                        Err(e) => Err("failed to determine current directory: "@ + e),
                    }
                }
            },
        }
    }
}

/// Resolves the answer typed at the path prompt (already trimmed) against
/// the default path, the home directory and the current directory (or the
/// error that reading it gave).
pub fn resolve_input(
    input: &str,
    default: &str,
    home: Option<String>,
    cwd: Result<String, String>,
) -> (r: Result<String, String>)
    ensures
        res_chars(r) == resolve_input_spec(input@, default@, opt_chars(home), res_chars(cwd)),
{
    let inp = chars_of(input);
    if inp.len() == 0 {
        return Ok(default.to_owned());
    }
    let h = match home {
        Some(h) => h,
        None => {
            return Err("failed to determine home directory".to_owned());
        },
    };
    let candidate = if inp.len() == 1 && inp[0] == '~' {
        proof {
            assert(inp@ =~= seq!['~']);
        }
        h
    } else if inp.len() >= 2 && inp[0] == '~' && inp[1] == '/' {
        let mut rest: Vec<char> = Vec::new();
        let mut i: usize = 2;
        while i < inp.len()
            invariant
                2 <= i <= inp@.len(),
                rest@ == inp@.subrange(2, i as int),
            decreases inp@.len() - i,
        {
            rest.push(inp[i]);
            i = i + 1;
            proof {
                assert(rest@ =~= inp@.subrange(2, i as int));
            }
        }
        proof {
            assert(inp@.subrange(2, inp@.len() as int) =~= inp@.skip(2));
            assert(inp@ != seq!['~']);
        }
        let rest_text = string_from_chars(&rest);
        join(h.as_str(), rest_text.as_str())
    } else {
        proof {
            if inp@ == seq!['~'] {
                assert(inp@.len() == 1);
            }
        }
        input.to_owned()
    };
    if is_absolute(candidate.as_str()) {
        Ok(candidate)
    } else {
        match cwd {
            Ok(c) => Ok(join(c.as_str(), candidate.as_str())),
            Err(e) => {
                let mut msg = chars_of("failed to determine current directory: ");
                let ec = chars_of(e.as_str());
                push_all(&mut msg, &ec);
                Err(string_from_chars(&msg))
            },
        }
    }
}

/// How setup shows `path` in its prompt: `~/rest` when the path lies strictly
/// inside the home directory, the path itself otherwise.
pub open spec fn display_path_spec(path: Seq<char>, home: Option<Seq<char>>) -> Seq<char> {
    match home {
        Some(h) => match path_after_prefix(path, h) {
            Some(rest) => if rest.len() > 0 {
                seq!['~', '/'] + rest
            } else {
                path
            },
            None => path,
        },
        None => path,
    }
}

/// Shows `path` relative to the home directory where it lies inside it.
pub fn display_path(path: &str, home: Option<String>) -> (r: String)
    ensures
        r@ == display_path_spec(path@, opt_chars(home)),
{
    match home {
        Some(h) => match strip_path_prefix(path, h.as_str()) {
            Some(rest) => {
                let rc = chars_of(rest.as_str());
                if rc.len() > 0 {
                    let mut out: Vec<char> = Vec::new();
                    out.push('~');
                    out.push('/');
                    push_all(&mut out, &rc);
                    proof {
                        assert(out@ =~= seq!['~', '/'] + rest@);
                    }
                    string_from_chars(&out)
                } else {
                    path.to_owned()
                }
            },
            None => path.to_owned(),
        },
        None => path.to_owned(),
    }
}

/// Whether setup asks to migrate: there is a usable configured path and the
/// chosen path is a different one.
pub open spec fn offers_migration_spec(existing: Option<Seq<char>>, chosen: Seq<char>) -> bool {
    match existing {
        Some(e) => !paths_equal(e, chosen),
        None => false,
    }
}

/// Whether setup asks to migrate from the configured path `existing` to the
/// chosen path.
pub fn offers_migration(existing: Option<String>, chosen: &str) -> (r: bool)
    ensures
        r == offers_migration_spec(opt_chars(existing), chosen@),
{
    match existing {
        Some(e) => !same_path(e.as_str(), chosen),
        None => false,
    }
}

/// What an answer at the migration prompt means.
#[derive(Clone, Copy, Debug, PartialEq, Eq)]
pub enum MigrationAnswer {
    /// Copy the entries of the old file into the new one (the default).
    Migrate,
    /// Start using the new file without copying.
    New,
    /// End of input: setup is cancelled.
    Cancel,
    /// Not an answer: ask again.
    AskAgain,
}

/// The meaning of the line read at the migration prompt (`None` at end of
/// input): empty, `y` or `Y` migrates; `n` or `N` starts new; anything else
/// asks again. Surrounding whitespace is ignored.
pub open spec fn migration_answer_spec(line: Option<Seq<char>>) -> MigrationAnswer {
    match line {
        None => MigrationAnswer::Cancel,
        Some(l) => {
            let t = trim_spec(l);
            if t.len() == 0 || t == seq!['y'] || t == seq!['Y'] {
                MigrationAnswer::Migrate
            } else if t == seq!['n'] || t == seq!['N'] {
                MigrationAnswer::New
            } else {
                MigrationAnswer::AskAgain
            }
        },
    }
}

/// Reads the answer given at the migration prompt.
pub fn migration_answer(line: Option<String>) -> (r: MigrationAnswer)
    ensures
        r == migration_answer_spec(opt_chars(line)),
{
    match line {
        None => MigrationAnswer::Cancel,
        Some(l) => {
            let t = trim(l.as_str());
            let c = chars_of(t.as_str());
            if c.len() == 0 {
                MigrationAnswer::Migrate
            } else if c.len() == 1 && (c[0] == 'y' || c[0] == 'Y') {
                proof {
                    assert(c@ =~= seq!['y'] || c@ =~= seq!['Y']);
                }
                MigrationAnswer::Migrate
            } else if c.len() == 1 && (c[0] == 'n' || c[0] == 'N') {
                proof {
                    assert(c@ =~= seq!['n'] || c@ =~= seq!['N']);
                    assert(c@ != seq!['y'] && c@ != seq!['Y']);
                }
                MigrationAnswer::New
            } else {
                proof {
                    if c@.len() == 1 {
                        assert(c@ != seq!['y'] && c@ != seq!['Y'] && c@ != seq!['n'] && c@ != seq!['N']) by {
                            assert(c@[0] == c[0]);
                        }
                    }
                }
                MigrationAnswer::AskAgain
            }
        },
    }
}

/// Setup asks to migrate only when a usable path was configured and a
/// different one is chosen: never on first run or after a defective config,
/// and never when the same path is chosen again.
pub proof fn law_migration_offered_only_for_a_new_path(existing: Option<Seq<char>>, chosen: Seq<char>)
    ensures
        existing is None ==> !offers_migration_spec(existing, chosen),
        existing == Some(chosen) ==> !offers_migration_spec(existing, chosen),
{
}

/// A non-empty answer is resolved to an absolute path when the current
/// directory is absolute: `~` is expanded against the home directory and a
/// relative path is taken under the current directory.
pub proof fn law_resolved_path_is_absolute(
    input: Seq<char>,
    default: Seq<char>,
    home: Seq<char>,
    cwd: Seq<char>,
)
    requires
        input.len() > 0,
        is_absolute_spec(cwd),
    ensures
        resolve_input_spec(input, default, Some(home), Ok(cwd)) matches Ok(p) && is_absolute_spec(p),
{
    let candidate = expand_tilde(input, home);
    if !is_absolute_spec(candidate) {
        let p = join_spec(cwd, candidate);
        assert(p[0] == cwd[0]);
    }
}

/// Where the interactive setup stands.
#[derive(Debug, PartialEq, Eq)]
pub enum SetupState {
    /// Waiting for the answer at the path prompt.
    AskingPath,
    /// A path was resolved; waiting to learn whether it is a directory.
    CheckingPath { candidate: String },
    /// A new path was chosen; waiting for the migrate-or-new answer.
    AskingMigration { path: String },
    /// Setup chose `path`, and the old path to migrate from, if any.
    Finished { path: String, migrate_from: Option<String> },
    /// Setup ended without a path.
    Failed { error: String },
}

/// What the program learned since the last step.
#[derive(Debug, PartialEq, Eq)]
pub enum SetupEvent {
    /// The line read at the path prompt; `None` at end of input.
    PathLine(Option<String>),
    /// Whether the candidate path is an existing directory.
    IsDirectory(bool),
    /// The line read at the migration prompt; `None` at end of input.
    MigrationLine(Option<String>),
}

/// What the program does next.
#[derive(Debug, PartialEq, Eq)]
pub enum SetupAction {
    /// Show the path prompt and read a line.
    PromptForPath,
    /// Find out whether this path is an existing directory.
    CheckDirectory(String),
    /// Say that this path is a directory, then show the path prompt again.
    RejectDirectory(String),
    /// Show the migration prompt and read a line.
    PromptForMigration,
    /// Say which answers the migration prompt takes, then show it again.
    ExplainMigrationAnswer,
    /// Setup is over: its state says how.
    Stop,
}

/// What setup works with: the usable configured path, if any, the default
/// path, the home directory, and the current directory (or the error that
/// reading it gave).
pub struct SetupContext {
    pub existing: Option<String>,
    pub default: String,
    pub home: Option<String>,
    pub cwd: Result<String, String>,
}

/// The error when setup is cancelled at a prompt.
pub open spec fn cancelled_error() -> Seq<char> {
    "setup cancelled"@
}

/// The action that a state waits on.
pub open spec fn request_for(state: SetupState) -> SetupAction {
    match state {
        SetupState::AskingPath => SetupAction::PromptForPath,
        SetupState::CheckingPath { candidate } => SetupAction::CheckDirectory(candidate),
        SetupState::AskingMigration { .. } => SetupAction::PromptForMigration,
        _ => SetupAction::Stop,
    }
}

/// Setup failed with the error `e` and stops.
pub open spec fn fails_with(r: (SetupState, SetupAction), e: Seq<char>) -> bool {
    &&& r.0 matches SetupState::Failed { error } && error@ == e
    &&& r.1 == SetupAction::Stop
}

/// One step of setup: from `state`, on `event`, the next state and action.
pub open spec fn setup_step_matches(
    ctx: SetupContext,
    state: SetupState,
    event: SetupEvent,
    r: (SetupState, SetupAction),
) -> bool {
    match (state, event) {
        (SetupState::AskingPath, SetupEvent::PathLine(None)) => fails_with(r, cancelled_error()),
        (SetupState::AskingPath, SetupEvent::PathLine(Some(line))) => match resolve_input_spec(
            trim_spec(line@),
            ctx.default@,
            opt_chars(ctx.home),
            res_chars(ctx.cwd),
        ) {
            Ok(c) => {
                &&& r.0 matches SetupState::CheckingPath { candidate } && candidate@ == c
                &&& r.1 matches SetupAction::CheckDirectory(x) && x@ == c
            },
            Err(e) => fails_with(r, e),
        },
        (SetupState::CheckingPath { candidate }, SetupEvent::IsDirectory(true)) => {
            &&& r.0 == SetupState::AskingPath
            &&& r.1 matches SetupAction::RejectDirectory(x) && x@ == candidate@
        },
        (SetupState::CheckingPath { candidate }, SetupEvent::IsDirectory(false)) => {
            if offers_migration_spec(opt_chars(ctx.existing), candidate@) {
                &&& r.0 matches SetupState::AskingMigration { path } && path@ == candidate@
                &&& r.1 == SetupAction::PromptForMigration
            } else {
                &&& r.0 matches SetupState::Finished { path, migrate_from } && path@ == candidate@
                    && migrate_from is None
                &&& r.1 == SetupAction::Stop
            }
        },
        (SetupState::AskingMigration { path }, SetupEvent::MigrationLine(line)) => {
            match migration_answer_spec(opt_chars(line)) {
                MigrationAnswer::Migrate => {
                    &&& r.0 matches SetupState::Finished { path: p, migrate_from } && p@ == path@
                        && opt_chars(migrate_from) == opt_chars(ctx.existing)
                    &&& r.1 == SetupAction::Stop
                },
                MigrationAnswer::New => {
                    &&& r.0 matches SetupState::Finished { path: p, migrate_from } && p@ == path@
                        && migrate_from is None
                    &&& r.1 == SetupAction::Stop
                },
                MigrationAnswer::Cancel => fails_with(r, cancelled_error()),
                MigrationAnswer::AskAgain => {
                    &&& r.0 matches SetupState::AskingMigration { path: p } && p@ == path@
                    &&& r.1 == SetupAction::ExplainMigrationAnswer
                },
            }
        },
        (SetupState::Finished { path, migrate_from }, _) => {
            &&& r.0 == SetupState::Finished { path, migrate_from }
            &&& r.1 == SetupAction::Stop
        },
        (SetupState::Failed { error }, _) => {
            &&& r.0 == SetupState::Failed { error }
            &&& r.1 == SetupAction::Stop
        },
        (other, _) => {
            &&& r.0 == other
            &&& r.1 == request_for(other)
        },
    }
}

fn copy_result(r: &Result<String, String>) -> (c: Result<String, String>)
    ensures
        res_chars(c) == res_chars(*r),
{
    match r {
        Ok(v) => Ok(v.clone()),
        Err(e) => Err(e.clone()),
    }
}

fn request(state: SetupState) -> (r: (SetupState, SetupAction))
    ensures
        r.0 == state,
        r.1 == request_for(state),
{
    match state {
        SetupState::AskingPath => (SetupState::AskingPath, SetupAction::PromptForPath),
        SetupState::CheckingPath { candidate } => {
            let again = candidate.clone();
            (SetupState::CheckingPath { candidate }, SetupAction::CheckDirectory(again))
        },
        SetupState::AskingMigration { path } => (
            SetupState::AskingMigration { path },
            SetupAction::PromptForMigration,
        ),
        other => (other, SetupAction::Stop),
    }
}

/// One step of the interactive setup. Setup asks for a path (an empty answer
/// takes the default, `~` is expanded, a relative path is taken under the
/// current directory); a directory is rejected and the path asked again; when
/// a usable path was configured and a different one is chosen it asks whether
/// to migrate (the default), start new, or, for any other answer, asks again.
/// End of input at either prompt cancels setup.
pub fn setup_step(ctx: &SetupContext, state: SetupState, event: SetupEvent) -> (r: (SetupState, SetupAction))
    ensures
        setup_step_matches(*ctx, state, event, r),
{
    match (state, event) {
        (SetupState::AskingPath, SetupEvent::PathLine(None)) => (
            SetupState::Failed { error: "setup cancelled".to_owned() },
            SetupAction::Stop,
        ),
        (SetupState::AskingPath, SetupEvent::PathLine(Some(line))) => {
            let answer = trim(line.as_str());
            match resolve_input(answer.as_str(), ctx.default.as_str(), ctx.home.clone(), copy_result(&ctx.cwd)) {
                Ok(c) => {
                    let again = c.clone();
                    (SetupState::CheckingPath { candidate: c }, SetupAction::CheckDirectory(again))
                },
                Err(e) => (SetupState::Failed { error: e }, SetupAction::Stop),
            }
        },
        (SetupState::CheckingPath { candidate }, SetupEvent::IsDirectory(is_dir)) => {
            if is_dir {
                (SetupState::AskingPath, SetupAction::RejectDirectory(candidate))
            } else if offers_migration(ctx.existing.clone(), candidate.as_str()) {
                (SetupState::AskingMigration { path: candidate }, SetupAction::PromptForMigration)
            } else {
                (SetupState::Finished { path: candidate, migrate_from: None }, SetupAction::Stop)
            }
        },
        (SetupState::AskingMigration { path }, SetupEvent::MigrationLine(line)) => {
            match migration_answer(line) {
                MigrationAnswer::Migrate => (
                    SetupState::Finished { path, migrate_from: ctx.existing.clone() },
                    SetupAction::Stop,
                ),
                MigrationAnswer::New => (
                    SetupState::Finished { path, migrate_from: None },
                    SetupAction::Stop,
                ),
                MigrationAnswer::Cancel => (
                    SetupState::Failed { error: "setup cancelled".to_owned() },
                    SetupAction::Stop,
                ),
                MigrationAnswer::AskAgain => (
                    SetupState::AskingMigration { path },
                    SetupAction::ExplainMigrationAnswer,
                ),
            }
        },
        (SetupState::Finished { path, migrate_from }, _) => (
            SetupState::Finished { path, migrate_from },
            SetupAction::Stop,
        ),
        (SetupState::Failed { error }, _) => (SetupState::Failed { error }, SetupAction::Stop),
        (other, _) => request(other),
    }
}

/// Setup never settles on a directory, and asks to migrate only for a new
/// path: a step that finishes setup with a path, or that moves to the
/// migration prompt for it, comes right after the check that the path is no
/// directory, or from the migration prompt for that same path; and the move
/// to the migration prompt happens only when a usable path was configured and
/// the chosen one differs from it.
pub proof fn law_setup_settles_only_on_checked_paths(
    ctx: SetupContext,
    state: SetupState,
    event: SetupEvent,
    r: (SetupState, SetupAction),
    chosen: Seq<char>,
)
    requires
        setup_step_matches(ctx, state, event, r),
        !(state is Finished),
        (r.0 matches SetupState::Finished { path, .. } && path@ == chosen) || (
        r.0 matches SetupState::AskingMigration { path } && path@ == chosen),
    ensures
        (state matches SetupState::CheckingPath { candidate } && candidate@ == chosen && event
            == SetupEvent::IsDirectory(false)) || (state matches SetupState::AskingMigration {
            path,
        } && path@ == chosen),
        (state is CheckingPath && r.0 is AskingMigration) ==> offers_migration_spec(
            opt_chars(ctx.existing),
            chosen,
        ),
{
}

/// Setup migrates only from the configured path, and only at the migration
/// prompt: a step that finishes setup with a path to migrate from was taken
/// at the migration prompt, and that path is the configured one.
pub proof fn law_migration_source_is_the_configured_path(
    ctx: SetupContext,
    state: SetupState,
    event: SetupEvent,
    r: (SetupState, SetupAction),
)
    requires
        setup_step_matches(ctx, state, event, r),
        !(state is Finished),
        r.0 matches SetupState::Finished { migrate_from, .. } && migrate_from is Some,
    ensures
        state is AskingMigration,
        r.0 matches SetupState::Finished { migrate_from, .. } && opt_chars(migrate_from) == opt_chars(
            ctx.existing,
        ),
{
}

/// Migration is the default: pressing Enter at the migration prompt finishes
/// setup with the configured path as the source to migrate.
pub proof fn law_enter_at_migration_prompt_migrates(
    ctx: SetupContext,
    path: String,
    line: String,
    r: (SetupState, SetupAction),
)
    requires
        all_ws(line@),
        setup_step_matches(ctx, SetupState::AskingMigration { path }, SetupEvent::MigrationLine(Some(line)), r),
    ensures
        r.0 matches SetupState::Finished { path: p, migrate_from } && p@ == path@ && opt_chars(
            migrate_from,
        ) == opt_chars(ctx.existing),
{
    lemma_trim_all_ws(line@);
}

proof fn lemma_trim_all_ws(l: Seq<char>)
    requires
        all_ws(l),
    ensures
        trim_spec(l).len() == 0,
{
    lemma_first_non_ws_bounds(l, 0);
}

/// Migration is offered exactly when a usable path was configured and the
/// chosen path is another path: their components differ. Choosing the same
/// path, however written, asks nothing; any other path is offered.
pub proof fn law_migration_offered_exactly_for_another_path(
    existing: Option<Seq<char>>,
    chosen: Seq<char>,
)
    ensures
        existing is None ==> !offers_migration_spec(existing, chosen),
        existing matches Some(e) ==> (offers_migration_spec(existing, chosen) <==> crate::paths::components(e)
            != crate::paths::components(chosen)),
{
}

} // verus!
