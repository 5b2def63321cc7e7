//! Uninstall: the confirmation, what happens to the config directory, and
//! how a binary that cannot be removed is retried.

use vstd::prelude::*;
use crate::config::opt_chars;
use crate::paths::{join, join_spec, path_starts_with, starts_with_path};
use crate::text::{chars_of, trim, trim_spec};

verus! {

/// Whether the line read at `Continue? [y/N]` (`None` at end of input)
/// confirms: `y` or `Y`, surrounding whitespace ignored.
pub open spec fn confirms_spec(line: Option<Seq<char>>) -> bool {
    match line {
        Some(l) => trim_spec(l) == seq!['y'] || trim_spec(l) == seq!['Y'],
        None => false,
    }
}

/// Whether the answer at the uninstall prompt confirms; anything else,
/// including an empty line and end of input, cancels.
pub fn confirms(line: Option<String>) -> (r: bool)
    ensures
        r == confirms_spec(opt_chars(line)),
{
    match line {
        Some(l) => {
            let t = trim(l.as_str());
            let c = chars_of(t.as_str());
            if c.len() == 1 && (c[0] == 'y' || c[0] == 'Y') {
                proof {
                    assert(c@ =~= seq!['y'] || c@ =~= seq!['Y']);
                }
                true
            } else {
                proof {
                    if c@.len() == 1 {
                        assert(c@[0] == c[0]);
                    }
                }
                false
            }
        },
        None => false,
    }
}

/// What uninstall does to the config directory.
#[derive(Debug, PartialEq, Eq)]
pub enum ConfigRemoval {
    /// The braindump file lives inside the config directory: remove only the
    /// config file and keep the directory.
    KeepDirectory { config_file: String },
    /// Remove the whole config directory.
    RemoveDirectory,
}

/// Whether the braindump file `braindump` lies inside `config_dir`.
pub open spec fn inside_spec(braindump: Seq<char>, config_dir: Seq<char>) -> bool {
    path_starts_with(braindump, config_dir)
}

/// The plan for the config directory given the configured braindump file.
pub open spec fn config_removal_matches(configured: Option<Seq<char>>, config_dir: Seq<char>, r: ConfigRemoval) -> bool {
    match configured {
        Some(b) if inside_spec(b, config_dir) => r matches ConfigRemoval::KeepDirectory { config_file } && config_file@
            == join_spec(config_dir, "config.toml"@),
        _ => r == ConfigRemoval::RemoveDirectory,
    }
}

/// Decides what uninstall removes of `config_dir`: when the configured
/// braindump file lies inside it, only the config file, so that the notes
/// stay; otherwise the whole directory.
pub fn config_removal(configured: Option<String>, config_dir: &str) -> (r: ConfigRemoval)
    ensures
        config_removal_matches(opt_chars(configured), config_dir@, r),
{
    match configured {
        Some(b) => {
            if starts_with_path(b.as_str(), config_dir) {
                ConfigRemoval::KeepDirectory { config_file: join(config_dir, "config.toml") }
            } else {
                ConfigRemoval::RemoveDirectory
            }
        },
        None => ConfigRemoval::RemoveDirectory,
    }
}

/// What removing the binary gave.
#[derive(Clone, Copy, Debug, PartialEq, Eq)]
pub enum RemovalOutcome {
    Removed,
    PermissionDenied,
    Failed,
}

/// What to do after trying to remove the binary.
#[derive(Clone, Copy, Debug, PartialEq, Eq)]
pub enum BinaryStep {
    Done,
    RetryWithSudo,
    Fail,
}

/// After removing the binary: done when it went, retry with sudo when
/// permission was denied, fail otherwise.
pub fn after_binary_removal(outcome: RemovalOutcome) -> (r: BinaryStep)
    ensures
        outcome == RemovalOutcome::Removed ==> r == BinaryStep::Done,
        outcome == RemovalOutcome::PermissionDenied ==> r == BinaryStep::RetryWithSudo,
        outcome == RemovalOutcome::Failed ==> r == BinaryStep::Fail,
{
    match outcome {
        RemovalOutcome::Removed => BinaryStep::Done,
        RemovalOutcome::PermissionDenied => BinaryStep::RetryWithSudo,
        RemovalOutcome::Failed => BinaryStep::Fail,
    }
}

/// The program that removes the binary with raised rights: the value of
/// `BD_SUDO` when it is set, else `sudo`.
pub fn sudo_program(configured: Option<String>) -> (r: String)
    ensures
        configured matches Some(s) ==> r@ == s@,
        configured is None ==> r@ == "sudo"@,
{
    match configured {
        Some(s) => s,
        None => "sudo".to_owned(),
    }
}

/// Uninstall never removes a directory that holds the braindump file: when
/// the configured file lies inside the config directory, only the config file
/// is removed.
pub proof fn law_uninstall_keeps_the_braindump_directory(braindump: Seq<char>, config_dir: Seq<char>, r: ConfigRemoval)
    requires
        config_removal_matches(Some(braindump), config_dir, r),
        inside_spec(braindump, config_dir),
    ensures
        r != ConfigRemoval::RemoveDirectory,
{
}

} // verus!
