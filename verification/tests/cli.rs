use braindump::cli::{parse_args, Command, Input};
use braindump::journal::entry_text;
use braindump::note::{is_blank, normalize_note, trim_blank_lines};

fn args(list: &[&str]) -> Vec<String> {
    list.iter().map(|s| s.to_string()).collect()
}

fn literal(list: &[&str]) -> String {
    match parse_args(&args(list)) {
        Input::Literal(text) => text,
        other => panic!("expected note text, got {other:?}"),
    }
}

fn appended_note(list: &[&str]) -> String {
    let note = normalize_note(&literal(list));
    entry_text("", "2026-08-11", "14:37:01", &note)
}

#[test]
fn inline_dump_joins_arguments_without_changing_interior_spacing() {
    assert!(appended_note(&["foo", "bar  baz", "qux"]).ends_with("foo bar  baz qux\n"));
}

#[test]
fn dash_prefixed_arguments_are_literal_note_text() {
    assert!(appended_note(&["git", "checkout", "-f"]).ends_with("git checkout -f\n"));
}

#[test]
fn blank_inline_dumps_are_silent_no_ops() {
    for arguments in [vec![""], vec!["  "]] {
        let note = normalize_note(&literal(&arguments));
        assert!(is_blank(&note));
    }
}

#[test]
fn inline_dump_normalizes_line_endings_and_keeps_one_trailing_lf() {
    let content = appended_note(&["first\r\nsecond\rthird\n"]);
    assert!(content.ends_with("first\nsecond\nthird\n"));
    assert!(!content.contains('\r'));
    assert!(!content.ends_with("third\n\n"));
}

#[test]
fn no_argument_multiline_stdin_is_appended() {
    assert_eq!(parse_args(&Vec::new()), Input::Interactive);
    let note = trim_blank_lines("first line\nsecond line\n");
    let content = entry_text("", "2026-08-11", "14:37:01", &note);
    let lines: Vec<_> = content.lines().collect();
    assert_eq!(lines.len(), 5);
    assert_eq!(lines[0], "# 2026-08-11");
    assert_eq!(lines[1], "");
    assert_eq!(lines[2], "## 14:37:01");
    assert_eq!(lines[3], "first line");
    assert_eq!(lines[4], "second line");
    assert!(content.ends_with('\n'));
}

#[test]
fn interactive_input_trims_leading_and_trailing_blank_lines() {
    let note = trim_blank_lines("\n\nfirst line\nsecond line\n\n  \n");
    let content = entry_text("", "2026-08-11", "14:37:01", &note);
    assert!(content.ends_with("first line\nsecond line\n"));
    assert!(!content.contains("\n\nfirst line"));
}

#[test]
fn interactive_input_preserves_interior_blank_lines_and_formatting() {
    let note = trim_blank_lines("  indented\n\n\tTabbed\n\n\nspaced    out\n\nfinal\n");
    let content = entry_text("", "2026-08-11", "14:37:01", &note);
    assert!(content.ends_with("  indented\n\n\tTabbed\n\n\nspaced    out\n\nfinal\n"));
}

#[test]
fn all_blank_interactive_input_is_a_silent_no_op() {
    let note = trim_blank_lines("\n\n   \n\t\n\n");
    assert_eq!(note, "");
    assert!(is_blank(&note));
}

#[test]
fn inline_arguments_take_precedence_over_stdin() {
    assert_eq!(parse_args(&args(&["inline note"])), Input::Literal("inline note".to_string()));
}

#[test]
fn version_flag_prints_the_version_without_writing() {
    for flag in ["-v", "--version"] {
        assert_eq!(parse_args(&args(&[flag])), Input::Command(Command::Version));
    }
}

#[test]
fn help_flag_prints_usage_without_writing() {
    for flag in ["-h", "--help"] {
        assert_eq!(parse_args(&args(&[flag])), Input::Command(Command::Help));
    }
}

#[test]
fn setup_and_uninstall_are_commands_only_at_the_first_position() {
    assert_eq!(parse_args(&args(&["--setup"])), Input::Command(Command::Setup));
    assert_eq!(parse_args(&args(&["--uninstall"])), Input::Command(Command::Uninstall));
    assert_eq!(
        parse_args(&args(&["--setup", "now"])),
        Input::Command(Command::Setup)
    );
    assert_eq!(
        parse_args(&args(&["please", "--setup"])),
        Input::Literal("please --setup".to_string())
    );
}

#[test]
fn dash_prefixed_first_argument_is_literal_note_text() {
    assert!(appended_note(&["-important", "note"]).ends_with("-important note\n"));
}

#[test]
fn command_like_tokens_outside_first_position_are_literal_text() {
    assert!(appended_note(&["call", "-h", "support"]).ends_with("call -h support\n"));
}

#[test]
fn double_dash_at_first_position_forces_literal_text() {
    let content = appended_note(&["--", "--search", "foo"]);
    let last_line = content.lines().last().expect("content has a note");
    assert_eq!(last_line, "--search foo");
    assert!(!content.contains("-- --search"));
}

#[test]
fn double_dash_makes_even_command_like_tokens_literal() {
    for arguments in [["--", "-h"], ["--", "--setup"]] {
        let content = appended_note(&arguments);
        let last_line = content.lines().last().expect("content has a note");
        assert_eq!(last_line, arguments[1]);
        assert!(!content.contains(&format!("-- {}", arguments[1])));
    }
}

#[test]
fn bare_double_dash_is_a_silent_no_op() {
    let text = literal(&["--"]);
    assert_eq!(text, "");
    assert!(is_blank(&normalize_note(&text)));
}

#[test]
fn normalize_note_handles_mixed_line_endings() {
    assert_eq!(normalize_note("a\r\r\nb"), "a\n\nb");
    assert_eq!(normalize_note("a\n\n\n"), "a");
    assert_eq!(normalize_note("\r\n"), "");
    assert_eq!(normalize_note("x\ry"), "x\ny");
}

#[test]
fn trim_blank_lines_keeps_partial_whitespace_of_kept_lines() {
    assert_eq!(trim_blank_lines("  \n  a  \n \n"), "  a  ");
    assert_eq!(trim_blank_lines("a"), "a");
    assert_eq!(trim_blank_lines(""), "");
    assert_eq!(trim_blank_lines("\u{3000}\nnote\u{a0}\n\u{2028}"), "note\u{a0}");
}

#[test]
fn blankness_uses_unicode_whitespace() {
    assert!(is_blank(""));
    assert!(is_blank(" \t\r\n\u{85}\u{a0}\u{2003}\u{3000}"));
    assert!(!is_blank(" x "));
    assert!(!is_blank("\u{200b}"));
}

#[test]
fn trim_blank_lines_keeps_the_lines_between_the_outer_non_blank_ones() {
    assert_eq!(
        trim_blank_lines("\r\n first\r\n\r\nlast\r\n\r\n"),
        " first\r\n\r\nlast\r"
    );
    assert_eq!(trim_blank_lines("\n \nx\n\t\ny\n"), "x\n\t\ny");
}
