//! The command line: a slot-0 allow-list of commands, a `--` escape, and
//! everything else joined into note text.

use vstd::prelude::*;
use crate::text::{chars_of, push_all, string_from_chars};

verus! {

/// A command recognized at the first position.
#[derive(Clone, Copy, Debug, PartialEq, Eq)]
pub enum Command {
    Help,
    Setup,
    Uninstall,
    Version,
}

/// What an invocation asks for.
#[derive(Debug, PartialEq, Eq)]
pub enum Input {
    Command(Command),
    Literal(String),
    Interactive,
}

/// The command that the first argument names exactly, if any.
pub open spec fn command_for(arg: Seq<char>) -> Option<Command> {
    if arg == seq!['-', 'h'] || arg == seq!['-', '-', 'h', 'e', 'l', 'p'] {
        Some(Command::Help)
    } else if arg == seq!['-', 'v'] || arg == seq!['-', '-', 'v', 'e', 'r', 's', 'i', 'o', 'n'] {
        Some(Command::Version)
    } else if arg == seq!['-', '-', 's', 'e', 't', 'u', 'p'] {
        Some(Command::Setup)
    } else if arg == seq!['-', '-', 'u', 'n', 'i', 'n', 's', 't', 'a', 'l', 'l'] {
        Some(Command::Uninstall)
    } else {
        None
    }
}

/// `parts` joined with single spaces.
pub open spec fn join_spaced(parts: Seq<Seq<char>>) -> Seq<char>
    decreases parts.len(),
{
    if parts.len() == 0 {
        Seq::empty()
    } else if parts.len() == 1 {
        parts[0]
    } else {
        join_spaced(parts.drop_last()) + seq![' '] + parts.last()
    }
}

/// The note text of a literal invocation: all arguments joined with spaces,
/// without a leading `--`.
pub open spec fn literal_text(args: Seq<Seq<char>>) -> Seq<char> {
    if args.len() > 0 && args[0] == seq!['-', '-'] {
        join_spaced(args.skip(1))
    } else {
        join_spaced(args)
    }
}

/// What the arguments (without the program name) ask for.
pub open spec fn input_matches(args: Seq<Seq<char>>, r: Input) -> bool {
    match r {
        Input::Interactive => args.len() == 0,
        Input::Command(c) => args.len() > 0 && command_for(args[0]) == Some(c),
        Input::Literal(t) => args.len() > 0 && command_for(args[0]) is None && t@ == literal_text(args),
    }
}

/// Whether two texts are the same.
pub fn same_text(a: &str, b: &str) -> (r: bool)
    ensures
        r == (a@ == b@),
{
    let x = chars_of(a);
    let y = chars_of(b);
    if x.len() != y.len() {
        return false;
    }
    let mut i: usize = 0;
    while i < x.len()
        invariant
            x@ == a@,
            y@ == b@,
            x@.len() == y@.len(),
            0 <= i <= x@.len(),
            forall|k: int| 0 <= k < i ==> x@[k] == y@[k],
        decreases x@.len() - i,
    {
        if x[i] != y[i] {
            return false;
        }
        i = i + 1;
    }
    proof {
        assert(x@ =~= y@);
    }
    true
}

fn command_of(arg: &str) -> (r: Option<Command>)
    ensures
        r == command_for(arg@),
{
    proof {
        reveal_strlit("-h");
        reveal_strlit("--help");
        reveal_strlit("-v");
        reveal_strlit("--version");
        reveal_strlit("--setup");
        reveal_strlit("--uninstall");
        assert("-h"@ =~= seq!['-', 'h']);
        assert("--help"@ =~= seq!['-', '-', 'h', 'e', 'l', 'p']);
        assert("-v"@ =~= seq!['-', 'v']);
        assert("--version"@ =~= seq!['-', '-', 'v', 'e', 'r', 's', 'i', 'o', 'n']);
        assert("--setup"@ =~= seq!['-', '-', 's', 'e', 't', 'u', 'p']);
        assert("--uninstall"@ =~= seq!['-', '-', 'u', 'n', 'i', 'n', 's', 't', 'a', 'l', 'l']);
    }
    if same_text(arg, "-h") || same_text(arg, "--help") {
        Some(Command::Help)
    } else if same_text(arg, "-v") || same_text(arg, "--version") {
        Some(Command::Version)
    } else if same_text(arg, "--setup") {
        Some(Command::Setup)
    } else if same_text(arg, "--uninstall") {
        Some(Command::Uninstall)
    } else {
        None
    }
}

/// Joins `args[from..]` with single spaces.
fn join_from(args: &Vec<String>, from: usize) -> (r: String)
    requires
        from <= args.len(),
    ensures
        r@ == join_spaced(args.deep_view().skip(from as int)),
{
    let ghost parts = args.deep_view().skip(from as int);
    let mut out: Vec<char> = Vec::new();
    let mut i: usize = from;
    while i < args.len()
        invariant
            from <= i <= args.len(),
            parts == args.deep_view().skip(from as int),
            out@ == join_spaced(parts.take(i - from)),
        decreases args.len() - i,
    {
        let ghost before = parts.take(i - from);
        if i > from {
            out.push(' ');
        }
        let c = chars_of(args[i].as_str());
        push_all(&mut out, &c);
        i = i + 1;
        proof {
            let now = parts.take(i - from);
            assert(now.drop_last() =~= before);
            assert(now.last() == args.deep_view()[i - 1]);
            assert(args.deep_view()[i - 1] == args@[i - 1]@);
            if i - 1 > from {
                assert(out@ =~= join_spaced(before) + seq![' '] + now.last());
            } else {
                assert(before.len() == 0);
                assert(out@ =~= now[0]);
            }
        }
    }
    proof {
        assert(parts.take(i - from) =~= parts);
    }
    string_from_chars(&out)
}

/// Reads the arguments that follow the program name: an exact `-h`/`--help`,
/// `-v`/`--version`, `--setup` or `--uninstall` at the first position is a
/// command; no arguments means interactive input; anything else is note text,
/// the arguments joined with single spaces, without a leading `--`.
pub fn parse_args(args: &Vec<String>) -> (r: Input)
    ensures
        input_matches(args.deep_view(), r),
{
    if args.len() == 0 {
        return Input::Interactive;
    }
    proof {
        assert(args.deep_view()[0] == args@[0]@);
    }
    match command_of(args[0].as_str()) {
        Some(c) => Input::Command(c),
        None => {
            proof {
                reveal_strlit("--");
                assert("--"@ =~= seq!['-', '-']);
            }
            if same_text(args[0].as_str(), "--") {
                Input::Literal(join_from(args, 1))
            } else {
                let r = join_from(args, 0);
                proof {
                    assert(args.deep_view().skip(0) =~= args.deep_view());
                }
                Input::Literal(r)
            }
        }
    }
}

/// `--` at the first position forces text mode: whatever follows, even a
/// command, is note text joined with single spaces.
pub proof fn law_double_dash_forces_text(rest: Seq<Seq<char>>, r: Input)
    requires
        input_matches(seq![seq!['-', '-']] + rest, r),
    ensures
        r matches Input::Literal(t) && t@ == join_spaced(rest),
{
    let args = seq![seq!['-', '-']] + rest;
    assert(args[0] == seq!['-', '-']);
    assert(args.skip(1) =~= rest);
    assert(command_for(seq!['-', '-']) is None) by {
        assert(seq!['-', '-'] != seq!['-', 'h']) by {
            assert(seq!['-', '-'][1] != seq!['-', 'h'][1]);
        }
        assert(seq!['-', '-'] != seq!['-', 'v']) by {
            assert(seq!['-', '-'][1] != seq!['-', 'v'][1]);
        }
    }
}

/// A command is recognized only at the first position: when the first
/// argument is neither a command nor `--`, all arguments, command-like ones
/// included, are note text joined with single spaces.
pub proof fn law_later_tokens_are_text(args: Seq<Seq<char>>, r: Input)
    requires
        input_matches(args, r),
        args.len() > 0,
        command_for(args[0]) is None,
        args[0] != seq!['-', '-'],
    ensures
        r matches Input::Literal(t) && t@ == join_spaced(args),
{
}

/// The commands are exactly six words at the first position: `-h` and
/// `--help` ask for help, `-v` and `--version` for the version, `--setup` for
/// setup and `--uninstall` for uninstalling. Any other first argument,
/// `--` aside, makes every argument note text, joined with single spaces.
pub proof fn law_only_six_words_are_commands(args: Seq<Seq<char>>, r: Input)
    requires
        input_matches(args, r),
        args.len() > 0,
    ensures
        (args[0] == "-h"@ || args[0] == "--help"@) <==> r == Input::Command(Command::Help),
        (args[0] == "-v"@ || args[0] == "--version"@) <==> r == Input::Command(Command::Version),
        args[0] == "--setup"@ <==> r == Input::Command(Command::Setup),
        args[0] == "--uninstall"@ <==> r == Input::Command(Command::Uninstall),
        (args[0] != "-h"@ && args[0] != "--help"@ && args[0] != "-v"@ && args[0] != "--version"@
            && args[0] != "--setup"@ && args[0] != "--uninstall"@ && args[0] != "--"@) ==> (
        r matches Input::Literal(t) && t@ == join_spaced(args)),
{
    reveal_strlit("-h");
    reveal_strlit("--help");
    reveal_strlit("-v");
    reveal_strlit("--version");
    reveal_strlit("--setup");
    reveal_strlit("--uninstall");
    reveal_strlit("--");
    assert("-h"@ =~= seq!['-', 'h']);
    assert("--help"@ =~= seq!['-', '-', 'h', 'e', 'l', 'p']);
    assert("-v"@ =~= seq!['-', 'v']);
    assert("--version"@ =~= seq!['-', '-', 'v', 'e', 'r', 's', 'i', 'o', 'n']);
    assert("--setup"@ =~= seq!['-', '-', 's', 'e', 't', 'u', 'p']);
    assert("--uninstall"@ =~= seq!['-', '-', 'u', 'n', 'i', 'n', 's', 't', 'a', 'l', 'l']);
    assert("--"@ =~= seq!['-', '-']);
}

} // verus!
