//! Command-line arguments, parsed once at launch.
//!
//! `oxide [<directory>] [--app-id <id>] [--no-startup-commands] [-e <command> [args...]]`
//!
//! `-e` and `--app-id` are what `xdg-terminal-exec` (and so Omarchy's
//! Super+Return and TUI launchers) pass to a terminal, so supporting them
//! lets Oxide be a system's default terminal on Linux.
use vstd::prelude::*;

use crate::path::{has_name, last_name};
use crate::text::{begins_with, chars_of, has_prefix, same, slice_of, string_of, views};

verus! {

pub const USAGE: &'static str = "usage: oxide [<directory>] [options] [-e <command> [args...]]

  <directory>              open the first pane there (default: the current directory)
  -e <command> [args...]   run this instead of the shell in the first pane; the pane closes when it exits
  --app-id <id>            Wayland app-id / X11 class for the window (default: oxide)
  --no-startup-commands    restore pinned workspaces' layout without running their startup commands
  -V, --version            print the version and exit
  -h, --help               print this and exit";

/// What the arguments ask for.
#[derive(Debug, Clone, PartialEq, Eq)]
pub struct Cli {
    /// The explicit directory argument, if one was given.
    pub directory: Option<String>,
    /// `-e`: the program and its arguments, run in the first pane instead
    /// of the shell. Never empty when set.
    pub command: Option<Vec<String>>,
    /// `--app-id`: what window rules match on under Wayland / X11.
    pub app_id: Option<String>,
    /// `--no-startup-commands`: the out for a startup command that wedges
    /// the app, so it must not depend on any state the app writes.
    pub no_startup_commands: bool,
}

#[derive(Debug, PartialEq, Eq)]
pub enum Parsed {
    Run(Cli),
    Version,
    Help,
}

/// What the arguments ask for, as texts.
pub ghost struct Asked {
    pub directory: Option<Seq<char>>,
    pub command: Option<Seq<Seq<char>>>,
    pub app_id: Option<Seq<char>>,
    pub no_startup_commands: bool,
}

/// What comes of the arguments.
pub ghost enum Outcome {
    Run(Asked),
    Version,
    Help,
    Error(Seq<char>),
}

/// The text of an argument that may be missing.
pub open spec fn given(s: Option<String>) -> Option<Seq<char>> {
    match s {
        None => None,
        Some(t) => Some(t@),
    }
}

impl View for Cli {
    type V = Asked;

    open spec fn view(&self) -> Asked {
        Asked {
            directory: given(self.directory),
            command: match self.command {
                None => None,
                Some(c) => Some(views(c@)),
            },
            app_id: given(self.app_id),
            no_startup_commands: self.no_startup_commands,
        }
    }
}

/// Nothing asked for.
pub open spec fn nothing_asked() -> Asked {
    Asked { directory: None, command: None, app_id: None, no_startup_commands: false }
}

impl Default for Cli {
    fn default() -> (r: Self)
        ensures
            r@ == nothing_asked(),
    {
        Cli { directory: None, command: None, app_id: None, no_startup_commands: false }
    }
}

/// What the arguments `args` add to what was asked for so far.
pub open spec fn outcome(so_far: Asked, args: Seq<Seq<char>>) -> Outcome
    decreases args.len(),
{
    if args.len() == 0 {
        Outcome::Run(so_far)
    } else {
        let arg = args[0];
        let rest = args.skip(1);
        if arg == "-h"@ || arg == "--help"@ {
            Outcome::Help
        } else if arg == "-V"@ || arg == "--version"@ {
            Outcome::Version
        } else if arg == "--no-startup-commands"@ {
            outcome(Asked { no_startup_commands: true, ..so_far }, rest)
        } else if arg == "-e"@ {
            // Everything after it is the command, untouched.
            if rest.len() == 0 {
                Outcome::Error("-e needs a command to run"@)
            } else {
                Outcome::Run(Asked { command: Some(rest), ..so_far })
            }
        } else if arg == "--app-id"@ {
            if rest.len() == 0 || rest[0].len() == 0 {
                Outcome::Error("--app-id needs a value"@)
            } else {
                outcome(Asked { app_id: Some(rest[0]), ..so_far }, rest.skip(1))
            }
        } else if begins_with(arg, "--app-id="@) {
            let id = arg.skip("--app-id="@.len() as int);
            if id.len() == 0 {
                Outcome::Error("--app-id needs a value"@)
            } else {
                outcome(Asked { app_id: Some(id), ..so_far }, rest)
            }
        } else if begins_with(arg, "-psn_"@) {
            // Launch Services used to hand Finder-launched apps a process
            // serial number; harmless to keep ignoring.
            outcome(so_far, rest)
        } else if arg.len() > 1 && arg[0] == '-' {
            Outcome::Error("unknown option: "@ + arg)
        } else if so_far.directory is Some {
            Outcome::Error("unexpected argument: "@ + arg)
        } else {
            outcome(Asked { directory: Some(arg), ..so_far }, rest)
        }
    }
}

/// Parse the arguments after the program name. Everything after `-e` is
/// the command, untouched, so `oxide -e vim --help` runs vim's help rather
/// than printing ours.
pub fn parse(args: Vec<String>) -> (r: Result<Parsed, String>)
    ensures
        match (r, outcome(nothing_asked(), views(args@))) {
            (Ok(Parsed::Run(cli)), Outcome::Run(asked)) => cli@ == asked,
            (Ok(Parsed::Version), Outcome::Version) => true,
            (Ok(Parsed::Help), Outcome::Help) => true,
            (Err(e), Outcome::Error(m)) => e@ == m,
            _ => false,
        },
{
    let ghost all = views(args@);
    let mut cli = Cli::default();
    let mut i: usize = 0;
    assert(all.skip(0) =~= all);
    while i < args.len()
        invariant
            i <= args.len(),
            all == views(args@),
            outcome(nothing_asked(), all) == outcome(cli@, all.skip(i as int)),
        decreases args.len() - i,
    {
        let ghost rest = all.skip(i as int);
        proof {
            assert(rest[0] == args@[i as int]@);
            assert(rest.skip(1) =~= all.skip(i + 1));
            if i + 1 < args.len() {
                assert(rest.skip(1)[0] == args@[i + 1]@);
                assert(rest.skip(1).skip(1) =~= all.skip(i + 2));
            }
        }
        let arg = args[i].as_str();
        if same(arg, "-h") || same(arg, "--help") {
            return Ok(Parsed::Help);
        } else if same(arg, "-V") || same(arg, "--version") {
            return Ok(Parsed::Version);
        } else if same(arg, "--no-startup-commands") {
            cli.no_startup_commands = true;
            i += 1;
        } else if same(arg, "-e") {
            if i + 1 == args.len() {
                return Err("-e needs a command to run".to_owned());
            }
            let mut command: Vec<String> = Vec::new();
            let mut k: usize = i + 1;
            while k < args.len()
                invariant
                    i < k <= args.len(),
                    command.len() == k - i - 1,
                    forall|j: int| 0 <= j < command.len() ==> #[trigger] command@[j]@ == args@[i + 1 + j]@,
                decreases args.len() - k,
            {
                command.push(args[k].clone());
                k += 1;
            }
            assert(views(command@) =~= rest.skip(1));
            cli.command = Some(command);
            return Ok(Parsed::Run(cli));
        } else if same(arg, "--app-id") {
            if i + 1 == args.len() || chars_of(args[i + 1].as_str()).len() == 0 {
                return Err("--app-id needs a value".to_owned());
            }
            cli.app_id = Some(args[i + 1].clone());
            i += 2;
        } else if has_prefix(arg, "--app-id=") {
            let chars = chars_of(arg);
            let from = chars_of("--app-id=").len();
            let id = slice_of(&chars, from, chars.len());
            assert(id@ =~= arg@.skip("--app-id="@.len() as int));
            if id.len() == 0 {
                return Err("--app-id needs a value".to_owned());
            }
            cli.app_id = Some(string_of(&id));
            i += 1;
        } else if has_prefix(arg, "-psn_") {
            i += 1;
        } else {
            let chars = chars_of(arg);
            if chars.len() > 1 && chars[0] == '-' {
                let mut e = "unknown option: ".to_owned();
                e.push_str(arg);
                return Err(e);
            }
            if cli.directory.is_some() {
                let mut e = "unexpected argument: ".to_owned();
                e.push_str(arg);
                return Err(e);
            }
            cli.directory = Some(args[i].clone());
            i += 1;
        }
    }
    Ok(Parsed::Run(cli))
}

/// A command, where one was given, is never empty.
pub proof fn lemma_command_never_empty(so_far: Asked, args: Seq<Seq<char>>)
    requires
        so_far.command is None,
    ensures
        outcome(so_far, args) matches Outcome::Run(asked) ==> (asked.command matches Some(c)
            ==> c.len() > 0),
    decreases args.len(),
{
    if args.len() > 0 {
        let rest = args.skip(1);
        lemma_command_never_empty(Asked { no_startup_commands: true, ..so_far }, rest);
        lemma_command_never_empty(so_far, rest);
        lemma_command_never_empty(Asked { directory: Some(args[0]), ..so_far }, rest);
        lemma_command_never_empty(
            Asked { app_id: Some(args[0].skip("--app-id="@.len() as int)), ..so_far },
            rest,
        );
        if rest.len() > 0 {
            lemma_command_never_empty(Asked { app_id: Some(rest[0]), ..so_far }, rest.skip(1));
        }
    }
}

/// Whatever follows `-e` is the command, word for word.
pub proof fn lemma_command_verbatim(command: Seq<Seq<char>>)
    requires
        command.len() > 0,
    ensures
        outcome(nothing_asked(), seq!["-e"@] + command) == Outcome::Run(
            Asked { command: Some(command), ..nothing_asked() },
        ),
{
    reveal_strlit("-e");
    reveal_strlit("-h");
    reveal_strlit("-V");
    reveal_strlit("--help");
    reveal_strlit("--version");
    reveal_strlit("--no-startup-commands");
    assert("-e"@[1] == 'e');
    assert("-h"@[1] == 'h');
    assert("-V"@[1] == 'V');
    assert((seq!["-e"@] + command).skip(1) =~= command);
}

impl Cli {
    /// Where the first pane opens: the directory argument, else the
    /// process's working directory when it is a real one. Finder-launched
    /// apps inherit "/", a useless place to open a terminal, so that falls
    /// through to the caller's home fallback. A missing directory argument
    /// also falls through rather than failing the launch.
    ///
    /// `is_dir` says whether the directory argument is one; `cwd` is the
    /// process's working directory, where that is a directory.
    pub fn working_directory(&self, is_dir: bool, cwd: Option<String>) -> (r: Option<String>)
        ensures
            given(r) == (if self.directory is Some {
                if is_dir {
                    given(self.directory)
                } else {
                    None
                }
            } else if cwd is Some && last_name((cwd->0)@) is Some {
                given(cwd)
            } else {
                None
            }),
    {
        if let Some(dir) = &self.directory {
            return if is_dir {
                Some(dir.clone())
            } else {
                None
            };
        }
        match cwd {
            None => None,
            Some(d) => if has_name(d.as_str()) {
                Some(d)
            } else {
                None
            },
        }
    }
}

/// The options, spelled out: they are all different.
proof fn lemma_options_apart()
    ensures
        "-h"@.len() == 2 && "-h"@ =~= seq!['-', 'h'],
        "--help"@.len() == 6 && "--help"@ =~= seq!['-', '-', 'h', 'e', 'l', 'p'],
        "-V"@.len() == 2 && "-V"@ =~= seq!['-', 'V'],
        "--version"@.len() == 9 && "--version"@ =~= seq!['-', '-', 'v', 'e', 'r', 's', 'i', 'o', 'n'],
        "--no-startup-commands"@.len() == 21 && "--no-startup-commands"@ =~= seq!['-', '-', 'n', 'o', '-', 's', 't', 'a', 'r', 't', 'u', 'p', '-', 'c', 'o', 'm', 'm', 'a', 'n', 'd', 's'],
        "-e"@.len() == 2 && "-e"@ =~= seq!['-', 'e'],
        "--app-id"@.len() == 8 && "--app-id"@ =~= seq!['-', '-', 'a', 'p', 'p', '-', 'i', 'd'],
        "--app-id="@.len() == 9 && "--app-id="@ =~= seq!['-', '-', 'a', 'p', 'p', '-', 'i', 'd', '='],
        "-psn_"@.len() == 5 && "-psn_"@ =~= seq!['-', 'p', 's', 'n', '_'],
        "-h"@[1] == 'h' && "-V"@[1] == 'V' && "-e"@[1] == 'e',
        "--help"@[2] == 'h' && "--app-id"@[2] == 'a' && "-psn_"@[1] == 'p',
        "--version"@[2] == 'v' && "--app-id="@[2] == 'a',
{
    reveal_strlit("-h");
    reveal_strlit("--help");
    reveal_strlit("-V");
    reveal_strlit("--version");
    reveal_strlit("--no-startup-commands");
    reveal_strlit("-e");
    reveal_strlit("--app-id");
    reveal_strlit("--app-id=");
    reveal_strlit("-psn_");
}

proof fn lemma_first_argument(arg: Seq<char>, rest: Seq<Seq<char>>)
    ensures
        (seq![arg] + rest)[0] == arg,
        (seq![arg] + rest).skip(1) == rest,
        (seq![arg] + rest).len() > 0,
{
    assert((seq![arg] + rest).skip(1) =~= rest);
}

/// Asking for help or for the version gives it, whatever follows.
pub proof fn lemma_help_and_version(so_far: Asked, rest: Seq<Seq<char>>)
    ensures
        outcome(so_far, seq!["-h"@] + rest) == Outcome::Help,
        outcome(so_far, seq!["--help"@] + rest) == Outcome::Help,
        outcome(so_far, seq!["-V"@] + rest) == Outcome::Version,
        outcome(so_far, seq!["--version"@] + rest) == Outcome::Version,
{
    lemma_options_apart();
    lemma_first_argument("-h"@, rest);
    lemma_first_argument("--help"@, rest);
    lemma_first_argument("-V"@, rest);
    lemma_first_argument("--version"@, rest);
}

/// Startup commands are left out where that is asked for; nothing else
/// changes.
pub proof fn lemma_without_startup_commands(so_far: Asked, rest: Seq<Seq<char>>)
    ensures
        outcome(so_far, seq!["--no-startup-commands"@] + rest) == outcome(
            Asked { no_startup_commands: true, ..so_far },
            rest,
        ),
{
    lemma_options_apart();
    lemma_first_argument("--no-startup-commands"@, rest);
}

/// An application id is what follows its option, as a word of its own or
/// behind an equals sign; an empty or a missing one is an error.
pub proof fn lemma_application_ids(so_far: Asked, id: Seq<char>, rest: Seq<Seq<char>>)
    requires
        id.len() > 0,
    ensures
        outcome(so_far, seq!["--app-id"@, id] + rest) == outcome(
            Asked { app_id: Some(id), ..so_far },
            rest,
        ),
        outcome(so_far, seq!["--app-id="@ + id] + rest) == outcome(
            Asked { app_id: Some(id), ..so_far },
            rest,
        ),
        outcome(so_far, seq!["--app-id"@]) is Error,
        outcome(so_far, seq!["--app-id="@] + rest) is Error,
{
    lemma_options_apart();
    let two = seq!["--app-id"@, id] + rest;
    assert(two[0] == "--app-id"@);
    assert(two.skip(1) =~= seq![id] + rest);
    assert(two.skip(1).skip(1) =~= rest);
    let arg = "--app-id="@ + id;
    lemma_first_argument(arg, rest);
    assert(arg.take(9) =~= "--app-id="@);
    assert(arg.skip(9) =~= id);
    assert(arg[2] == 'a' && arg[8] == '=');
    assert(arg != "--app-id"@);
    assert(arg != "--no-startup-commands"@) by {
        if arg == "--no-startup-commands"@ {
            assert("--no-startup-commands"@[2] == 'n');
        }
    }
    let one = seq!["--app-id"@];
    assert(one[0] == "--app-id"@);
    assert(one.skip(1).len() == 0);
    lemma_first_argument("--app-id="@, rest);
    assert("--app-id="@.take(9) =~= "--app-id="@);
    assert("--app-id="@.skip(9).len() == 0);
}

/// A word that is no option is the directory; a second one is an error, and
/// so is an option that nobody knows. A process serial number is passed over.
pub proof fn lemma_other_arguments(so_far: Asked, word: Seq<char>, rest: Seq<Seq<char>>)
    requires
        word.len() > 1,
    ensures
        word[0] != '-' && so_far.directory is None ==> outcome(so_far, seq![word] + rest)
            == outcome(Asked { directory: Some(word), ..so_far }, rest),
        word[0] != '-' && so_far.directory is Some ==> outcome(so_far, seq![word] + rest)
            == Outcome::Error("unexpected argument: "@ + word),
        word[0] == '-' && word[1] == 'x' ==> outcome(so_far, seq![word] + rest) == Outcome::Error(
            "unknown option: "@ + word,
        ),
        outcome(so_far, seq!["-psn_"@ + word] + rest) == outcome(so_far, rest),
        outcome(so_far, Seq::empty()) == Outcome::Run(so_far),
{
    lemma_options_apart();
    lemma_first_argument(word, rest);
    assert("-h"@[0] == '-' && "--help"@[0] == '-' && "-V"@[0] == '-' && "--version"@[0] == '-'
        && "--no-startup-commands"@[0] == '-' && "-e"@[0] == '-' && "--app-id"@[0] == '-');
    assert("--help"@[1] == '-' && "--version"@[1] == '-' && "--no-startup-commands"@[1] == '-'
        && "--app-id"@[1] == '-' && "--app-id="@[1] == '-');
    if begins_with(word, "--app-id="@) {
        assert(word.take(9)[0] == '-' && word.take(9)[1] == '-');
    }
    if begins_with(word, "-psn_"@) {
        assert(word.take(5)[0] == '-' && word.take(5)[1] == 'p');
    }
    let p = "-psn_"@ + word;
    lemma_first_argument(p, rest);
    assert(p.take(5) =~= "-psn_"@);
    assert(p[1] == 'p');
    if begins_with(p, "--app-id="@) {
        assert(p.take(9)[1] == '-');
    }
}

/// A window starts in the directory that was asked for, if it is one, and
/// otherwise where the program was started, unless that is the root.
pub proof fn lemma_where_a_window_starts(cli: Cli, cwd: String, r: Option<String>)
    ensures
        cli.directory is Some && call_ensures(Cli::working_directory, (&cli, true, Some(cwd)), r)
            ==> given(r) == given(cli.directory),
        cli.directory is Some && call_ensures(Cli::working_directory, (&cli, false, Some(cwd)), r)
            ==> r is None,
        cli.directory is None && last_name(cwd@) is Some && call_ensures(
            Cli::working_directory,
            (&cli, false, Some(cwd)),
            r,
        ) ==> (r matches Some(d) && d@ == cwd@),
        cli.directory is None && last_name(cwd@) is None && call_ensures(
            Cli::working_directory,
            (&cli, false, Some(cwd)),
            r,
        ) ==> r is None,
{
}

} // verus!
