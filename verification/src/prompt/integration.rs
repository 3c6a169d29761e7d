//! What a shell is started with so that it reports to the terminal: the init
//! scripts to write, and the environment and arguments to hand over. The
//! application writes the files; the user's real dotfiles are never touched.
use vstd::prelude::*;

use crate::config::schema::{CommandsConfig, PromptConfig, ShellConfig};
use crate::path::{file_name, join_path, joined_path, program_name};
use crate::prompt::{bash_init, generate_init, generate_init_bash, zsh_init};
use crate::text::{begins_with, decimal, has_prefix, maybe, push_decimal, same, views};

verus! {

/// The directory that generated files go to.
pub open spec fn cache_of(home: Seq<char>) -> Seq<char> {
    joined_path(home, ".cache/oxide"@)
}

/// The directory that generated files go to, below the home directory.
pub fn cache_dir(home: &str) -> (r: String)
    ensures
        r@ == cache_of(home@),
{
    join_path(home, ".cache/oxide")
}

/// File the app writes a directory into for the shell's silent-cd widget.
pub fn cd_target_path(home: &str) -> (r: String)
    ensures
        r@ == joined_path(cache_of(home@), "cd_target"@),
{
    join_path(cache_dir(home).as_str(), "cd_target")
}

/// File the app writes a command into for the shell's silent-run widget:
/// how "open this file in $EDITOR" happens without echoing a command line.
pub fn run_target_path(home: &str) -> (r: String)
    ensures
        r@ == joined_path(cache_of(home@), "run_target"@),
{
    join_path(cache_dir(home).as_str(), "run_target")
}

/// The name of a file that hands a path to a shell. It is deliberately made
/// of characters every shell leaves alone, so it can be embedded in a
/// `$HOME/.cache/oxide/edit/…` reference that needs no quoting anywhere.
pub open spec fn edit_name(pid: nat, seq: nat) -> Seq<char> {
    decimal(pid) + "-"@ + decimal(seq) + ".path"@
}

/// The name of the file that hands a path to a shell. Unique per call: two
/// panes opening files at once must not race, so `seq` counts up.
pub fn edit_target_name(pid: u32, seq: u64) -> (r: String)
    ensures
        r@ == edit_name(pid as nat, seq as nat),
{
    let mut out = String::new();
    push_decimal(&mut out, pid as u64);
    assert(out@ =~= decimal(pid as nat));
    out.push_str("-");
    push_decimal(&mut out, seq);
    out.push_str(".path");
    out
}

/// Whether every shell leaves a character alone.
pub open spec fn plain_char(c: char) -> bool {
    'a' <= c <= 'z' || '0' <= c <= '9' || c == '-' || c == '.'
}

proof fn lemma_decimal_plain(n: nat)
    ensures
        forall|i: int| 0 <= i < decimal(n).len() ==> plain_char(#[trigger] decimal(n)[i]),
    decreases n,
{
    let d = decimal(n);
    if n >= 10 {
        lemma_decimal_plain(n / 10);
        assert forall|i: int| 0 <= i < d.len() implies plain_char(#[trigger] d[i]) by {
            if i < d.len() - 1 {
                assert(d[i] == decimal(n / 10)[i]);
            }
        }
    }
}

/// An edit target's name needs no quoting in any shell.
pub proof fn lemma_edit_name_plain(pid: nat, seq: nat)
    ensures
        forall|i: int|
            0 <= i < edit_name(pid, seq).len() ==> plain_char(#[trigger] edit_name(pid, seq)[i]),
{
    lemma_decimal_plain(pid);
    lemma_decimal_plain(seq);
    reveal_strlit("-");
    reveal_strlit(".path");
    let a = decimal(pid);
    let b = decimal(seq);
    let s = edit_name(pid, seq);
    assert forall|i: int| 0 <= i < s.len() implies plain_char(#[trigger] s[i]) by {
        if i < a.len() {
            assert(s[i] == a[i]);
        } else if i < a.len() + 1 {
            assert(s[i] == "-"@[0]);
        } else if i < a.len() + 1 + b.len() {
            assert(s[i] == b[i - a.len() - 1]);
        } else {
            let k = i - a.len() - 1 - b.len();
            assert(s[i] == ".path"@[k]);
            assert(k == 0 || k == 1 || k == 2 || k == 3 || k == 4);
        }
    }
}

/// What a shell is started with.
#[derive(Debug, Clone)]
pub struct ShellIntegration {
    /// Environment variables and their values.
    pub env: Vec<(String, String)>,
    /// Replacement argv for the shell, when injection needs different flags.
    pub args_override: Option<Vec<String>>,
}

/// A name and a text.
pub ghost struct Named {
    pub name: Seq<char>,
    pub text: Seq<char>,
}

pub open spec fn named_texts(v: Seq<(String, String)>) -> Seq<Named> {
    v.map_values(|p: (String, String)| Named { name: p.0@, text: p.1@ })
}

impl Default for ShellIntegration {
    fn default() -> (r: Self)
        ensures
            r.env@.len() == 0,
            r.args_override is None,
    {
        ShellIntegration { env: Vec::new(), args_override: None }
    }
}

/// What has to be written before a shell is started, and what it is started
/// with once that is done. Where something cannot be written, the shell is
/// started with nothing of it.
#[derive(Debug)]
pub struct Plan {
    /// Directories to create, in order.
    pub directories: Vec<String>,
    /// Files to write and their texts, in order.
    pub files: Vec<(String, String)>,
    pub integration: ShellIntegration,
}

/// A plan, as texts.
pub ghost struct PlanView {
    pub directories: Seq<Seq<char>>,
    pub files: Seq<Named>,
    pub env: Seq<Named>,
    pub args_override: Option<Seq<Seq<char>>>,
}

impl View for Plan {
    type V = PlanView;

    open spec fn view(&self) -> PlanView {
        PlanView {
            directories: views(self.directories@),
            files: named_texts(self.files@),
            env: named_texts(self.integration.env@),
            args_override: match self.integration.args_override {
                None => None,
                Some(a) => Some(views(a@)),
            },
        }
    }
}

/// An rc file that sources the user's own with ZDOTDIR temporarily restored,
/// and then goes on with `extra`.
pub open spec fn sandwich(file: Seq<char>, extra: Seq<char>) -> Seq<char> {
    "# Oxide ZDOTDIR shim — sources your real "@ + file + ", never modifies it.\n_oxide_shim=\"$ZDOTDIR\"\nexport ZDOTDIR=\"${_OXIDE_USER_ZDOTDIR:-$HOME}\"\n[[ -f \"$ZDOTDIR/"@ + file + "\" ]] && builtin source \"$ZDOTDIR/"@ + file + "\"\nexport _OXIDE_USER_ZDOTDIR=\"$ZDOTDIR\"\nexport ZDOTDIR=\"$_oxide_shim\"\nunset _oxide_shim\n"@ + extra
}

fn sandwiched(file: &str, extra: &str) -> (r: String)
    ensures
        r@ == sandwich(file@, extra@),
{
    let mut out = "# Oxide ZDOTDIR shim — sources your real ".to_owned();
    out.push_str(file);
    out.push_str(", never modifies it.\n_oxide_shim=\"$ZDOTDIR\"\nexport ZDOTDIR=\"${_OXIDE_USER_ZDOTDIR:-$HOME}\"\n[[ -f \"$ZDOTDIR/");
    out.push_str(file);
    out.push_str("\" ]] && builtin source \"$ZDOTDIR/");
    out.push_str(file);
    out.push_str("\"\nexport _OXIDE_USER_ZDOTDIR=\"$ZDOTDIR\"\nexport ZDOTDIR=\"$_oxide_shim\"\nunset _oxide_shim\n");
    out.push_str(extra);
    out
}

/// The end of the `.zshrc`: our script on top, so our precmd hook, and
/// therefore PROMPT, wins over anything the user's config set.
pub open spec fn zshrc_tail(init: Seq<char>) -> Seq<char> {
    "builtin source \""@ + init + "\"\n# Hand rc-file resolution back to the user's zsh for subshells.\nexport ZDOTDIR=\"${_OXIDE_USER_ZDOTDIR:-$HOME}\"\nunset _OXIDE_USER_ZDOTDIR\n"@
}

fn named_text(name: &str, text: String) -> (r: (String, String))
    ensures
        r.0@ == name@,
        r.1 == text,
{
    (name.to_owned(), text)
}

/// A name and its text.
pub open spec fn entry(name: Seq<char>, text: Seq<char>) -> Named {
    Named { name, text }
}

/// The arguments of a shell without those that ask for a login shell.
pub open spec fn without_login(args: Seq<Seq<char>>) -> Seq<Seq<char>>
    decreases args.len(),
{
    if args.len() == 0 {
        Seq::empty()
    } else if args.last() == "-l"@ || args.last() == "--login"@ {
        without_login(args.drop_last())
    } else {
        without_login(args.drop_last()).push(args.last())
    }
}

/// Whether the shell should be told not to report command lines.
pub open spec fn quiet_env(commands: CommandsConfig) -> Seq<Named> {
    if commands.emit_cmdline {
        Seq::empty()
    } else {
        seq![entry("OXIDE_EMIT_CMDLINE"@, "0"@)]
    }
}

/// The plan for zsh: a ZDOTDIR shim.
pub open spec fn zsh_plan(
    prompt: PromptConfig,
    commands: CommandsConfig,
    cache: Seq<char>,
    user_zdotdir: Option<Seq<char>>,
) -> PlanView {
    let dir = joined_path(cache, "zdotdir"@);
    let init = joined_path(cache, "init.zsh"@);
    PlanView {
        directories: seq![cache, dir],
        files: seq![
            entry(init, zsh_init(prompt, prompt.enabled)),
            entry(joined_path(dir, ".zshenv"@), sandwich(".zshenv"@, ""@)),
            entry(joined_path(dir, ".zprofile"@), sandwich(".zprofile"@, ""@)),
            entry(joined_path(dir, ".zshrc"@), sandwich(".zshrc"@, zshrc_tail(init))),
        ],
        env: (match user_zdotdir {
            None => Seq::empty(),
            Some(d) => seq![entry("_OXIDE_USER_ZDOTDIR"@, d)],
        }) + seq![entry("ZDOTDIR"@, dir)] + quiet_env(commands),
        args_override: None,
    }
}

/// The plan for bash: `--init-file init.bash`, replacing `-l`, which would
/// make bash skip the init file.
pub open spec fn bash_plan(prompt: PromptConfig, shell: ShellConfig, cache: Seq<char>) -> PlanView {
    let init = joined_path(cache, "init.bash"@);
    PlanView {
        directories: seq![cache],
        files: seq![entry(init, bash_init(prompt, prompt.enabled))],
        env: Seq::empty(),
        args_override: Some(without_login(views(shell.args@)) + seq!["--init-file"@, init]),
    }
}

/// The plan for any shell.
pub open spec fn planned(
    prompt: PromptConfig,
    shell: ShellConfig,
    commands: CommandsConfig,
    program: Seq<char>,
    cache: Option<Seq<char>>,
    user_zdotdir: Option<Seq<char>>,
) -> PlanView {
    let none = PlanView {
        directories: Seq::empty(),
        files: Seq::empty(),
        env: Seq::empty(),
        args_override: None,
    };
    if (!shell.integration && !prompt.enabled) || cache is None {
        none
    } else if begins_with(program_name(program), "zsh"@) {
        zsh_plan(prompt, commands, cache->0, user_zdotdir)
    } else if begins_with(program_name(program), "bash"@) {
        bash_plan(prompt, shell, cache->0)
    } else {
        PlanView { directories: seq![cache->0], ..none }
    }
}

fn strip_login(args: &Vec<String>) -> (r: Vec<String>)
    ensures
        views(r@) == without_login(views(args@)),
{
    let ghost all = views(args@);
    let mut out: Vec<String> = Vec::new();
    let mut i: usize = 0;
    assert(all.take(0) =~= Seq::empty());
    assert(views(out@) =~= Seq::empty());
    while i < args.len()
        invariant
            i <= args.len(),
            all == views(args@),
            views(out@) == without_login(all.take(i as int)),
        decreases args.len() - i,
    {
        let ghost before = out@;
        assert(all.take(i + 1).drop_last() =~= all.take(i as int));
        assert(all.take(i + 1).last() == args@[i as int]@);
        if !same(args[i].as_str(), "-l") && !same(args[i].as_str(), "--login") {
            out.push(args[i].clone());
            assert(views(out@) =~= views(before).push(args@[i as int]@));
        }
        i += 1;
    }
    assert(all.take(i as int) =~= all);
    out
}

fn plan_zsh(prompt: &PromptConfig, commands: &CommandsConfig, cache: &str, user_zdotdir: Option<String>) -> (r: Plan)
    ensures
        r@ == zsh_plan(
            *prompt,
            *commands,
            cache@,
            maybe(user_zdotdir),
        ),
{
    let dir = join_path(cache, "zdotdir");
    let init = join_path(cache, "init.zsh");
    let mut tail = "builtin source \"".to_owned();
    tail.push_str(init.as_str());
    tail.push_str("\"\n# Hand rc-file resolution back to the user's zsh for subshells.\nexport ZDOTDIR=\"${_OXIDE_USER_ZDOTDIR:-$HOME}\"\nunset _OXIDE_USER_ZDOTDIR\n");
    let mut files: Vec<(String, String)> = Vec::new();
    files.push(named_text(init.as_str(), generate_init(prompt, prompt.enabled)));
    files.push(named_text(join_path(dir.as_str(), ".zshenv").as_str(), sandwiched(".zshenv", "")));
    files.push(
        named_text(join_path(dir.as_str(), ".zprofile").as_str(), sandwiched(".zprofile", "")),
    );
    files.push(
        named_text(join_path(dir.as_str(), ".zshrc").as_str(), sandwiched(".zshrc", tail.as_str())),
    );
    let mut directories: Vec<String> = Vec::new();
    directories.push(cache.to_owned());
    directories.push(dir.clone());
    let mut env: Vec<(String, String)> = Vec::new();
    let ghost user = maybe(user_zdotdir);
    if let Some(d) = user_zdotdir {
        env.push(("_OXIDE_USER_ZDOTDIR".to_owned(), d));
    }
    env.push(("ZDOTDIR".to_owned(), dir));
    if !commands.emit_cmdline {
        env.push(("OXIDE_EMIT_CMDLINE".to_owned(), "0".to_owned()));
    }
    let plan = Plan {
        directories,
        files,
        integration: ShellIntegration { env, args_override: None },
    };
    proof {
        let want = zsh_plan(*prompt, *commands, cache@, user);
        assert(plan@.directories =~= want.directories);
        assert(plan@.files =~= want.files);
        assert(plan@.env =~= want.env);
    }
    plan
}

fn plan_bash(prompt: &PromptConfig, shell: &ShellConfig, cache: &str) -> (r: Plan)
    ensures
        r@ == bash_plan(*prompt, *shell, cache@),
{
    let init = join_path(cache, "init.bash");
    let mut files: Vec<(String, String)> = Vec::new();
    files.push(named_text(init.as_str(), generate_init_bash(prompt, prompt.enabled)));
    let mut directories: Vec<String> = Vec::new();
    directories.push(cache.to_owned());
    let mut args = strip_login(&shell.args);
    let ghost kept = views(args@);
    args.push("--init-file".to_owned());
    args.push(init);
    assert(views(args@) =~= kept + seq!["--init-file"@, joined_path(cache@, "init.bash"@)]);
    let plan = Plan {
        directories,
        files,
        integration: ShellIntegration { env: Vec::new(), args_override: Some(args) },
    };
    proof {
        let want = bash_plan(*prompt, *shell, cache@);
        assert(plan@.directories =~= want.directories);
        assert(plan@.files =~= want.files);
        assert(plan@.env =~= want.env);
    }
    plan
}

/// What to write for a shell, and the env/args to start it with.
///
/// zsh: a ZDOTDIR shim whose rc files each source the user's counterpart with
/// ZDOTDIR temporarily restored, then layer our init.zsh on top (so our precmd
/// hook, and therefore PROMPT, wins over anything the user's config set).
///
/// bash: `--init-file init.bash` (replacing `-l`, which would make bash skip
/// the init file); the script emulates the login profile chain first.
///
/// `cache` is the directory for generated files, where there is one;
/// `user_zdotdir` is the user's own `ZDOTDIR`.
pub fn setup(
    prompt: &PromptConfig,
    shell: &ShellConfig,
    commands: &CommandsConfig,
    shell_program: &str,
    cache: Option<&str>,
    user_zdotdir: Option<String>,
) -> (r: Plan)
    ensures
        r@ == planned(
            *prompt,
            *shell,
            *commands,
            shell_program@,
            match cache {
                None => None,
                Some(c) => Some(c@),
            },
            maybe(user_zdotdir),
        ),
{
    let mut plan = Plan {
        directories: Vec::new(),
        files: Vec::new(),
        integration: ShellIntegration::default(),
    };
    assert(plan@.directories =~= Seq::empty());
    assert(plan@.files =~= Seq::empty());
    assert(plan@.env =~= Seq::empty());
    if !shell.integration && !prompt.enabled {
        return plan;
    }
    let cache = match cache {
        None => {
            return plan;
        },
        Some(c) => c,
    };
    let name = match file_name(shell_program) {
        None => "".to_owned(),
        Some(n) => n,
    };
    if has_prefix(name.as_str(), "zsh") {
        plan_zsh(prompt, commands, cache, user_zdotdir)
    } else if has_prefix(name.as_str(), "bash") {
        plan_bash(prompt, shell, cache)
    } else {
        plan.directories.push(cache.to_owned());
        assert(plan@.directories =~= seq![cache@]);
        plan
    }
}

/// The two spellings of the login option are left out, and no other argument
/// is.
pub proof fn lemma_login_is_left_out(args: Seq<Seq<char>>, x: Seq<char>)
    ensures
        without_login(args.push("-l"@)) == without_login(args),
        without_login(args.push("--login"@)) == without_login(args),
        x != "-l"@ && x != "--login"@ ==> without_login(args.push(x)) == without_login(args).push(
            x,
        ),
{
    assert(args.push("-l"@).drop_last() =~= args);
    assert(args.push("--login"@).drop_last() =~= args);
    assert(args.push(x).drop_last() =~= args);
}

/// Nothing is set up where neither the integration nor the prompt is wanted,
/// or there is no place for its files.
pub proof fn lemma_nothing_to_set_up(
    prompt: PromptConfig,
    shell: ShellConfig,
    commands: CommandsConfig,
    program: Seq<char>,
    cache: Option<Seq<char>>,
    user_zdotdir: Option<Seq<char>>,
)
    requires
        (!shell.integration && !prompt.enabled) || cache is None,
    ensures
        ({
            let p = planned(prompt, shell, commands, program, cache, user_zdotdir);
            p.directories.len() == 0 && p.files.len() == 0 && p.env.len() == 0
                && p.args_override is None
        }),
{
}

/// A zsh reads its files from the cache, and finds the way back to the
/// user's own; a bash gets its file as an argument, behind the user's own
/// arguments; any other shell is left as it is.
pub proof fn lemma_shells_are_set_up(
    prompt: PromptConfig,
    shell: ShellConfig,
    commands: CommandsConfig,
    program: Seq<char>,
    cache: Seq<char>,
    zdotdir: Seq<char>,
)
    requires
        shell.integration || prompt.enabled,
    ensures
        ({
            let p = planned(prompt, shell, commands, program, Some(cache), Some(zdotdir));
            let name = program_name(program);
            let zsh = begins_with(name, "zsh"@);
            let bash = begins_with(name, "bash"@);
            &&& zsh ==> p.args_override is None && p.env.contains(
                Named { name: "ZDOTDIR"@, text: joined_path(cache, "zdotdir"@) },
            ) && p.env.contains(Named { name: "_OXIDE_USER_ZDOTDIR"@, text: zdotdir })
            &&& zsh && !commands.emit_cmdline ==> p.env.contains(
                Named { name: "OXIDE_EMIT_CMDLINE"@, text: "0"@ },
            )
            &&& zsh ==> p.files.contains(
                Named { name: joined_path(cache, "init.zsh"@), text: zsh_init(prompt, prompt.enabled) },
            )
            &&& !zsh && bash ==> p.env.len() == 0 && p.args_override == Some(
                without_login(views(shell.args@)) + seq![
                    "--init-file"@,
                    joined_path(cache, "init.bash"@),
                ],
            ) && p.files == seq![
                Named { name: joined_path(cache, "init.bash"@), text: bash_init(prompt, prompt.enabled) },
            ]
            &&& !zsh && !bash ==> p.env.len() == 0 && p.args_override is None && p.files.len() == 0
        }),
{
    let p = planned(prompt, shell, commands, program, Some(cache), Some(zdotdir));
    if begins_with(program_name(program), "zsh"@) {
        assert(p.env[0] == (Named { name: "_OXIDE_USER_ZDOTDIR"@, text: zdotdir }));
        assert(p.env[1] == (Named { name: "ZDOTDIR"@, text: joined_path(cache, "zdotdir"@) }));
        assert(p.files[0] == (Named {
            name: joined_path(cache, "init.zsh"@),
            text: zsh_init(prompt, prompt.enabled),
        }));
        if !commands.emit_cmdline {
            assert(p.env[2] == (Named { name: "OXIDE_EMIT_CMDLINE"@, text: "0"@ }));
        }
    }
}

} // verus!
