//! What a terminal session is started with.
use vstd::prelude::*;

use crate::path::{file_name, program_name};
use crate::prompt::integration::{named_texts, Named};
use crate::text::{begins_with, chars_of, has_prefix, same};

verus! {

/// Grid geometry: cell counts plus the measured cell box in whole pixels.
#[derive(Debug, Clone, Copy, PartialEq, Eq, Structural)]
pub struct TermSize {
    pub columns: usize,
    pub screen_lines: usize,
    pub cell_width: u16,
    pub cell_height: u16,
}

/// A size as the PTY takes it.
#[derive(Debug, Clone, Copy, PartialEq, Eq, Structural)]
pub struct WindowSize {
    pub num_lines: u16,
    pub num_cols: u16,
    pub cell_width: u16,
    pub cell_height: u16,
}

impl TermSize {
    /// The size as the PTY takes it; counts beyond its range wrap.
    pub fn window_size(&self) -> (r: WindowSize)
        ensures
            r == (WindowSize {
                num_lines: self.screen_lines as u16,
                num_cols: self.columns as u16,
                cell_width: self.cell_width,
                cell_height: self.cell_height,
            }),
    {
        WindowSize {
            num_lines: self.screen_lines as u16,
            num_cols: self.columns as u16,
            cell_width: self.cell_width,
            cell_height: self.cell_height,
        }
    }
}

/// What runs in a session, and how.
#[derive(Debug, Clone)]
pub struct SessionOptions {
    pub program: String,
    pub args: Vec<String>,
    pub working_directory: Option<String>,
    pub scrollback: usize,
    /// Environment variables and their values, none of them twice.
    pub env: Vec<(String, String)>,
}

/// Resolve the shell: config, then $SHELL, then /bin/zsh. `shell` is the
/// environment's $SHELL.
pub fn resolve_shell(configured: Option<&str>, shell: Option<String>) -> (r: String)
    ensures
        r@ == match configured {
            Some(c) => c@,
            None => match shell {
                Some(s) => s@,
                None => "/bin/zsh"@,
            },
        },
{
    match configured {
        Some(c) => c.to_owned(),
        None => match shell {
            Some(s) => s,
            None => "/bin/zsh".to_owned(),
        },
    }
}

/// The program name of a shell path, for family checks. A version suffix is
/// kept (`bash-5.2` stays whole) so callers match on a prefix.
pub fn shell_name(program: &str) -> (r: String)
    ensures
        r@ == program_name(program@),
{
    match file_name(program) {
        None => "".to_owned(),
        Some(n) => n,
    }
}

/// Whether a name is that of a family of shells, with a version or without.
pub open spec fn in_family(name: Seq<char>, family: Seq<char>) -> bool {
    name == family || begins_with(name, family + "-"@)
}

/// Whether a shell understands Bourne syntax.
pub open spec fn posix(name: Seq<char>) -> bool {
    in_family(name, "sh"@) || in_family(name, "bash"@) || in_family(name, "zsh"@) || in_family(
        name,
        "dash"@,
    ) || in_family(name, "ksh"@) || in_family(name, "mksh"@) || in_family(name, "pdksh"@)
        || in_family(name, "ash"@) || in_family(name, "yash"@)
}

fn of_family(name: &str, family: &str) -> (r: bool)
    ensures
        r == in_family(name@, family@),
{
    let mut versioned = family.to_owned();
    versioned.push_str("-");
    same(name, family) || has_prefix(name, versioned.as_str())
}

/// Whether this shell understands Bourne syntax, so Oxide can hand it a `[ -n
/// … ]` snippet directly. fish, the csh family, nushell, xonsh and friends do
/// not, and need such a snippet delegated to `/bin/sh`.
pub fn is_posix_shell(program: &str) -> (r: bool)
    ensures
        r == posix(program_name(program@)),
{
    let name = shell_name(program);
    let name = name.as_str();
    of_family(name, "sh") || of_family(name, "bash") || of_family(name, "zsh") || of_family(
        name,
        "dash",
    ) || of_family(name, "ksh") || of_family(name, "mksh") || of_family(name, "pdksh")
        || of_family(name, "ash") || of_family(name, "yash")
}

/// The place of a variable, or the length where it is not set.
pub open spec fn var_at(env: Seq<Named>, name: Seq<char>) -> int
    decreases env.len(),
{
    if env.len() == 0 || env[0].name == name {
        0
    } else {
        1 + var_at(env.skip(1), name)
    }
}

/// The environment with a variable set, where it was or at the end.
pub open spec fn with_var(env: Seq<Named>, name: Seq<char>, text: Seq<char>) -> Seq<Named> {
    let i = var_at(env, name);
    if i < env.len() {
        env.update(i, Named { name, text })
    } else {
        env.push(Named { name, text })
    }
}

fn find_var(env: &Vec<(String, String)>, name: &str) -> (i: usize)
    ensures
        i == var_at(named_texts(env@), name@),
        i <= env@.len(),
{
    let ghost all = named_texts(env@);
    let mut i: usize = 0;
    assert(all.skip(0) =~= all);
    while i < env.len() && !same(env[i].0.as_str(), name)
        invariant
            i <= env.len(),
            all == named_texts(env@),
            var_at(all, name@) == i + var_at(all.skip(i as int), name@),
        decreases env.len() - i,
    {
        assert(all.skip(i as int)[0] == all[i as int]);
        assert(all.skip(i as int).skip(1) =~= all.skip(i + 1));
        i += 1;
    }
    proof {
        if i < env.len() {
            assert(all.skip(i as int)[0] == all[i as int]);
        }
    }
    i
}

fn set_var(env: &mut Vec<(String, String)>, name: &str, text: &str)
    ensures
        named_texts(final(env)@) == with_var(named_texts(old(env)@), name@, text@),
{
    let ghost before = named_texts(env@);
    let i = find_var(env, name);
    if i < env.len() {
        env.set(i, (name.to_owned(), text.to_owned()));
    } else {
        env.push((name.to_owned(), text.to_owned()));
    }
    assert(named_texts(env@) =~= with_var(before, name@, text@));
}

/// The environment of a session.
pub open spec fn session_vars(env: Seq<Named>, version: Seq<char>, lang_set: bool) -> Seq<Named> {
    let a = with_var(env, "TERM"@, "xterm-256color"@);
    let b = with_var(a, "COLORTERM"@, "truecolor"@);
    let c = with_var(b, "OXIDE_VERSION"@, version);
    if !lang_set && var_at(c, "LANG"@) == c.len() {
        with_var(c, "LANG"@, "en_US.UTF-8"@)
    } else {
        c
    }
}

/// The environment of a session: what it was asked to run with, the
/// terminal's own variables, and a locale. GUI-launched apps get no locale;
/// a C-locale shell breaks multibyte input and prompt glyphs, so one is set
/// if absent. `lang_set` is whether the process has a $LANG.
pub fn session_env(env: Vec<(String, String)>, version: &str, lang_set: bool) -> (r: Vec<
    (String, String),
>)
    ensures
        named_texts(r@) == session_vars(named_texts(env@), version@, lang_set),
{
    let mut env = env;
    set_var(&mut env, "TERM", "xterm-256color");
    set_var(&mut env, "COLORTERM", "truecolor");
    set_var(&mut env, "OXIDE_VERSION", version);
    if !lang_set && find_var(&env, "LANG") == env.len() {
        set_var(&mut env, "LANG", "en_US.UTF-8");
    }
    env
}

/// Setting a variable gives it that value and leaves every other variable
/// as it was.
pub proof fn lemma_with_var(env: Seq<Named>, name: Seq<char>, text: Seq<char>, other: Seq<char>)
    ensures
        ({
            let r = with_var(env, name, text);
            &&& 0 <= var_at(r, name) < r.len()
            &&& r[var_at(r, name)] == (Named { name, text })
            &&& other != name && var_at(env, other) < env.len() ==> var_at(r, other) < r.len()
                && r[var_at(r, other)] == env[var_at(env, other)]
            &&& other != name && var_at(env, other) == env.len() ==> var_at(r, other) == r.len()
        }),
{
    lemma_var_at(env, name);
    lemma_var_at(env, other);
    let r = with_var(env, name, text);
    lemma_var_at(r, name);
    lemma_var_at(r, other);
    let i = var_at(env, name);
    if i < env.len() {
        assert(r[i].name == name);
        if var_at(r, name) < i {
            assert(env[var_at(r, name)].name == name);
        }
    } else {
        assert(r[env.len() as int].name == name);
        if var_at(r, name) < env.len() {
            assert(env[var_at(r, name)].name == name);
        }
    }
    if other != name {
        let o = var_at(env, other);
        let p = var_at(r, other);
        if o < env.len() {
            assert(r[o].name == other);
            if p < o {
                assert(env[p].name == other || r[p].name == name);
            }
        } else if p < r.len() {
            assert(r[p].name == other);
            if p < env.len() {
                assert(env[p].name == other || r[p].name == name);
            }
        }
    }
}

proof fn lemma_var_at(env: Seq<Named>, name: Seq<char>)
    ensures
        0 <= var_at(env, name) <= env.len(),
        var_at(env, name) < env.len() ==> env[var_at(env, name)].name == name,
        forall|i: int| 0 <= i < var_at(env, name) ==> (#[trigger] env[i]).name != name,
    decreases env.len(),
{
    if env.len() > 0 && env[0].name != name {
        let rest = env.skip(1);
        lemma_var_at(rest, name);
        assert forall|i: int| 0 <= i < var_at(env, name) implies (#[trigger] env[i]).name != name by {
            if i > 0 {
                assert(rest[i - 1] == env[i]);
            }
        }
        if var_at(env, name) < env.len() {
            assert(rest[var_at(rest, name)] == env[var_at(env, name)]);
        }
    }
}

/// The directory of the foreground process, from the path that the system
/// keeps for it.
pub fn foreground_cwd(pid: i32, path: &[u8]) -> (r: Option<String>)
    ensures
        match r {
            None => pid <= 0 || crate::terminal::process::utf8(path@) is None || (
            crate::terminal::process::utf8(path@)->0).len() == 0,
            Some(p) => pid > 0 && crate::terminal::process::utf8(path@) == Some(p@) && p@.len() > 0,
        },
{
    if pid <= 0 {
        return None;
    }
    match crate::text::utf8_text(path) {
        None => None,
        Some(p) => if chars_of(p.as_str()).len() == 0 {
            None
        } else {
            Some(p)
        },
    }
}

/// The value that a name has.
pub open spec fn value_of(env: Seq<Named>, name: Seq<char>) -> Option<Seq<char>> {
    if 0 <= var_at(env, name) < env.len() {
        Some(env[var_at(env, name)].text)
    } else {
        None
    }
}

/// A session always tells its shell which terminal it is in, that it has all
/// the colours, and its version. The language is only set where nothing sets
/// it, and every other variable stays.
pub proof fn lemma_session_variables(
    env: Seq<Named>,
    version: Seq<char>,
    lang_set: bool,
    other: Seq<char>,
)
    ensures
        ({
            let r = session_vars(env, version, lang_set);
            &&& value_of(r, "TERM"@) == Some("xterm-256color"@)
            &&& value_of(r, "COLORTERM"@) == Some("truecolor"@)
            &&& value_of(r, "OXIDE_VERSION"@) == Some(version)
            &&& value_of(r, "LANG"@) == (if value_of(env, "LANG"@) is Some {
                value_of(env, "LANG"@)
            } else if lang_set {
                None
            } else {
                Some("en_US.UTF-8"@)
            })
            &&& other != "TERM"@ && other != "COLORTERM"@ && other != "OXIDE_VERSION"@ && other
                != "LANG"@ ==> value_of(r, other) == value_of(env, other)
        }),
{
    reveal_strlit("TERM");
    reveal_strlit("COLORTERM");
    reveal_strlit("OXIDE_VERSION");
    reveal_strlit("LANG");
    assert("TERM"@[0] == 'T' && "LANG"@[0] == 'L');
    assert("TERM"@.len() == 4 && "COLORTERM"@.len() == 9 && "OXIDE_VERSION"@.len() == 13);
    assert("LANG"@.len() == 4);
    lemma_set(env, "TERM"@, "xterm-256color"@, "LANG"@, other);
    let a = with_var(env, "TERM"@, "xterm-256color"@);
    lemma_set(a, "COLORTERM"@, "truecolor"@, "LANG"@, other);
    lemma_set(a, "COLORTERM"@, "truecolor"@, "TERM"@, other);
    let b = with_var(a, "COLORTERM"@, "truecolor"@);
    lemma_set(b, "OXIDE_VERSION"@, version, "LANG"@, other);
    lemma_set(b, "OXIDE_VERSION"@, version, "TERM"@, "COLORTERM"@);
    lemma_set(b, "OXIDE_VERSION"@, version, "TERM"@, other);
    let c = with_var(b, "OXIDE_VERSION"@, version);
    lemma_var_at(c, "LANG"@);
    lemma_set(c, "LANG"@, "en_US.UTF-8"@, "TERM"@, "COLORTERM"@);
    lemma_set(c, "LANG"@, "en_US.UTF-8"@, "OXIDE_VERSION"@, other);
}

proof fn lemma_set(
    env: Seq<Named>,
    name: Seq<char>,
    text: Seq<char>,
    x: Seq<char>,
    y: Seq<char>,
)
    ensures
        value_of(with_var(env, name, text), name) == Some(text),
        x != name ==> value_of(with_var(env, name, text), x) == value_of(env, x),
        y != name ==> value_of(with_var(env, name, text), y) == value_of(env, y),
{
    lemma_with_var(env, name, text, x);
    lemma_with_var(env, name, text, y);
    let r = with_var(env, name, text);
    lemma_var_at(env, x);
    lemma_var_at(env, y);
    lemma_var_at(r, x);
    lemma_var_at(r, y);
}

/// The shells whose quoting and tests are known, also with a version behind
/// the name.
pub proof fn lemma_posix_shells(version: Seq<char>)
    ensures
        posix("sh"@) && posix("sh"@ + seq!['-'] + version),
        posix("bash"@) && posix("bash"@ + seq!['-'] + version),
        posix("zsh"@) && posix("zsh"@ + seq!['-'] + version),
        posix("dash"@) && posix("dash"@ + seq!['-'] + version),
        posix("ksh"@) && posix("ksh"@ + seq!['-'] + version),
        posix("mksh"@) && posix("mksh"@ + seq!['-'] + version),
        posix("pdksh"@) && posix("pdksh"@ + seq!['-'] + version),
        posix("ash"@) && posix("ash"@ + seq!['-'] + version),
        posix("yash"@) && posix("yash"@ + seq!['-'] + version),
        !posix("fish"@),
        !posix("nu"@),
        !posix("tcsh"@),
        !posix("csh"@),
{
    reveal_strlit("-");
    assert("-"@ =~= seq!['-']);
    lemma_with_version("sh"@, version);
    lemma_with_version("bash"@, version);
    lemma_with_version("zsh"@, version);
    lemma_with_version("dash"@, version);
    lemma_with_version("ksh"@, version);
    lemma_with_version("mksh"@, version);
    lemma_with_version("pdksh"@, version);
    lemma_with_version("ash"@, version);
    lemma_with_version("yash"@, version);
    reveal_strlit("sh");
    reveal_strlit("bash");
    reveal_strlit("zsh");
    reveal_strlit("dash");
    reveal_strlit("ksh");
    reveal_strlit("mksh");
    reveal_strlit("pdksh");
    reveal_strlit("ash");
    reveal_strlit("yash");
    reveal_strlit("fish");
    reveal_strlit("nu");
    reveal_strlit("tcsh");
    reveal_strlit("csh");
    assert("fish"@[0] == 'f' && "nu"@[0] == 'n' && "tcsh"@[0] == 't' && "csh"@[0] == 'c');
    assert("fish"@[1] == 'i' && "nu"@.len() == 2 && "tcsh"@[1] == 'c' && "csh"@[1] == 's');
    lemma_not_versioned("fish"@);
    lemma_not_versioned("nu"@);
    lemma_not_versioned("tcsh"@);
    lemma_not_versioned("csh"@);
    assert("sh"@[0] == 's' && "bash"@[0] == 'b' && "zsh"@[0] == 'z' && "dash"@[0] == 'd');
    assert("ksh"@[0] == 'k' && "mksh"@[0] == 'm' && "pdksh"@[0] == 'p' && "ash"@[0] == 'a');
    assert("yash"@[0] == 'y');
}

proof fn lemma_with_version(name: Seq<char>, version: Seq<char>)
    ensures
        in_family(name, name),
        in_family(name + seq!['-'] + version, name),
{
    reveal_strlit("-");
    assert("-"@ =~= seq!['-']);
    let s = name + seq!['-'] + version;
    assert(s.take((name + "-"@).len() as int) =~= name + "-"@);
}

proof fn lemma_not_versioned(name: Seq<char>)
    ensures
        !name.contains('-') ==> forall|f: Seq<char>| #[trigger] in_family(name, f) ==> name == f,
{
    reveal_strlit("-");
    assert("-"@ =~= seq!['-']);
    assert forall|f: Seq<char>| !name.contains('-') && #[trigger] in_family(name, f) implies name
        == f by {
        if begins_with(name, f + "-"@) {
            assert(name.take((f + "-"@).len() as int)[f.len() as int] == '-');
            assert(name[f.len() as int] == '-');
        }
    }
}

/// The shell is the one that is configured, or else the user's own, or else
/// zsh.
pub proof fn lemma_which_shell(configured: &str, shell: String, r: String)
    ensures
        call_ensures(resolve_shell, (Some(configured), Some(shell)), r) ==> r@ == configured@,
        call_ensures(resolve_shell, (None, Some(shell)), r) ==> r@ == shell@,
        call_ensures(resolve_shell, (None, None), r) ==> r@ == "/bin/zsh"@,
{
}

} // verus!
