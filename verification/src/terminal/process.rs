//! What's running in the foreground of a PTY, and whether it's `ssh`.
//!
//! The name and the arguments come from the operating system; this module
//! reads them. A process whose arguments cannot be had degrades to its name.
use vstd::prelude::*;

use crate::bytes::{bytes_of, lemma_zero_at, find_zero, zero_at};
use crate::text::{
    after_char, before_char, begins_with, chars_of, cut_at, digits_only, has_char, has_prefix,
    is_digit, lemma_cut_at_first, lemma_rfind, lemma_rfind_last, lossy_text, only_digits, rfind,
    rfind_char, same, slice_of, string_of, strip_end, strip_end_of, strip_start, strip_start_of,
    utf8_lossy, utf8_text, views,
};

verus! {

/// The foreground process on a PTY.
#[derive(Debug, Clone, PartialEq, Eq)]
pub struct ForegroundProcess {
    /// The executable's name (`zsh`, `vim`, `ssh`).
    pub name: String,
    /// For `ssh`: the destination host, without any `user@`.
    pub ssh_host: Option<String>,
}

/// Whether a program of this name is an interactive shell.
pub open spec fn names_shell(program: Seq<char>) -> bool {
    let name = strip_start(program, '-');
    name == "sh"@ || name == "bash"@ || name == "zsh"@ || name == "fish"@ || name == "dash"@ || name
        == "ksh"@ || name == "mksh"@ || name == "tcsh"@ || name == "csh"@ || name == "nu"@ || name
        == "elvish"@ || name == "xonsh"@ || name == "login"@ || begins_with(name, "bash-"@)
        || begins_with(name, "zsh-"@)
}

impl ForegroundProcess {
    /// Whether this is an interactive shell rather than a program the
    /// user ran: shells aren't worth naming in a tab title.
    pub fn is_shell(&self) -> (r: bool)
        ensures
            r == names_shell(self.name@),
    {
        let name = string_of(&strip_start_of(&chars_of(self.name.as_str()), '-'));
        let name = name.as_str();
        same(name, "sh") || same(name, "bash") || same(name, "zsh") || same(name, "fish") || same(
            name,
            "dash",
        ) || same(name, "ksh") || same(name, "mksh") || same(name, "tcsh") || same(name, "csh")
            || same(name, "nu") || same(name, "elvish") || same(name, "xonsh") || same(
            name,
            "login",
        ) || has_prefix(name, "bash-") || has_prefix(name, "zsh-")
    }

    /// A short label: `ssh prod-web` for ssh, else the bare name.
    pub fn label(&self) -> (r: String)
        ensures
            r@ == match self.ssh_host {
                Some(host) => "ssh "@ + host@,
                None => self.name@,
            },
    {
        match &self.ssh_host {
            Some(host) => {
                let mut out = "ssh ".to_owned();
                out.push_str(host.as_str());
                out
            },
            None => self.name.clone(),
        }
    }
}

/// The text of bytes that are valid UTF-8.
pub open spec fn utf8(bytes: Seq<u8>) -> Option<Seq<char>> {
    if vstd::utf8::valid_utf8(bytes) {
        Some(vstd::utf8::decode_utf8(bytes))
    } else {
        None
    }
}

/// The name of a process: the full one where it is text and not empty, else
/// the shortened one.
pub open spec fn named_process(full: Seq<u8>, short: Seq<u8>) -> Option<Seq<char>> {
    let name = if utf8(full) is Some && (utf8(full)->0).len() > 0 {
        utf8(full)
    } else {
        utf8(short)
    };
    if name is Some && (name->0).len() > 0 {
        name
    } else {
        None
    }
}

/// The name of a process, from the full and the shortened name that the
/// system keeps.
pub fn process_name(full: &[u8], short: &[u8]) -> (r: Option<String>)
    ensures
        match r {
            None => named_process(full@, short@) is None,
            Some(n) => named_process(full@, short@) == Some(n@),
        },
{
    if let Some(name) = utf8_text(full) {
        if chars_of(name.as_str()).len() > 0 {
            return Some(name);
        }
    }
    match utf8_text(short) {
        None => None,
        Some(name) => if chars_of(name.as_str()).len() > 0 {
            Some(name)
        } else {
            None
        },
    }
}

/// The host of an `ssh` process whose arguments are known.
pub open spec fn host_of_process(name: Seq<char>, args: Option<Seq<Seq<char>>>) -> Option<
    Seq<char>,
> {
    if name == "ssh"@ && args is Some {
        ssh_host(args->0)
    } else {
        None
    }
}

/// The foreground process group's leader, from its process id, its name and
/// its arguments as far as the system gives them.
pub fn foreground(pid: i32, name: Option<String>, args: Option<Vec<String>>) -> (r: Option<
    ForegroundProcess,
>)
    ensures
        r is Some <==> pid > 0 && name is Some,
        r matches Some(p) ==> p.name@ == (name->0)@ && (match p.ssh_host {
            None => None,
            Some(h) => Some(h@),
        }) == host_of_process(
            (name->0)@,
            match args {
                None => None,
                Some(a) => Some(views(a@)),
            },
        ),
{
    if pid <= 0 {
        return None;
    }
    match name {
        None => None,
        Some(name) => {
            let mut ssh_host: Option<String> = None;
            if same(name.as_str(), "ssh") {
                if let Some(list) = args {
                    ssh_host = ssh_host_from_args(&list);
                }
            }
            Some(ForegroundProcess { name, ssh_host })
        },
    }
}

/// What follows the zero bytes at the start.
pub open spec fn after_zeros(buf: Seq<u8>) -> Seq<u8>
    decreases buf.len(),
{
    if buf.len() > 0 && buf[0] == 0 {
        after_zeros(buf.skip(1))
    } else {
        buf
    }
}

/// Up to `n` texts, each ended by a zero byte or the end of the buffer.
pub open spec fn zero_ended(buf: Seq<u8>, n: int) -> Seq<Seq<char>>
    decreases buf.len(),
{
    if n <= 0 || buf.len() == 0 {
        Seq::empty()
    } else {
        let end = zero_at(buf) as int;
        let rest = if end < buf.len() {
            buf.skip(end + 1)
        } else {
            Seq::empty()
        };
        seq![lossy_text(buf.take(if end <= buf.len() {
            end
        } else {
            buf.len() as int
        }))] + zero_ended(rest, n - 1)
    }
}

/// The arguments in the buffer that `sysctl(KERN_PROCARGS2)` fills: `argc`
/// as a native int, the executable path, NUL padding, then `argc`
/// NUL-terminated arguments (the environment follows, which is ignored).
pub open spec fn procargs(buf: Seq<u8>, argc: int) -> Option<Seq<Seq<char>>> {
    if buf.len() < 4 {
        None
    } else {
        let path = buf.skip(4);
        Some(zero_ended(after_zeros(path.skip(zero_at(path) as int)), argc))
    }
}

/// The number whose bytes these are, lowest first.
pub open spec fn low_first(a: u8, b: u8, c: u8, d: u8) -> int {
    let n = a + 0x100 * b + 0x1_0000 * c + 0x100_0000 * d;
    if n < 0x8000_0000 {
        n
    } else {
        n - 0x1_0000_0000
    }
}

/// `i32::from_ne_bytes`: the number that these bytes stand for in memory, the
/// lowest byte first or last, as the machine has it.
#[verifier::external_body]
fn native_number(a: u8, b: u8, c: u8, d: u8) -> (r: i32)
    ensures
        r == low_first(a, b, c, d) || r == low_first(d, c, b, a),
{
    i32::from_ne_bytes([a, b, c, d])
}

/// The arguments in the buffer that `sysctl(KERN_PROCARGS2)` fills, as many as
/// the native int in its first four bytes says.
pub fn parse_procargs2(buf: &[u8]) -> (r: Option<Vec<String>>)
    ensures
        r is None <==> buf@.len() < 4,
        r matches Some(args) ==> {
            let (a, b, c, d) = (buf@[0], buf@[1], buf@[2], buf@[3]);
            Some(views(args@)) == procargs(buf@, low_first(a, b, c, d)) || Some(views(args@))
                == procargs(buf@, low_first(d, c, b, a))
        },
{
    if buf.len() < 4 {
        return None;
    }
    let argc = native_number(buf[0], buf[1], buf[2], buf[3]);
    read_procargs(buf, argc)
}

/// The first `argc` arguments in the buffer that `sysctl(KERN_PROCARGS2)`
/// fills.
pub fn read_procargs(buf: &[u8], argc: i32) -> (r: Option<Vec<String>>)
    ensures
        match r {
            None => procargs(buf@, argc as int) is None,
            Some(args) => procargs(buf@, argc as int) == Some(views(args@)),
        },
{
    if buf.len() < 4 {
        return None;
    }
    // Skip the exec path.
    let mut pos: usize = find_zero(buf, 4);
    let ghost tail = buf@.skip(pos as int);
    assert(tail =~= buf@.skip(4).skip(zero_at(buf@.skip(4)) as int));
    // ...and the padding after it.
    while pos < buf.len() && buf[pos] == 0
        invariant
            pos <= buf.len(),
            after_zeros(tail) == after_zeros(buf@.skip(pos as int)),
        decreases buf.len() - pos,
    {
        assert(buf@.skip(pos as int)[0] == buf@[pos as int]);
        assert(buf@.skip(pos as int).skip(1) =~= buf@.skip(pos + 1));
        pos += 1;
    }
    proof {
        if pos < buf.len() {
            assert(buf@.skip(pos as int)[0] == buf@[pos as int]);
        }
    }
    let ghost list = zero_ended(after_zeros(tail), argc as int);
    let mut args: Vec<String> = Vec::new();
    let mut left: i32 = argc;
    assert(views(args@) + list =~= list);
    while left > 0 && pos < buf.len()
        invariant
            pos <= buf.len(),
            list == views(args@) + zero_ended(buf@.skip(pos as int), left as int),
        decreases buf.len() - pos,
    {
        let ghost rest = buf@.skip(pos as int);
        let ghost before = args@;
        proof {
            lemma_zero_at(rest);
        }
        let end = find_zero(buf, pos);
        let arg = utf8_lossy(&bytes_of(buf, pos, end));
        assert(buf@.subrange(pos as int, end as int) =~= rest.take(end - pos));
        let ghost text = arg@;
        args.push(arg);
        pos = if end < buf.len() {
            end + 1
        } else {
            end
        };
        left -= 1;
        proof {
            let next = buf@.skip(pos as int);
            if end < buf.len() {
                assert(rest.skip(end - (buf.len() - rest.len()) + 1) =~= next);
            } else {
                assert(next =~= Seq::empty());
            }
            assert(zero_ended(rest, left + 1) =~= seq![text] + zero_ended(next, left as int));
            assert(views(args@) =~= views(before).push(text));
            assert(views(before) + (seq![text] + zero_ended(next, left as int)) =~= views(args@)
                + zero_ended(next, left as int));
        }
    }
    assert(zero_ended(buf@.skip(pos as int), left as int) =~= Seq::empty());
    assert(views(args@) + Seq::<Seq<char>>::empty() =~= views(args@));
    Some(args)
}

/// Options of `ssh` whose value is the next argument, or glued on (`-p22`).
pub open spec fn takes_value(c: char) -> bool {
    "BbcDEeFIiJLlmOoPpRSWw"@.contains(c)
}

/// Whether a cluster of options takes the argument after it: the first
/// option with a value eats the rest of the cluster, or the next argument
/// if nothing follows.
pub open spec fn takes_next(flags: Seq<char>) -> bool
    decreases flags.len(),
{
    if flags.len() == 0 {
        false
    } else if takes_value(flags[0]) {
        flags.len() == 1
    } else {
        takes_next(flags.skip(1))
    }
}

/// What follows the `@` in a destination, if it has one.
pub open spec fn without_user(host: Seq<char>) -> Seq<char> {
    match rfind(host, '@') {
        None => host,
        Some(i) => host.skip(i as int + 1),
    }
}

/// A destination without a port number.
pub open spec fn without_port(host: Seq<char>) -> Seq<char> {
    match after_char(host, ':') {
        None => host,
        Some(port) => if only_digits(strip_end(port, '/')) {
            before_char(host, ':')
        } else {
            host
        },
    }
}

/// A destination without its `ssh://` scheme.
pub open spec fn without_scheme(arg: Seq<char>) -> Seq<char> {
    if begins_with(arg, "ssh://"@) {
        arg.skip(6)
    } else {
        arg
    }
}

/// The bare host of a destination.
pub open spec fn bare_host(arg: Seq<char>) -> Seq<char> {
    strip_end(without_port(without_user(without_scheme(arg))), '/')
}

/// The host among the arguments after `ssh` itself.
pub open spec fn host_among(args: Seq<Seq<char>>) -> Option<Seq<char>>
    decreases args.len(),
{
    if args.len() == 0 {
        None
    } else if args[0] == "--"@ {
        if args.len() > 1 {
            Some(bare_host(args[1]))
        } else {
            None
        }
    } else if args[0].len() > 1 && args[0][0] == '-' {
        if takes_next(args[0].skip(1)) && args.len() > 1 {
            host_among(args.skip(2))
        } else {
            host_among(args.skip(1))
        }
    } else {
        Some(bare_host(args[0]))
    }
}

/// The host in the arguments of an `ssh` process.
pub open spec fn ssh_host(args: Seq<Seq<char>>) -> Option<Seq<char>> {
    if args.len() == 0 {
        None
    } else {
        host_among(args.skip(1))
    }
}

fn wants_next(flags: &[char]) -> (r: bool)
    ensures
        r == takes_next(flags@),
{
    let with_value = chars_of("BbcDEeFIiJLlmOoPpRSWw");
    let mut i: usize = 0;
    assert(flags@.skip(0) =~= flags@);
    while i < flags.len()
        invariant
            i <= flags.len(),
            with_value@ == "BbcDEeFIiJLlmOoPpRSWw"@,
            takes_next(flags@) == takes_next(flags@.skip(i as int)),
        decreases flags.len() - i,
    {
        assert(flags@.skip(i as int)[0] == flags@[i as int]);
        assert(flags@.skip(i as int).skip(1) =~= flags@.skip(i + 1));
        if has_char(&with_value, flags[i]) {
            return i + 1 == flags.len();
        }
        i += 1;
    }
    false
}

fn clean_host(arg: &str) -> (r: String)
    ensures
        r@ == bare_host(arg@),
{
    let mut host = chars_of(arg);
    if has_prefix(arg, "ssh://") {
        proof {
            reveal_strlit("ssh://");
        }
        let rest = slice_of(&host, 6, host.len());
        assert(rest@ =~= arg@.skip(6));
        host = rest;
    }
    proof {
        lemma_rfind(host@, '@');
    }
    if let Some(i) = rfind_char(&host, '@') {
        let rest = slice_of(&host, i + 1, host.len());
        assert(rest@ =~= host@.skip(i + 1));
        host = rest;
    }
    let (head, port) = cut_at(&host, ':');
    if let Some(port) = port {
        if digits_only(&strip_end_of(&port, '/')) {
            host = head;
        }
    }
    string_of(&strip_end_of(&host, '/'))
}

/// The destination host from an `ssh` argument vector: the first
/// positional argument, skipping options and the options that take a
/// value, with any `user@` and `ssh://` scheme removed.
pub fn ssh_host_from_args(args: &[String]) -> (r: Option<String>)
    ensures
        match r {
            None => ssh_host(views(args@)) is None,
            Some(h) => ssh_host(views(args@)) == Some(h@),
        },
{
    if args.len() == 0 {
        return None;
    }
    let ghost all = views(args@);
    let mut i: usize = 1;
    while i < args.len()
        invariant
            1 <= i <= args.len(),
            all == views(args@),
            ssh_host(all) == host_among(all.skip(i as int)),
        decreases args.len() - i,
    {
        let ghost rest = all.skip(i as int);
        proof {
            assert(rest[0] == args@[i as int]@);
            assert(rest.skip(1) =~= all.skip(i + 1));
            if i + 1 < args.len() {
                assert(rest[1] == args@[i + 1]@);
                assert(rest.skip(2) =~= all.skip(i + 2));
            }
        }
        let arg = args[i].as_str();
        if same(arg, "--") {
            return if i + 1 < args.len() {
                Some(clean_host(args[i + 1].as_str()))
            } else {
                None
            };
        }
        let chars = chars_of(arg);
        if chars.len() > 1 && chars[0] == '-' {
            let flags = slice_of(&chars, 1, chars.len());
            assert(flags@ =~= arg@.skip(1));
            if wants_next(&flags) && i + 1 < args.len() {
                i += 2;
            } else {
                i += 1;
            }
        } else {
            return Some(clean_host(arg));
        }
    }
    None
}

// --- What the names and arguments mean ---

/// The shells, also as login shells with a dash before the name, and with a
/// version behind it.
pub proof fn lemma_shells(version: Seq<char>)
    ensures
        names_shell("sh"@),
        names_shell("bash"@),
        names_shell("zsh"@),
        names_shell("fish"@),
        names_shell("dash"@),
        names_shell("ksh"@),
        names_shell("mksh"@),
        names_shell("tcsh"@),
        names_shell("csh"@),
        names_shell("nu"@),
        names_shell("elvish"@),
        names_shell("xonsh"@),
        names_shell("login"@),
        names_shell(seq!['-'] + "sh"@),
        names_shell(seq!['-'] + "bash"@),
        names_shell(seq!['-'] + "zsh"@),
        names_shell(seq!['-'] + "fish"@),
        names_shell(seq!['-'] + "dash"@),
        names_shell(seq!['-'] + "ksh"@),
        names_shell(seq!['-'] + "mksh"@),
        names_shell(seq!['-'] + "tcsh"@),
        names_shell(seq!['-'] + "csh"@),
        names_shell(seq!['-'] + "nu"@),
        names_shell(seq!['-'] + "elvish"@),
        names_shell(seq!['-'] + "xonsh"@),
        names_shell(seq!['-'] + "login"@),
        names_shell("bash-"@ + version),
        names_shell("zsh-"@ + version),
{
    lemma_login_name("sh"@);
    lemma_login_name("bash"@);
    lemma_login_name("zsh"@);
    lemma_login_name("fish"@);
    lemma_login_name("dash"@);
    lemma_login_name("ksh"@);
    lemma_login_name("mksh"@);
    lemma_login_name("tcsh"@);
    lemma_login_name("csh"@);
    lemma_login_name("nu"@);
    lemma_login_name("elvish"@);
    lemma_login_name("xonsh"@);
    lemma_login_name("login"@);
    reveal_strlit("sh");
    reveal_strlit("bash");
    reveal_strlit("zsh");
    reveal_strlit("fish");
    reveal_strlit("dash");
    reveal_strlit("ksh");
    reveal_strlit("mksh");
    reveal_strlit("tcsh");
    reveal_strlit("csh");
    reveal_strlit("nu");
    reveal_strlit("elvish");
    reveal_strlit("xonsh");
    reveal_strlit("login");
    reveal_strlit("bash-");
    reveal_strlit("zsh-");
    let b = "bash-"@ + version;
    let z = "zsh-"@ + version;
    assert(b[0] == 'b' && z[0] == 'z');
    assert(strip_start(b, '-') == b);
    assert(strip_start(z, '-') == z);
    assert(b.take("bash-"@.len() as int) =~= "bash-"@);
    assert(z.take("zsh-"@.len() as int) =~= "zsh-"@);
}

proof fn lemma_login_name(name: Seq<char>)
    ensures
        name.len() > 0 && name[0] != '-' ==> strip_start(name, '-') == name && strip_start(
            seq!['-'] + name,
            '-',
        ) == name,
{
    let s = seq!['-'] + name;
    assert(s[0] == '-');
    assert(s.skip(1) =~= name);
}

/// An option of `ssh` that takes a value takes the next argument, unless the
/// value stands behind it in the same one.
pub proof fn lemma_options_with_values(c: char, value: Seq<char>, rest: Seq<Seq<char>>)
    requires
        c == 'B' || c == 'b' || c == 'c' || c == 'D' || c == 'E' || c == 'e' || c == 'F' || c == 'I' || c == 'i' || c == 'J' || c == 'L' || c == 'l' || c == 'm' || c == 'O' || c == 'o' || c == 'P' || c == 'p' || c == 'R' || c == 'S' || c == 'W' || c == 'w',
    ensures
        host_among(seq![seq!['-', c], value] + rest) == host_among(rest),
        value.len() > 0 ==> host_among(seq![seq!['-', c] + value] + rest) == host_among(rest),
{
    lemma_value_letters(c);
    reveal_strlit("--");
    let f = seq!['-', c];
    let g = f + value;
    assert("--"@[1] == '-');
    assert(f[1] == c && g[1] == c);
    assert(f.skip(1) =~= seq![c]);
    assert(g.skip(1) =~= seq![c] + value);
    let a = seq![f, value] + rest;
    let b = seq![g] + rest;
    assert(a[0] == f && b[0] == g);
    assert(a.skip(2) =~= rest);
    assert(b.skip(1) =~= rest);
}

/// The other options of `ssh` stand alone.
pub proof fn lemma_options_alone(c: char, rest: Seq<Seq<char>>)
    requires
        c == '4' || c == '6' || c == 'A' || c == 'a' || c == 'C' || c == 'f' || c == 'G' || c == 'g' || c == 'K' || c == 'k' || c == 'M' || c == 'N' || c == 'n' || c == 'q' || c == 's' || c == 'T' || c == 't' || c == 'V' || c == 'v' || c == 'X' || c == 'x' || c == 'Y' || c == 'y',
    ensures
        host_among(seq![seq!['-', c]] + rest) == host_among(rest),
{
    lemma_value_letters(c);
    reveal_strlit("--");
    let f = seq!['-', c];
    assert("--"@[1] == '-');
    assert(f[1] == c);
    assert(f.skip(1) =~= seq![c]);
    assert(seq![c].skip(1) =~= Seq::<char>::empty());
    let a = seq![f] + rest;
    assert(a[0] == f);
    assert(a.skip(1) =~= rest);
    assert(!takes_next(seq![c].skip(1)));
    assert(!takes_next(seq![c]));
}

proof fn lemma_value_letters(c: char)
    ensures
        takes_value(c) <==> (c == 'B' || c == 'b' || c == 'c' || c == 'D' || c == 'E' || c == 'e' || c == 'F' || c == 'I' || c == 'i' || c == 'J' || c == 'L' || c == 'l' || c == 'm' || c == 'O' || c == 'o' || c == 'P' || c == 'p' || c == 'R' || c == 'S' || c == 'W' || c == 'w'),
{
    let s = "BbcDEeFIiJLlmOoPpRSWw"@;
    reveal_strlit("BbcDEeFIiJLlmOoPpRSWw");
    assert(s[0] == 'B' && s.contains('B'));
    assert(s[1] == 'b' && s.contains('b'));
    assert(s[2] == 'c' && s.contains('c'));
    assert(s[3] == 'D' && s.contains('D'));
    assert(s[4] == 'E' && s.contains('E'));
    assert(s[5] == 'e' && s.contains('e'));
    assert(s[6] == 'F' && s.contains('F'));
    assert(s[7] == 'I' && s.contains('I'));
    assert(s[8] == 'i' && s.contains('i'));
    assert(s[9] == 'J' && s.contains('J'));
    assert(s[10] == 'L' && s.contains('L'));
    assert(s[11] == 'l' && s.contains('l'));
    assert(s[12] == 'm' && s.contains('m'));
    assert(s[13] == 'O' && s.contains('O'));
    assert(s[14] == 'o' && s.contains('o'));
    assert(s[15] == 'P' && s.contains('P'));
    assert(s[16] == 'p' && s.contains('p'));
    assert(s[17] == 'R' && s.contains('R'));
    assert(s[18] == 'S' && s.contains('S'));
    assert(s[19] == 'W' && s.contains('W'));
    assert(s[20] == 'w' && s.contains('w'));
    assert(s.len() == 21);
}

/// The destination is the first argument that is no option, or the one
/// behind two dashes; an argument behind it is part of the remote command.
pub proof fn lemma_destination(host: Seq<char>, rest: Seq<Seq<char>>)
    requires
        host.len() > 0,
    ensures
        host[0] != '-' ==> ssh_host(seq!["ssh"@, host] + rest) == Some(bare_host(host)),
        ssh_host(seq!["ssh"@, "--"@, host] + rest) == Some(bare_host(host)),
        ssh_host(seq!["ssh"@]) is None,
{
    reveal_strlit("--");
    let a = seq!["ssh"@, host] + rest;
    let b = seq!["ssh"@, "--"@, host] + rest;
    assert(a.skip(1) =~= seq![host] + rest);
    assert(b.skip(1) =~= seq!["--"@, host] + rest);
    assert((seq![host] + rest)[0] == host);
    assert((seq!["--"@, host] + rest)[0] == "--"@);
    assert((seq!["--"@, host] + rest)[1] == host);
    assert(seq!["ssh"@].skip(1) =~= Seq::<Seq<char>>::empty());
    if host[0] != '-' {
        assert("--"@[0] == '-');
    }
}

/// A host is shown without a user before it, a port behind it, or the scheme
/// of an address.
pub proof fn lemma_bare_hosts(host: Seq<char>, user: Seq<char>, port: Seq<char>)
    requires
        host.len() > 0,
        !host.contains('@'),
        !host.contains(':'),
        !host.contains('/'),
        only_digits(port),
    ensures
        bare_host(host) == host,
        bare_host(user + seq!['@'] + host) == host,
        bare_host("ssh://"@ + host) == host,
        bare_host("ssh://"@ + user + seq!['@'] + host) == host,
        bare_host("ssh://"@ + user + seq!['@'] + host + seq![':'] + port) == host,
{
    reveal_strlit("ssh://");
    let scheme = "ssh://"@;
    assert(host.contains(host.last()));
    // No host without a colon starts with the scheme.
    if begins_with(host, scheme) {
        assert(host[3] == scheme[3]);
        assert(host.contains(host[3]));
    }
    lemma_no_user(host);
    lemma_cut_at_first(host, ':', port);
    assert(bare_host(host) == host);
    assert((scheme + host).take(6) =~= scheme);
    assert((scheme + host).skip(6) =~= host);
    let full = scheme + user + seq!['@'] + host;
    assert(full.take(6) =~= scheme);
    assert(full.skip(6) =~= user + seq!['@'] + host);
    lemma_after_user(user, host);
    let u = user + seq!['@'] + host;
    let v = u.skip(6);
    if begins_with(u, scheme) {
        if user.len() < 6 {
            // The scheme would reach into the host or cover the sign.
            if user.len() == 0 {
                assert(u[0] == '@' && scheme[0] == 's');
            } else {
                assert(u[user.len() as int] == '@');
                assert(u.take(6)[user.len() as int] == scheme[user.len() as int]);
            }
        } else {
            assert(v =~= user.skip(6) + seq!['@'] + host);
            lemma_after_user(user.skip(6), host);
        }
    }
    let long = scheme + user + seq!['@'] + host + seq![':'] + port;
    let tail = host + seq![':'] + port;
    assert(long.take(6) =~= scheme);
    assert(long.skip(6) =~= user + seq!['@'] + tail);
    assert(!tail.contains('@')) by {
        if tail.contains('@') {
            let i = choose|i: int| 0 <= i < tail.len() && tail[i] == '@';
            if i < host.len() {
                assert(host.contains(host[i]));
            } else if i > host.len() {
                assert(is_digit(port[i - host.len() - 1]));
            }
        }
    }
    lemma_after_user(user, tail);
    assert(strip_end(port, '/') == port) by {
        if port.len() > 0 {
            assert(is_digit(port[port.len() - 1]));
        }
    }
}

proof fn lemma_no_user(host: Seq<char>)
    requires
        !host.contains('@'),
    ensures
        without_user(host) == host,
{
    lemma_rfind_last(host, '@');
    if rfind(host, '@') is Some {
        assert(host.contains(host[rfind(host, '@')->0 as int]));
    }
}

proof fn lemma_after_user(user: Seq<char>, host: Seq<char>)
    requires
        !host.contains('@'),
    ensures
        without_user(user + seq!['@'] + host) == host,
{
    let s = user + seq!['@'] + host;
    lemma_rfind_last(s, '@');
    assert(s[user.len() as int] == '@');
    if rfind(s, '@') is Some {
        let k = rfind(s, '@')->0 as int;
        if k > user.len() {
            assert(host.contains(host[k - user.len() - 1]));
        }
    }
    assert(s.skip(user.len() as int + 1) =~= host);
}

/// Only `ssh` has a host.
pub proof fn lemma_hosts_are_of_ssh(name: Seq<char>, args: Seq<Seq<char>>)
    ensures
        host_of_process("ssh"@, Some(args)) == ssh_host(args),
        name != "ssh"@ ==> host_of_process(name, Some(args)) is None,
        host_of_process(name, None) is None,
{
}

/// Arguments end at zero bytes, and no more of them are read than there are.
pub proof fn lemma_arguments_end_at_zeros(a: Seq<u8>, rest: Seq<u8>, n: int)
    requires
        n > 0,
        forall|i: int| 0 <= i < a.len() ==> #[trigger] a[i] != 0,
    ensures
        zero_ended(a + seq![0u8] + rest, n) == seq![lossy_text(a)] + zero_ended(rest, n - 1),
        zero_ended(rest, 0) == Seq::<Seq<char>>::empty(),
{
    lemma_zero_found(a, rest);
    let s = a + seq![0u8] + rest;
    assert(s.take(a.len() as int) =~= a);
    assert(s.skip(a.len() as int + 1) =~= rest);
}

proof fn lemma_zero_found(a: Seq<u8>, rest: Seq<u8>)
    requires
        forall|i: int| 0 <= i < a.len() ==> #[trigger] a[i] != 0,
    ensures
        zero_at(a + seq![0u8] + rest) == a.len(),
    decreases a.len(),
{
    let s = a + seq![0u8] + rest;
    if a.len() > 0 {
        assert(s[0] == a[0]);
        assert(s.skip(1) =~= a.skip(1) + seq![0u8] + rest);
        lemma_zero_found(a.skip(1), rest);
    } else {
        assert(s[0] == 0);
    }
}

/// The zeros between the program's path and its arguments are passed over,
/// and nothing else is.
pub proof fn lemma_zeros_are_passed_over(s: Seq<u8>)
    ensures
        after_zeros(seq![0u8] + s) == after_zeros(s),
        s.len() > 0 && s[0] != 0 ==> after_zeros(s) == s,
{
    assert((seq![0u8] + s).skip(1) =~= s);
}

/// A count is four bytes, the lowest first, with a sign.
pub proof fn lemma_counts(a: u8, b: u8, c: u8, d: u8)
    ensures
        low_first(a, 0, 0, 0) == a,
        low_first(0, b, 0, 0) == 256 * b,
        low_first(0, 0, c, 0) == 65_536 * c,
        d < 128 ==> low_first(0, 0, 0, d) == 16_777_216 * d,
        low_first(255, 255, 255, 255) == -1,
{
}

/// A process is named by its full name where that can be read, and by its
/// short one otherwise.
pub proof fn lemma_process_names(full: Seq<u8>, short: Seq<u8>)
    ensures
        utf8(full) matches Some(n) ==> (n.len() > 0 ==> named_process(full, short) == Some(n)),
        utf8(full) is None ==> (utf8(short) matches Some(n) ==> (n.len() > 0 ==> named_process(
            full,
            short,
        ) == Some(n))),
        utf8(full) is None && utf8(short) is None ==> named_process(full, short) is None,
{
}

} // verus!
