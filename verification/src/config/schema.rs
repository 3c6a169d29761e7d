//! The configuration's sections and their values.
//!
//! Sections that hold fractions of a cell or of a pixel (font, window, tree,
//! cursor) belong to the application; what stands here is plain data.
use vstd::prelude::*;

use crate::text::{
    ascii_lowered, chars_of, decimal, digit, digit_value, digits_value, is_digit,
    lemma_decimal_reads_back, lemma_digits_value_bound, lemma_sort_chain, lemma_sort_total,
    lemma_trim_tight, lowered, maybe, precedes, same, slice_of, sorts_before, string_of, trim,
    trim_chars, views,
};

verus! {

/// Nanoseconds in a second.
pub const SECOND: u64 = 1_000_000_000;

/// Pinned-workspace restore: whether saved startup commands run, and how
/// long to wait for a shell to be ready before giving up on its command.
#[derive(Debug, Clone, PartialEq)]
pub struct WorkspacesConfig {
    /// Run saved startup commands when restoring a pinned workspace (and
    /// when reopening a closed tab that had them). `--no-startup-commands`
    /// on the command line, or shift held at launch, overrides this for one
    /// launch.
    pub run_startup_commands: bool,
    /// How long to wait for a shell to show its first prompt before giving
    /// up on that pane's startup command rather than firing it into a void.
    pub startup_timeout: DurationText,
}

impl Default for WorkspacesConfig {
    fn default() -> (r: Self)
        ensures
            r.run_startup_commands,
            r.startup_timeout.0 == 5 * SECOND,
    {
        Self { run_startup_commands: true, startup_timeout: DurationText(5_000_000_000) }
    }
}

/// The cursor's shape. Programs that set their own shape with DECSCUSR
/// (`\e[<n> q`, as vim does per mode) override it until they reset it.
#[derive(Debug, Clone, Copy, PartialEq, Eq, Structural)]
pub enum CursorStyleName {
    Block,
    Bar,
    Underline,
}

/// How the cursor looks in a pane that isn't focused.
#[derive(Debug, Clone, Copy, PartialEq, Eq, Structural)]
pub enum UnfocusedCursor {
    Hollow,
    Solid,
    Hidden,
}

/// Per-host accents for panes whose foreground process is `ssh`, so a
/// production box is visibly different from a dev one.
#[derive(Debug, Clone, PartialEq)]
pub struct SshConfig {
    pub hosts: Vec<SshHost>,
}

/// The accent of the hosts that a pattern matches.
#[derive(Debug, Clone, PartialEq)]
pub struct SshHost {
    /// A glob over the host as typed on the command line (after any
    /// `user@`): `*` and `?` wildcards, case-insensitive.
    pub pattern: String,
    pub accent: String,
}

impl Default for SshConfig {
    fn default() -> (r: Self)
        ensures
            r.hosts@.len() == 0,
    {
        Self { hosts: Vec::new() }
    }
}

/// The accent of the first host whose pattern matches.
pub open spec fn accent(hosts: Seq<SshHost>, host: Seq<char>) -> Option<Seq<char>>
    decreases hosts.len(),
{
    if hosts.len() == 0 {
        None
    } else if globs(hosts[0].pattern@, host) {
        Some(hosts[0].accent@)
    } else {
        accent(hosts.skip(1), host)
    }
}

impl SshConfig {
    /// The accent for `host`, from the first pattern that matches.
    pub fn accent_for(&self, host: &str) -> (r: Option<&str>)
        ensures
            match r {
                None => accent(self.hosts@, host@) is None,
                Some(a) => accent(self.hosts@, host@) == Some(a@),
            },
    {
        let mut i: usize = 0;
        assert(self.hosts@.skip(0) =~= self.hosts@);
        while i < self.hosts.len()
            invariant
                i <= self.hosts.len(),
                accent(self.hosts@, host@) == accent(self.hosts@.skip(i as int), host@),
            decreases self.hosts.len() - i,
        {
            let ghost rest = self.hosts@.skip(i as int);
            assert(rest[0] == self.hosts@[i as int]);
            assert(rest.skip(1) =~= self.hosts@.skip(i + 1));
            if glob_match(self.hosts[i].pattern.as_str(), host) {
                return Some(self.hosts[i].accent.as_str());
            }
            i += 1;
        }
        None
    }
}

/// Whether a text fits a pattern, letter case included: `*` stands for any
/// run, the empty one too, and `?` for one character.
pub open spec fn fits(p: Seq<char>, t: Seq<char>) -> bool
    decreases p.len() + t.len(),
{
    if p.len() == 0 {
        t.len() == 0
    } else if p[0] == '*' {
        fits(p.skip(1), t) || (t.len() > 0 && fits(p, t.skip(1)))
    } else {
        t.len() > 0 && (p[0] == '?' || p[0] == t[0]) && fits(p.skip(1), t.skip(1))
    }
}

/// Whether a text fits a pattern in any ASCII letter case.
pub open spec fn globs(pattern: Seq<char>, text: Seq<char>) -> bool {
    fits(ascii_lowered(pattern), ascii_lowered(text))
}

/// A star takes in whatever stands before the text that fits.
proof fn lemma_star_absorbs(p: Seq<char>, t: Seq<char>, k: int)
    requires
        p.len() > 0,
        p[0] == '*',
        0 <= k <= t.len(),
        fits(p, t.skip(k)),
    ensures
        fits(p, t),
    decreases k,
{
    if k == 0 {
        assert(t.skip(0) =~= t);
    } else {
        assert(t.skip(1).skip(k - 1) =~= t.skip(k));
        lemma_star_absorbs(p, t.skip(1), k - 1);
    }
}

/// A star that fits leaves the rest of the pattern to some later text.
proof fn lemma_star_leaves(p: Seq<char>, t: Seq<char>) -> (k: int)
    requires
        p.len() > 0,
        p[0] == '*',
        fits(p, t),
    ensures
        0 <= k <= t.len(),
        fits(p.skip(1), t.skip(k)),
    decreases t.len(),
{
    if fits(p.skip(1), t) {
        assert(t.skip(0) =~= t);
        0
    } else {
        let k = lemma_star_leaves(p, t.skip(1));
        assert(t.skip(1).skip(k) =~= t.skip(k + 1));
        k + 1
    }
}

/// A stretch of `n` characters without a star takes up `n` of the text.
proof fn lemma_plain_stretch(p: Seq<char>, t: Seq<char>, n: int)
    requires
        0 <= n <= p.len(),
        forall|i: int| 0 <= i < n ==> #[trigger] p[i] != '*',
        fits(p, t),
    ensures
        n <= t.len(),
        fits(p.skip(n), t.skip(n)),
    decreases n,
{
    if n == 0 {
        assert(p.skip(0) =~= p);
        assert(t.skip(0) =~= t);
    } else {
        assert(p[0] != '*');
        assert forall|i: int| 0 <= i < n - 1 implies #[trigger] p.skip(1)[i] != '*' by {
            assert(p.skip(1)[i] == p[i + 1]);
        }
        lemma_plain_stretch(p.skip(1), t.skip(1), n - 1);
        assert(p.skip(1).skip(n - 1) =~= p.skip(n));
        assert(t.skip(1).skip(n - 1) =~= t.skip(n));
    }
}

/// What the last star could still take in is no better than going on from
/// the star or the end that was reached.
proof fn lemma_last_star_suffices(p: Seq<char>, t: Seq<char>, sp: int, st: int, pi: int, ti: int)
    requires
        0 <= sp < pi <= p.len(),
        0 <= st <= ti <= t.len(),
        p[sp] == '*',
        pi - sp - 1 == ti - st,
        forall|i: int| sp < i < pi ==> #[trigger] p[i] != '*',
        pi == p.len() || p[pi] == '*' || ti == t.len(),
        ti == t.len() || pi < p.len() && p[pi] == '*',
        st < t.len(),
        fits(p.skip(sp), t.skip(st + 1)),
    ensures
        ti < t.len(),
        fits(p.skip(pi), t.skip(ti)),
{
    let n = pi - sp - 1;
    let k = lemma_star_leaves(p.skip(sp), t.skip(st + 1));
    let j = st + 1 + k;
    assert(p.skip(sp).skip(1) =~= p.skip(sp + 1));
    assert(t.skip(st + 1).skip(k) =~= t.skip(j));
    assert forall|i: int| 0 <= i < n implies #[trigger] p.skip(sp + 1)[i] != '*' by {
        assert(p.skip(sp + 1)[i] == p[sp + 1 + i]);
    }
    lemma_plain_stretch(p.skip(sp + 1), t.skip(j), n);
    assert(p.skip(sp + 1).skip(n) =~= p.skip(pi));
    assert(t.skip(j).skip(n) =~= t.skip(j + n));
    assert(t.skip(ti).skip(j + n - ti) =~= t.skip(j + n));
    assert(p.skip(pi)[0] == p[pi]);
    lemma_star_absorbs(p.skip(pi), t.skip(ti), j + n - ti);
}

/// Only stars fit the empty text.
proof fn lemma_stars_only(p: Seq<char>, t: Seq<char>)
    requires
        t.len() == 0,
    ensures
        fits(p, t) == (p.len() == 0 || (p[0] == '*' && fits(p.skip(1), t))),
{
}

/// `*` matches any run (including none), `?` one character; ASCII
/// case-insensitive, since hostnames are.
pub fn glob_match(pattern: &str, text: &str) -> (r: bool)
    ensures
        r == globs(pattern@, text@),
{
    let p = lowered(&chars_of(pattern));
    let t = lowered(&chars_of(text));
    let mut pi: usize = 0;
    let mut ti: usize = 0;
    // The last star, and the text from which it was tried.
    let mut star: Option<(usize, usize)> = None;
    let ghost fit = fits(p@, t@);
    assert(p@.skip(0) =~= p@);
    assert(t@.skip(0) =~= t@);
    while ti < t.len()
        invariant
            pi <= p.len(),
            ti <= t.len(),
            fit == globs(pattern@, text@),
            match star {
                None => fit == fits(p@.skip(pi as int), t@.skip(ti as int)),
                Some((sp, st)) => {
                    &&& sp < pi
                    &&& st <= ti
                    &&& p@[sp as int] == '*'
                    &&& pi - sp - 1 == ti - st
                    &&& forall|i: int| sp < i < pi ==> #[trigger] p@[i] != '*'
                    &&& fit == (fits(p@.skip(pi as int), t@.skip(ti as int)) || (st < t.len()
                        && fits(p@.skip(sp as int), t@.skip(st + 1))))
                },
            },
        decreases
                t.len() - (match star {
                    None => -1int,
                    Some((_, st)) => st as int,
                }),
                t.len() - ti,
                p.len() - pi,
    {
        let ghost pr = p@.skip(pi as int);
        let ghost tr = t@.skip(ti as int);
        proof {
            assert(tr[0] == t@[ti as int]);
            assert(tr.skip(1) =~= t@.skip(ti + 1));
            if pi < p.len() {
                assert(pr[0] == p@[pi as int]);
                assert(pr.skip(1) =~= p@.skip(pi + 1));
            }
        }
        if pi < p.len() && p[pi] == '*' {
            proof {
                if let Some((sp, st)) = star {
                    if st < t.len() && fits(p@.skip(sp as int), t@.skip(st + 1)) {
                        lemma_last_star_suffices(
                            p@,
                            t@,
                            sp as int,
                            st as int,
                            pi as int,
                            ti as int,
                        );
                    }
                }
            }
            star = Some((pi, ti));
            pi += 1;
        } else if pi < p.len() && (p[pi] == '?' || p[pi] == t[ti]) {
            pi += 1;
            ti += 1;
        } else if let Some((sp, st)) = star {
            proof {
                assert(st < t.len());
                let s = p@.skip(sp as int);
                assert(s[0] == '*');
                assert(s.skip(1) =~= p@.skip(sp + 1));
                if st + 1 < t.len() {
                    assert(t@.skip(st + 1).skip(1) =~= t@.skip(st + 2));
                }
            }
            pi = sp + 1;
            ti = st + 1;
            star = Some((sp, st + 1));
        } else {
            return false;
        }
    }
    proof {
        if let Some((sp, st)) = star {
            if st < t.len() && fits(p@.skip(sp as int), t@.skip(st + 1)) {
                lemma_last_star_suffices(p@, t@, sp as int, st as int, pi as int, ti as int);
            }
        }
    }
    let ghost rest = t@.skip(ti as int);
    while pi < p.len() && p[pi] == '*'
        invariant
            pi <= p.len(),
            rest.len() == 0,
            fit == fits(p@.skip(pi as int), rest),
        decreases p.len() - pi,
    {
        proof {
            assert(p@.skip(pi as int)[0] == p@[pi as int]);
            assert(p@.skip(pi as int).skip(1) =~= p@.skip(pi + 1));
            lemma_stars_only(p@.skip(pi as int), rest);
        }
        pi += 1;
    }
    proof {
        lemma_stars_only(p@.skip(pi as int), rest);
        if pi < p.len() {
            assert(p@.skip(pi as int)[0] == p@[pi as int]);
        }
    }
    pi == p.len()
}

/// How cmd-clicking a `path:line` opens the editor. Built-in mappings cover
/// vim/nvim, VS Code and friends, emacs, sublime, and helix; anything else
/// gets the file without a line, unless `open_at_line` says otherwise.
#[derive(Debug, Clone, PartialEq)]
pub struct EditorConfig {
    /// A shell command with `{path}`, `{line}`, and `{col}` substituted,
    /// e.g. `"myeditor --line {line} {path}"`. Overrides the mapping.
    pub open_at_line: Option<String>,
}

impl Default for EditorConfig {
    fn default() -> (r: Self)
        ensures
            r.open_at_line is None,
    {
        Self { open_at_line: None }
    }
}

/// Desktop notifications when a long or failed command finishes in a pane
/// you aren't looking at, plus passthrough for programs that post their own
/// (OSC 9 / OSC 777).
#[derive(Debug, Clone, PartialEq)]
pub struct NotificationsConfig {
    pub enabled: bool,
    /// Commands shorter than this never notify. `"30s"`, `"2m"`, `"1.5s"`,
    /// or a bare number of seconds.
    pub min_duration: DurationText,
    /// Only notify when the pane isn't focused or the window isn't active.
    pub only_when_unfocused: bool,
    /// A non-zero exit notifies regardless of duration (still subject to
    /// `only_when_unfocused`).
    pub on_failure_always: bool,
    /// Let programs post notifications with OSC 9 / OSC 777.
    pub passthrough_osc9: bool,
}

impl Default for NotificationsConfig {
    fn default() -> (r: Self)
        ensures
            r.enabled,
            r.min_duration.0 == 30 * SECOND,
            r.only_when_unfocused,
            !r.on_failure_always,
            r.passthrough_osc9,
    {
        Self {
            enabled: true,
            min_duration: DurationText(30_000_000_000),
            only_when_unfocused: true,
            on_failure_always: false,
            passthrough_osc9: true,
        }
    }
}

/// The per-pane command log built from the shell integration's OSC 133
/// markers: what feeds the status bar, tab indicators, history search, and
/// the failure gutter.
#[derive(Debug, Clone, PartialEq)]
pub struct CommandsConfig {
    pub track: bool,
    /// Have the shell send each command line to Oxide, so history search
    /// and notifications can name the command. The text stays in memory
    /// only; nothing is written to disk.
    pub emit_cmdline: bool,
    pub max_entries: usize,
}

impl Default for CommandsConfig {
    fn default() -> (r: Self)
        ensures
            r.track,
            r.emit_cmdline,
            r.max_entries == 500,
    {
        Self { track: true, emit_cmdline: true, max_entries: 500 }
    }
}

/// A duration in nanoseconds, written the way people write them: `"30s"`,
/// `"2m"`, `"1h"`, `"1.5s"`, `"250ms"`, or a bare number of seconds.
#[derive(Debug, Clone, Copy, PartialEq, Eq, Structural)]
pub struct DurationText(pub u128);

/// The longest duration is shorter than this many nanoseconds.
pub const DURATION_END: u128 = 18_446_744_073_709_551_616_000_000_000;

/// The decimals that count; later ones are below a nanosecond by far.
pub const DECIMALS: usize = 18;

/// Ten to the power of `DECIMALS`.
pub const DECIMAL_SCALE: u128 = 1_000_000_000_000_000_000;

/// Where the unit starts: at the first ASCII letter.
pub open spec fn unit_at(s: Seq<char>) -> nat
    decreases s.len(),
{
    if s.len() == 0 || ascii_letter(s[0]) {
        0
    } else {
        1 + unit_at(s.skip(1))
    }
}

/// Whether a character is an ASCII letter.
pub open spec fn ascii_letter(c: char) -> bool {
    'a' <= c <= 'z' || 'A' <= c <= 'Z'
}

/// A decimal number as text: its sign, the digits before the point and those
/// after it.
pub ghost struct Decimal {
    pub negative: bool,
    pub whole: Seq<char>,
    pub fraction: Seq<char>,
}

/// How many digits a text starts with.
pub open spec fn digit_run(s: Seq<char>) -> nat
    decreases s.len(),
{
    if s.len() > 0 && is_digit(s[0]) {
        1 + digit_run(s.skip(1))
    } else {
        0
    }
}

/// The parts of a decimal number: an optional sign, digits, and an optional
/// point with digits, at least one digit in all.
pub open spec fn decimal_parts(s: Seq<char>) -> Option<Decimal> {
    let negative = s.len() > 0 && s[0] == '-';
    let body = if s.len() > 0 && (s[0] == '-' || s[0] == '+') {
        s.skip(1)
    } else {
        s
    };
    let n = digit_run(body) as int;
    let whole = body.take(n);
    let rest = body.skip(n);
    if rest.len() == 0 {
        if n > 0 {
            Some(Decimal { negative, whole, fraction: Seq::empty() })
        } else {
            None
        }
    } else if rest[0] == '.' {
        let fraction = rest.skip(1);
        if digit_run(fraction) == fraction.len() && n + fraction.len() > 0 {
            Some(Decimal { negative, whole, fraction })
        } else {
            None
        }
    } else {
        None
    }
}

/// The value of the first `n` digits, with zeros where there are none.
pub open spec fn padded_value(s: Seq<char>, n: nat) -> int
    decreases n,
{
    if n == 0 {
        0
    } else {
        padded_value(s, (n - 1) as nat) * 10 + (if n <= s.len() {
            digit_value(s[n - 1])
        } else {
            0
        })
    }
}

/// The nanoseconds in a unit of time.
pub open spec fn unit_nanos(unit: Seq<char>) -> Option<int> {
    if unit == ""@ || unit == "s"@ || unit == "sec"@ || unit == "secs"@ {
        Some(1_000_000_000)
    } else if unit == "ms"@ {
        Some(1_000_000)
    } else if unit == "m"@ || unit == "min"@ || unit == "mins"@ {
        Some(60_000_000_000)
    } else if unit == "h"@ || unit == "hr"@ || unit == "hrs"@ {
        Some(3_600_000_000_000)
    } else {
        None
    }
}

/// A number of units in nanoseconds, rounded to the nearest one.
pub open spec fn nanos_of(d: Decimal, unit: int) -> int {
    digits_value(d.whole) * unit + (padded_value(d.fraction, DECIMALS as nat) * unit
        + DECIMAL_SCALE / 2) / (DECIMAL_SCALE as int)
}

/// Whether a number is zero, whatever its sign.
pub open spec fn all_zero(s: Seq<char>) -> bool {
    forall|i: int| 0 <= i < s.len() ==> #[trigger] s[i] == '0'
}

/// What a duration text says.
pub ghost enum Spelled {
    Nanos(int),
    Error(Seq<char>),
}

/// What a duration text says: its nanoseconds, or what is wrong with it.
pub open spec fn spelled(raw: Seq<char>) -> Spelled {
    let text = trim(raw);
    let at = unit_at(text) as int;
    let unit = trim(text.skip(at));
    match decimal_parts(trim(text.take(at))) {
        None => Spelled::Error(
            "bad duration \""@ + text + "\" — try \"30s\", \"2m\", or \"1.5s\""@,
        ),
        Some(d) => if d.negative && !(all_zero(d.whole) && all_zero(d.fraction)) {
            Spelled::Error("bad duration \""@ + text + "\""@)
        } else {
            match unit_nanos(unit) {
                None => Spelled::Error(
                    "bad duration unit \""@ + unit + "\" in \""@ + text
                        + "\" — use ms, s, m, or h"@,
                ),
                Some(u) => if nanos_of(d, u) < DURATION_END {
                    Spelled::Nanos(nanos_of(d, u))
                } else {
                    Spelled::Error("bad duration \""@ + text + "\""@)
                },
            }
        },
    }
}

fn split_unit(s: &[char]) -> (at: usize)
    ensures
        at == unit_at(s@),
        at <= s.len(),
{
    let mut at: usize = 0;
    assert(s@.skip(0) =~= s@);
    while at < s.len() && !((s[at] >= 'a' && s[at] <= 'z') || (s[at] >= 'A' && s[at] <= 'Z'))
        invariant
            at <= s.len(),
            unit_at(s@) == at + unit_at(s@.skip(at as int)),
        decreases s.len() - at,
    {
        assert(s@.skip(at as int)[0] == s@[at as int]);
        assert(s@.skip(at as int).skip(1) =~= s@.skip(at + 1));
        at += 1;
    }
    proof {
        if at < s.len() {
            assert(s@.skip(at as int)[0] == s@[at as int]);
        }
    }
    at
}

fn count_digits(s: &[char]) -> (n: usize)
    ensures
        n == digit_run(s@),
        n <= s.len(),
        forall|k: int| 0 <= k < n ==> is_digit(#[trigger] s@[k]),
{
    let mut n: usize = 0;
    assert(s@.skip(0) =~= s@);
    while n < s.len() && digit(s[n])
        invariant
            n <= s.len(),
            digit_run(s@) == n + digit_run(s@.skip(n as int)),
            forall|k: int| 0 <= k < n ==> is_digit(#[trigger] s@[k]),
        decreases s.len() - n,
    {
        assert(s@.skip(n as int)[0] == s@[n as int]);
        assert(s@.skip(n as int).skip(1) =~= s@.skip(n + 1));
        n += 1;
    }
    proof {
        if n < s.len() {
            assert(s@.skip(n as int)[0] == s@[n as int]);
        }
    }
    n
}

/// Whether only the digit zero occurs.
fn zeros(s: &[char]) -> (r: bool)
    ensures
        r == all_zero(s@),
{
    let mut i: usize = 0;
    while i < s.len()
        invariant
            i <= s.len(),
            forall|k: int| 0 <= k < i ==> #[trigger] s@[k] == '0',
        decreases s.len() - i,
    {
        if s[i] != '0' {
            assert(s@[i as int] != '0');
            return false;
        }
        i += 1;
    }
    true
}

/// The value of some digits, where it is below `DURATION_END`.
fn whole_value(s: &[char]) -> (r: Option<u128>)
    requires
        forall|k: int| 0 <= k < s@.len() ==> is_digit(#[trigger] s@[k]),
    ensures
        match r {
            None => digits_value(s@) >= DURATION_END,
            Some(n) => n == digits_value(s@) && n < DURATION_END,
        },
{
    let mut n: u128 = 0;
    let mut k: usize = 0;
    assert(s@.take(0) =~= Seq::<char>::empty());
    while k < s.len()
        invariant
            k <= s.len(),
            forall|k: int| 0 <= k < s@.len() ==> is_digit(#[trigger] s@[k]),
            n == digits_value(s@.take(k as int)),
            n < DURATION_END,
        decreases s.len() - k,
    {
        assert(is_digit(s@[k as int]));
        let d: u128 = (s[k] as u32 - 48) as u128;
        proof {
            lemma_digits_value_bound(s@, k + 1);
            assert(s@.take(k + 1).drop_last() =~= s@.take(k as int));
            assert(s@.take(k + 1).last() == s@[k as int]);
        }
        n = n * 10 + d;
        if n >= DURATION_END {
            return None;
        }
        k += 1;
    }
    assert(s@.take(s@.len() as int) =~= s@);
    Some(n)
}

/// The first `DECIMALS` digits as a number, with zeros where there are none.
fn fraction_value(s: &[char]) -> (n: u128)
    requires
        forall|k: int| 0 <= k < s@.len() ==> is_digit(#[trigger] s@[k]),
    ensures
        n == padded_value(s@, DECIMALS as nat),
        n < DECIMAL_SCALE,
{
    let mut n: u128 = 0;
    let mut k: usize = 0;
    let mut scale: u128 = 1;
    proof {
        reveal_with_fuel(vstd::arithmetic::power::pow, 20);
        assert(vstd::arithmetic::power::pow(10, 0) == 1);
        assert(vstd::arithmetic::power::pow(10, 18) == DECIMAL_SCALE);
    }
    while k < DECIMALS
        invariant
            k <= DECIMALS,
            forall|k: int| 0 <= k < s@.len() ==> is_digit(#[trigger] s@[k]),
            n == padded_value(s@, k as nat),
            n < scale,
            scale == vstd::arithmetic::power::pow(10, k as nat),
            vstd::arithmetic::power::pow(10, DECIMALS as nat) == DECIMAL_SCALE,
        decreases DECIMALS - k,
    {
        let d: u128 = if k < s.len() {
            assert(is_digit(s@[k as int]));
            (s[k] as u32 - 48) as u128
        } else {
            0
        };
        proof {
            reveal(vstd::arithmetic::power::pow);
            assert(vstd::arithmetic::power::pow(10, (k + 1) as nat) == 10
                * vstd::arithmetic::power::pow(10, k as nat));
            vstd::arithmetic::power::lemma_pow_increases(10, (k + 1) as nat, DECIMALS as nat);
        }
        n = n * 10 + d;
        scale = scale * 10;
        k += 1;
    }
    n
}

fn unit_length(unit: &str) -> (r: Option<u128>)
    ensures
        match r {
            None => unit_nanos(unit@) is None,
            Some(n) => unit_nanos(unit@) == Some(n as int) && 1_000_000 <= n <= 3_600_000_000_000,
        },
{
    if same(unit, "") || same(unit, "s") || same(unit, "sec") || same(unit, "secs") {
        Some(1_000_000_000)
    } else if same(unit, "ms") {
        Some(1_000_000)
    } else if same(unit, "m") || same(unit, "min") || same(unit, "mins") {
        Some(60_000_000_000)
    } else if same(unit, "h") || same(unit, "hr") || same(unit, "hrs") {
        Some(3_600_000_000_000)
    } else {
        None
    }
}

/// A decimal number's sign and digits.
struct Digits {
    negative: bool,
    whole: Vec<char>,
    fraction: Vec<char>,
}

fn read_decimal(s: &[char]) -> (r: Option<Digits>)
    ensures
        match r {
            None => decimal_parts(s@) is None,
            Some(d) => {
                &&& decimal_parts(s@) == Some(
                    Decimal { negative: d.negative, whole: d.whole@, fraction: d.fraction@ },
                )
                &&& forall|k: int| 0 <= k < d.whole@.len() ==> is_digit(#[trigger] d.whole@[k])
                &&& forall|k: int|
                    0 <= k < d.fraction@.len() ==> is_digit(#[trigger] d.fraction@[k])
            },
        },
{
    let negative = s.len() > 0 && s[0] == '-';
    let from: usize = if s.len() > 0 && (s[0] == '-' || s[0] == '+') {
        1
    } else {
        0
    };
    let body = slice_of(s, from, s.len());
    assert(body@ =~= if from == 1 {
        s@.skip(1)
    } else {
        s@
    });
    let n = count_digits(&body);
    let whole = slice_of(&body, 0, n);
    assert(whole@ =~= body@.take(n as int));
    let ghost rest = body@.skip(n as int);
    if n == body.len() {
        if n == 0 {
            return None;
        }
        let fraction: Vec<char> = Vec::new();
        assert(fraction@ =~= Seq::empty());
        return Some(Digits { negative, whole, fraction });
    }
    assert(rest[0] == body@[n as int]);
    if body[n] != '.' {
        return None;
    }
    let fraction = slice_of(&body, n + 1, body.len());
    assert(fraction@ =~= rest.skip(1));
    let m = count_digits(&fraction);
    if m < fraction.len() || (n == 0 && fraction.len() == 0) {
        return None;
    }
    Some(Digits { negative, whole, fraction })
}

proof fn lemma_padded_zero(s: Seq<char>, n: nat)
    requires
        all_zero(s),
    ensures
        padded_value(s, n) == 0,
    decreases n,
{
    if n > 0 {
        lemma_padded_zero(s, (n - 1) as nat);
        if n <= s.len() {
            assert(s[n - 1] == '0');
        }
    }
}

fn bad_duration(text: &str, hint: &str) -> (r: String)
    ensures
        r@ == "bad duration \""@ + text@ + hint@,
{
    let mut out = "bad duration \"".to_owned();
    out.push_str(text);
    out.push_str(hint);
    out
}

impl DurationText {
    /// Reads a duration, or says what is wrong with its text.
    pub fn parse(text: &str) -> (r: Result<Self, String>)
        ensures
            match (r, spelled(text@)) {
                (Ok(d), Spelled::Nanos(n)) => d.0 == n,
                (Err(e), Spelled::Error(m)) => e@ == m,
                _ => false,
            },
    {
        let chars = trim_chars(&chars_of(text));
        let text = string_of(&chars);
        let at = split_unit(&chars);
        let number = slice_of(&chars, 0, at);
        let unit = slice_of(&chars, at, chars.len());
        assert(number@ =~= chars@.take(at as int));
        assert(unit@ =~= chars@.skip(at as int));
        let unit = string_of(&trim_chars(&unit));
        match read_decimal(&trim_chars(&number)) {
            None => Err(
                bad_duration(text.as_str(), "\" — try \"30s\", \"2m\", or \"1.5s\""),
            ),
            Some(d) => {
                if d.negative && !(zeros(&d.whole) && zeros(&d.fraction)) {
                    return Err(bad_duration(text.as_str(), "\""));
                }
                match unit_length(unit.as_str()) {
                    None => {
                        let mut e = "bad duration unit \"".to_owned();
                        e.push_str(unit.as_str());
                        e.push_str("\" in \"");
                        e.push_str(text.as_str());
                        e.push_str("\" — use ms, s, m, or h");
                        Err(e)
                    },
                    Some(u) => {
                        let ghost dec = Decimal {
                            negative: d.negative,
                            whole: d.whole@,
                            fraction: d.fraction@,
                        };
                        let f = fraction_value(&d.fraction);
                        proof {
                            lemma_digits_value_bound(d.whole@, 0);
                            assert(d.whole@.take(0) =~= Seq::<char>::empty());
                            assert(f * u < 1_000_000_000_000_000_000 * 3_600_000_000_000)
                                by (nonlinear_arith)
                                requires
                                    0 <= f < 1_000_000_000_000_000_000,
                                    0 < u <= 3_600_000_000_000,
                            ;
                        }
                        let part = (f * u + DECIMAL_SCALE / 2) / DECIMAL_SCALE;
                        match whole_value(&d.whole) {
                            None => {
                                proof {
                                    let w = digits_value(d.whole@);
                                    assert(w * u >= DURATION_END) by (nonlinear_arith)
                                        requires
                                            w >= DURATION_END,
                                            u >= 1,
                                    ;
                                }
                                Err(bad_duration(text.as_str(), "\""))
                            },
                            Some(w) => {
                                if w > DURATION_END / u {
                                    proof {
                                        assert(w * u >= DURATION_END) by (nonlinear_arith)
                                            requires
                                                w > DURATION_END as int / u as int,
                                                u >= 1,
                                        ;
                                    }
                                    return Err(bad_duration(text.as_str(), "\""));
                                }
                                proof {
                                    assert(w * u <= DURATION_END) by (nonlinear_arith)
                                        requires
                                            w <= DURATION_END as int / u as int,
                                            u >= 1,
                                    ;
                                }
                                let total = w * u + part;
                                assert(total == nanos_of(dec, u as int));
                                if total < DURATION_END {
                                    Ok(DurationText(total))
                                } else {
                                    Err(bad_duration(text.as_str(), "\""))
                                }
                            },
                        }
                    },
                }
            },
        }
    }
}

/// A value in the keymap section of the configuration.
#[derive(Debug, Clone)]
pub enum KeymapValue {
    Flag(bool),
    Text(String),
    /// Keystrokes and what they are set to, `None` where that is no text.
    Table(Vec<(String, Option<String>)>),
    Other,
}

/// The text that a keystroke is set to.
pub open spec fn set_to(action: Option<String>) -> Option<Seq<char>> {
    match action {
        None => None,
        Some(a) => Some(a@),
    }
}

/// User keybindings. Written flat, keystroke on the left, action id on the
/// right, with context-scoped subtables:
///
/// ```toml
/// [keymap]
/// "cmd-j" = "pane::split_down"
/// "cmd-d" = ""                   # unbind
/// [keymap.file_tree]
/// "y" = "tree::refresh"
/// ```
///
/// Top-level pairs bind at `Root`. Each table is in the order of its
/// keystrokes, and no keystroke occurs twice in it.
#[derive(Debug, Clone, PartialEq)]
pub struct KeymapConfig {
    /// Start from an empty map instead of merging over the defaults.
    pub replace_defaults: bool,
    pub root: Vec<(String, String)>,
    pub terminal: Vec<(String, String)>,
    /// Copy mode: keys don't reach the shell here, so bare letters are fine.
    pub terminal_vi: Vec<(String, String)>,
    pub file_tree: Vec<(String, String)>,
    pub workspaces: Vec<(String, String)>,
    pub overlay: Vec<(String, String)>,
}

impl Default for KeymapConfig {
    fn default() -> (r: Self)
        ensures
            !r.replace_defaults,
            r.tables() =~= no_bindings(),
    {
        let r = Self {
            replace_defaults: false,
            root: Vec::new(),
            terminal: Vec::new(),
            terminal_vi: Vec::new(),
            file_tree: Vec::new(),
            workspaces: Vec::new(),
            overlay: Vec::new(),
        };
        assert forall|i: int| 0 <= i < 6 implies #[trigger] r.tables()[i] == no_bindings()[i] by {
            assert(r.tables()[i] =~= no_bindings()[i]);
        }
        r
    }
}

/// Keystrokes and the action ids that they are bound to.
pub type Bindings = Seq<(Seq<char>, Seq<char>)>;

/// Six tables without a binding.
pub open spec fn no_bindings() -> Seq<Bindings> {
    Seq::new(6, |i: int| Seq::empty())
}

/// The texts of a table.
pub open spec fn pairs(table: Seq<(String, String)>) -> Bindings {
    table.map_values(|p: (String, String)| (p.0@, p.1@))
}

/// The texts of a table as it was read.
pub open spec fn settings(table: Seq<(String, Option<String>)>) -> Seq<
    (Seq<char>, Option<Seq<char>>),
> {
    table.map_values(|p: (String, Option<String>)| (p.0@, set_to(p.1)))
}

/// Whether keystrokes come in order, none of them twice.
pub open spec fn in_key_order(t: Bindings) -> bool {
    forall|i: int, j: int| 0 <= i < j < t.len() ==> sorts_before(#[trigger] t[i].0, #[trigger] t[j].0)
}

/// A table with one more binding, or another one for the same keystrokes.
pub open spec fn bound(t: Bindings, keys: Seq<char>, action: Seq<char>) -> Bindings
    decreases t.len(),
{
    if t.len() == 0 {
        seq![(keys, action)]
    } else if sorts_before(t[0].0, keys) {
        seq![t[0]] + bound(t.skip(1), keys, action)
    } else if t[0].0 == keys {
        seq![(keys, action)] + t.skip(1)
    } else {
        seq![(keys, action)] + t
    }
}

/// Binding keystrokes keeps a table in order, binds them to the new action
/// and leaves every other binding alone.
pub proof fn lemma_bound(t: Bindings, keys: Seq<char>, action: Seq<char>)
    requires
        in_key_order(t),
    ensures
        in_key_order(bound(t, keys, action)),
        bound(t, keys, action).contains((keys, action)),
        forall|k: Seq<char>, a: Seq<char>|
            k != keys ==> (#[trigger] bound(t, keys, action).contains((k, a)) <==> t.contains((k, a))),
        bound(t, keys, action).len() > 0,
        bound(t, keys, action)[0].0 == keys || (t.len() > 0 && bound(t, keys, action)[0] == t[0]),
    decreases t.len(),
{
    let b = bound(t, keys, action);
    if t.len() == 0 {
        assert(b[0] == (keys, action));
        assert forall|k: Seq<char>, a: Seq<char>| k != keys implies (#[trigger] b.contains((k, a))
            <==> t.contains((k, a))) by {
            if b.contains((k, a)) {
                let i = choose|i: int| 0 <= i < b.len() && b[i] == (k, a);
                assert(b[i].0 == keys);
            }
        }
    } else {
        let rest = t.skip(1);
        assert forall|i: int, j: int| 0 <= i < j < rest.len() implies sorts_before(
            #[trigger] rest[i].0,
            #[trigger] rest[j].0,
        ) by {
            assert(rest[i] == t[i + 1] && rest[j] == t[j + 1]);
        }
        assert(t =~= seq![t[0]] + rest);
        if sorts_before(t[0].0, keys) {
            let r = bound(rest, keys, action);
            lemma_bound(rest, keys, action);
            assert(b == seq![t[0]] + r);
            lemma_sort_total(t[0].0, keys);
            if rest.len() > 0 {
                assert(rest[0] == t[1]);
            }
            assert(sorts_before(t[0].0, r[0].0));
            assert forall|i: int, j: int| 0 <= i < j < b.len() implies sorts_before(
                #[trigger] b[i].0,
                #[trigger] b[j].0,
            ) by {
                assert(b[j] == r[j - 1]);
                if i > 0 {
                    assert(b[i] == r[i - 1]);
                } else if j > 1 {
                    assert(sorts_before(r[0].0, r[j - 1].0));
                    lemma_sort_chain(t[0].0, r[0].0, r[j - 1].0);
                }
            }
            let at = choose|i: int| 0 <= i < r.len() && r[i] == (keys, action);
            assert(b[at + 1] == (keys, action));
            assert forall|k: Seq<char>, a: Seq<char>| k != keys implies (#[trigger] b.contains(
                (k, a),
            ) <==> t.contains((k, a))) by {
                assert(r.contains((k, a)) <==> rest.contains((k, a)));
                if b.contains((k, a)) {
                    let i = choose|i: int| 0 <= i < b.len() && b[i] == (k, a);
                    if i == 0 {
                        assert(t[0] == (k, a));
                    } else {
                        assert(r[i - 1] == (k, a));
                        let j = choose|j: int| 0 <= j < rest.len() && rest[j] == (k, a);
                        assert(t[j + 1] == (k, a));
                    }
                }
                if t.contains((k, a)) {
                    let i = choose|i: int| 0 <= i < t.len() && t[i] == (k, a);
                    if i == 0 {
                        assert(b[0] == (k, a));
                    } else {
                        assert(rest[i - 1] == (k, a));
                        let j = choose|j: int| 0 <= j < r.len() && r[j] == (k, a);
                        assert(b[j + 1] == (k, a));
                    }
                }
            }
        } else {
            lemma_sort_total(t[0].0, keys);
            let tail = if t[0].0 == keys {
                rest
            } else {
                t
            };
            assert(b == seq![(keys, action)] + tail);
            assert(b[0] == (keys, action));
            assert forall|i: int, j: int| 0 <= i < j < b.len() implies sorts_before(
                #[trigger] b[i].0,
                #[trigger] b[j].0,
            ) by {
                assert(b[j] == tail[j - 1]);
                if i > 0 {
                    assert(b[i] == tail[i - 1]);
                } else if t[0].0 == keys {
                    assert(tail[j - 1] == t[j]);
                    assert(sorts_before(t[0].0, t[j].0));
                } else if j > 1 {
                    assert(sorts_before(t[0].0, t[j - 1].0));
                    lemma_sort_chain(keys, t[0].0, t[j - 1].0);
                }
            }
            assert forall|k: Seq<char>, a: Seq<char>| k != keys implies (#[trigger] b.contains(
                (k, a),
            ) <==> t.contains((k, a))) by {
                if b.contains((k, a)) {
                    let i = choose|i: int| 0 <= i < b.len() && b[i] == (k, a);
                    assert(tail[i - 1] == (k, a));
                    if t[0].0 == keys {
                        assert(t[i] == (k, a));
                    }
                }
                if t.contains((k, a)) {
                    let i = choose|i: int| 0 <= i < t.len() && t[i] == (k, a);
                    if t[0].0 == keys {
                        assert(b[i] == (k, a));
                    } else {
                        assert(b[i + 1] == (k, a));
                    }
                }
            }
        }
    }
}

/// A table with the settings of another one added in order, or the first
/// keystrokes in it that are set to no text.
pub open spec fn filled(t: Bindings, lines: Seq<(Seq<char>, Option<Seq<char>>)>) -> Result<
    Bindings,
    Seq<char>,
>
    decreases lines.len(),
{
    if lines.len() == 0 {
        Ok(t)
    } else {
        match filled(t, lines.drop_last()) {
            Err(keys) => Err(keys),
            Ok(u) => match lines.last().1 {
                None => Err(lines.last().0),
                Some(action) => Ok(bound(u, lines.last().0, action)),
            },
        }
    }
}

/// Which of the six tables a context's name stands for.
pub open spec fn context_index(name: Seq<char>) -> Option<int> {
    if name == "root"@ {
        Some(0)
    } else if name == "terminal"@ {
        Some(1)
    } else if name == "terminal_vi"@ {
        Some(2)
    } else if name == "file_tree"@ {
        Some(3)
    } else if name == "workspaces"@ {
        Some(4)
    } else if name == "overlay"@ {
        Some(5)
    } else {
        None
    }
}

/// What has been read of the keymap section.
pub ghost struct KeymapRead {
    pub replace_defaults: bool,
    pub tables: Seq<Bindings>,
}

/// What is said of keystrokes that are not set to a text.
pub open spec fn no_action_text(place: Seq<char>) -> Seq<char> {
    place + "\" must be an action id string (use \"\" to unbind)"@
}

/// What one entry of the keymap section adds.
pub open spec fn keymap_entry(g: KeymapRead, key: Seq<char>, value: KeymapValue) -> Result<
    KeymapRead,
    Seq<char>,
> {
    if key == "replace_defaults"@ {
        match value {
            KeymapValue::Flag(b) => Ok(KeymapRead { replace_defaults: b, tables: g.tables }),
            _ => Err("keymap.replace_defaults must be true or false"@),
        }
    } else {
        match value {
            KeymapValue::Table(lines) => match context_index(key) {
                None => Err(
                    "unknown keymap context [keymap."@ + key
                        + "] — expected one of root, terminal, terminal_vi, file_tree, workspaces, overlay"@,
                ),
                Some(i) => match filled(g.tables[i], settings(lines@)) {
                    Err(keys) => Err(no_action_text("keymap."@ + key + ".\""@ + keys)),
                    Ok(t) => Ok(
                        KeymapRead {
                            replace_defaults: g.replace_defaults,
                            tables: g.tables.update(i, t),
                        },
                    ),
                },
            },
            KeymapValue::Text(action) => Ok(
                KeymapRead {
                    replace_defaults: g.replace_defaults,
                    tables: g.tables.update(0, bound(g.tables[0], key, action@)),
                },
            ),
            _ => Err(no_action_text("keymap.\""@ + key)),
        }
    }
}

/// What the keymap section says, entry by entry; the first bad entry ends it.
pub open spec fn keymap_read(raw: Seq<(String, KeymapValue)>) -> Result<KeymapRead, Seq<char>>
    decreases raw.len(),
{
    if raw.len() == 0 {
        Ok(KeymapRead { replace_defaults: false, tables: no_bindings() })
    } else {
        match keymap_read(raw.drop_last()) {
            Err(e) => Err(e),
            Ok(g) => keymap_entry(g, raw.last().0@, raw.last().1),
        }
    }
}

/// A bad entry stays what the whole section says.
proof fn lemma_keymap_error(raw: Seq<(String, KeymapValue)>, n: int)
    requires
        0 <= n <= raw.len(),
        keymap_read(raw.take(n)) is Err,
    ensures
        keymap_read(raw) == keymap_read(raw.take(n)),
    decreases raw.len(),
{
    if n == raw.len() {
        assert(raw.take(n) =~= raw);
    } else {
        assert(raw.drop_last().take(n) =~= raw.take(n));
        lemma_keymap_error(raw.drop_last(), n);
    }
}

proof fn lemma_filled_error(t: Bindings, lines: Seq<(Seq<char>, Option<Seq<char>>)>, n: int)
    requires
        0 <= n <= lines.len(),
        filled(t, lines.take(n)) is Err,
    ensures
        filled(t, lines) == filled(t, lines.take(n)),
    decreases lines.len(),
{
    if n == lines.len() {
        assert(lines.take(n) =~= lines);
    } else {
        assert(lines.drop_last().take(n) =~= lines.take(n));
        lemma_filled_error(t, lines.drop_last(), n);
    }
}

/// Adding settings keeps a table in order.
proof fn lemma_filled_order(t: Bindings, lines: Seq<(Seq<char>, Option<Seq<char>>)>)
    requires
        in_key_order(t),
    ensures
        filled(t, lines) matches Ok(u) ==> in_key_order(u),
    decreases lines.len(),
{
    if lines.len() > 0 {
        lemma_filled_order(t, lines.drop_last());
        if let Ok(u) = filled(t, lines.drop_last()) {
            if let Some(a) = lines.last().1 {
                lemma_bound(u, lines.last().0, a);
            }
        }
    }
}

/// Every table that is read is in the order of its keystrokes, none of which
/// occurs twice.
pub proof fn lemma_keymap_in_order(raw: Seq<(String, KeymapValue)>)
    ensures
        keymap_read(raw) matches Ok(g) ==> g.tables.len() == 6 && forall|i: int|
            0 <= i < 6 ==> in_key_order(#[trigger] g.tables[i]),
    decreases raw.len(),
{
    if raw.len() > 0 {
        lemma_keymap_in_order(raw.drop_last());
        if let Ok(g) = keymap_read(raw.drop_last()) {
            let key = raw.last().0@;
            if let KeymapValue::Table(lines) = raw.last().1 {
                if let Some(i) = context_index(key) {
                    lemma_filled_order(g.tables[i], settings(lines@));
                }
            }
            if let KeymapValue::Text(action) = raw.last().1 {
                lemma_bound(g.tables[0], key, action@);
            }
        }
    }
}

fn bind(table: &mut Vec<(String, String)>, keys: String, action: String)
    ensures
        pairs(final(table)@) == bound(pairs(old(table)@), keys@, action@),
{
    let ghost t = pairs(table@);
    let mut i: usize = 0;
    assert(t.skip(0) =~= t);
    assert(t.take(0) =~= Seq::empty());
    assert(Seq::<(Seq<char>, Seq<char>)>::empty() + bound(t, keys@, action@) =~= bound(
        t,
        keys@,
        action@,
    ));
    while i < table.len() && precedes(table[i].0.as_str(), keys.as_str())
        invariant
            i <= table.len(),
            *table == *old(table),
            t == pairs(table@),
            bound(t, keys@, action@) == t.take(i as int) + bound(
                t.skip(i as int),
                keys@,
                action@,
            ),
        decreases table.len() - i,
    {
        proof {
            let rest = t.skip(i as int);
            assert(rest[0] == t[i as int]);
            assert(rest.skip(1) =~= t.skip(i + 1));
            assert(t.take(i as int) + (seq![rest[0]] + bound(rest.skip(1), keys@, action@))
                =~= t.take(i + 1) + bound(t.skip(i + 1), keys@, action@));
        }
        i += 1;
    }
    let ghost rest = t.skip(i as int);
    if i < table.len() && same(table[i].0.as_str(), keys.as_str()) {
        assert(rest[0] == t[i as int]);
        let ghost k = keys@;
        let ghost a = action@;
        table.set(i, (keys, action));
        assert(pairs(table@) =~= t.take(i as int) + (seq![(k, a)] + rest.skip(1)));
    } else {
        proof {
            if i < table.len() {
                assert(rest[0] == t[i as int]);
            }
        }
        let ghost k = keys@;
        let ghost a = action@;
        table.insert(i, (keys, action));
        assert(pairs(table@) =~= t.take(i as int) + (seq![(k, a)] + rest));
        assert(rest.len() == 0 ==> seq![(k, a)] + rest =~= seq![(k, a)]);
    }
}

fn context_number(name: &str) -> (r: Option<usize>)
    ensures
        match r {
            None => context_index(name@) is None,
            Some(i) => context_index(name@) == Some(i as int) && i < 6,
        },
{
    if same(name, "root") {
        Some(0)
    } else if same(name, "terminal") {
        Some(1)
    } else if same(name, "terminal_vi") {
        Some(2)
    } else if same(name, "file_tree") {
        Some(3)
    } else if same(name, "workspaces") {
        Some(4)
    } else if same(name, "overlay") {
        Some(5)
    } else {
        None
    }
}

/// The texts of several tables.
pub open spec fn table_pairs(tables: Seq<Vec<(String, String)>>) -> Seq<Bindings> {
    tables.map_values(|t: Vec<(String, String)>| pairs(t@))
}

fn no_action(place: String) -> (r: String)
    ensures
        r@ == no_action_text(place@),
{
    let mut out = place;
    out.push_str("\" must be an action id string (use \"\" to unbind)");
    out
}

impl KeymapConfig {
    /// The tables in the order root, terminal, terminal_vi, file_tree,
    /// workspaces, overlay.
    pub open spec fn tables(&self) -> Seq<Bindings> {
        seq![
            pairs(self.root@),
            pairs(self.terminal@),
            pairs(self.terminal_vi@),
            pairs(self.file_tree@),
            pairs(self.workspaces@),
            pairs(self.overlay@),
        ]
    }

    /// Whether every table is in the order of its keystrokes, none of which
    /// occurs twice.
    pub open spec fn wf(&self) -> bool {
        forall|i: int| 0 <= i < 6 ==> in_key_order(#[trigger] self.tables()[i])
    }

    /// Reads the keymap section: its keys and values, in the order of the
    /// keys. A misspelt context name is an error rather than a silent no-op.
    pub fn try_from(raw: Vec<(String, KeymapValue)>) -> (r: Result<Self, String>)
        ensures
            match (r, keymap_read(raw@)) {
                (Ok(c), Ok(g)) => c.replace_defaults == g.replace_defaults && c.tables()
                    == g.tables && c.wf(),
                (Err(e), Err(m)) => e@ == m,
                _ => false,
            },
    {
        let mut replace_defaults = false;
        let mut tables: Vec<Vec<(String, String)>> = Vec::new();
        let mut n: usize = 0;
        while n < 6
            invariant
                n == tables.len() <= 6,
                forall|i: int| 0 <= i < n ==> (#[trigger] tables@[i])@.len() == 0,
            decreases 6 - n,
        {
            tables.push(Vec::new());
            n += 1;
        }
        proof {
            assert forall|i: int| 0 <= i < 6 implies #[trigger] table_pairs(tables@)[i]
                == no_bindings()[i] by {
                assert(tables@[i]@.len() == 0);
                assert(table_pairs(tables@)[i] =~= no_bindings()[i]);
            }
            assert(table_pairs(tables@) =~= no_bindings());
            assert(raw@.take(0) =~= Seq::empty());
        }
        let mut k: usize = 0;
        while k < raw.len()
            invariant
                k <= raw.len(),
                tables.len() == 6,
                keymap_read(raw@.take(k as int)) == Ok::<KeymapRead, Seq<char>>(
                    KeymapRead { replace_defaults, tables: table_pairs(tables@) },
                ),
            decreases raw.len() - k,
        {
            let ghost before = table_pairs(tables@);
            let ghost g = KeymapRead { replace_defaults, tables: before };
            proof {
                let upto = raw@.take(k + 1);
                assert(upto.drop_last() =~= raw@.take(k as int));
                assert(upto.last() == raw@[k as int]);
                assert(keymap_read(upto) == keymap_entry(g, raw@[k as int].0@, raw@[k as int].1));
                if keymap_read(upto) is Err {
                    lemma_keymap_error(raw@, k + 1);
                }
            }
            let key = raw[k].0.as_str();
            if same(key, "replace_defaults") {
                match &raw[k].1 {
                    KeymapValue::Flag(b) => {
                        replace_defaults = *b;
                    },
                    _ => {
                        return Err("keymap.replace_defaults must be true or false".to_owned());
                    },
                }
            } else {
                match &raw[k].1 {
                    KeymapValue::Table(lines) => match context_number(key) {
                        None => {
                            let mut e = "unknown keymap context [keymap.".to_owned();
                            e.push_str(key);
                            e.push_str(
                                "] — expected one of root, terminal, terminal_vi, file_tree, workspaces, overlay",
                            );
                            return Err(e);
                        },
                        Some(i) => {
                            let mut table: Vec<(String, String)> = Vec::new();
                            std::mem::swap(&mut table, &mut tables[i]);
                            assert(pairs(table@) == before[i as int]);
                            let done = fill(&mut table, lines);
                            match done {
                                Err(keys) => {
                                    let mut place = "keymap.".to_owned();
                                    place.push_str(key);
                                    place.push_str(".\"");
                                    place.push_str(keys.as_str());
                                    return Err(no_action(place));
                                },
                                Ok(_) => {
                                    let ghost t = pairs(table@);
                                    tables.set(i, table);
                                    assert(table_pairs(tables@) =~= before.update(i as int, t));
                                },
                            }
                        },
                    },
                    KeymapValue::Text(action) => {
                        let mut table: Vec<(String, String)> = Vec::new();
                        std::mem::swap(&mut table, &mut tables[0]);
                        assert(pairs(table@) == before[0]);
                        bind(&mut table, raw[k].0.clone(), action.clone());
                        let ghost t = pairs(table@);
                        tables.set(0, table);
                        assert(table_pairs(tables@) =~= before.update(0, t));
                    },
                    _ => {
                        let mut place = "keymap.\"".to_owned();
                        place.push_str(key);
                        return Err(no_action(place));
                    },
                }
            }
            k += 1;
        }
        assert(raw@.take(k as int) =~= raw@);
        proof {
            lemma_keymap_in_order(raw@);
        }
        let ghost read = table_pairs(tables@);
        let overlay = tables.remove(5);
        let workspaces = tables.remove(4);
        let file_tree = tables.remove(3);
        let terminal_vi = tables.remove(2);
        let terminal = tables.remove(1);
        let root = tables.remove(0);
        let r = Self {
            replace_defaults,
            root,
            terminal,
            terminal_vi,
            file_tree,
            workspaces,
            overlay,
        };
        assert(r.tables() =~= read);
        Ok(r)
    }
}

fn fill(table: &mut Vec<(String, String)>, lines: &Vec<(String, Option<String>)>) -> (r:
    Result<(), String>)
    ensures
        match (r, filled(pairs(old(table)@), settings(lines@))) {
            (Ok(_), Ok(t)) => pairs(final(table)@) == t,
            (Err(keys), Err(k)) => keys@ == k,
            _ => false,
        },
{
    let ghost t = pairs(table@);
    let ghost all = settings(lines@);
    let mut i: usize = 0;
    assert(all.take(0) =~= Seq::empty());
    while i < lines.len()
        invariant
            i <= lines.len(),
            all == settings(lines@),
            t == pairs(old(table)@),
            filled(t, all.take(i as int)) == Ok::<Bindings, Seq<char>>(pairs(table@)),
        decreases lines.len() - i,
    {
        proof {
            assert(all.take(i + 1).drop_last() =~= all.take(i as int));
            assert(all.take(i + 1).last() == all[i as int]);
        }
        let keys = lines[i].0.clone();
        match &lines[i].1 {
            None => {
                proof {
                    lemma_filled_error(t, all, i + 1);
                }
                return Err(keys);
            },
            Some(action) => {
                bind(table, keys, action.clone());
            },
        }
        i += 1;
    }
    assert(all.take(i as int) =~= all);
    Ok(())
}

/// What the current-tab chip in the status bar shows.
#[derive(Debug, Clone, Copy, PartialEq, Eq, Structural)]
pub enum StatusBarTab {
    /// Its position, `2/5`.
    Number,
    Name,
}

/// The native bar that shows the directory and the state of its repository.
#[derive(Debug, Clone, PartialEq)]
pub struct StatusBarConfig {
    pub enabled: bool,
    pub position: StatusBarPosition,
    /// The current-tab chip beside the workspace.
    pub tab: StatusBarTab,
}

impl Default for StatusBarConfig {
    fn default() -> (r: Self)
        ensures
            r.enabled,
            r.position == StatusBarPosition::Bottom,
            r.tab == StatusBarTab::Number,
    {
        Self { enabled: true, position: StatusBarPosition::Bottom, tab: StatusBarTab::Number }
    }
}

#[derive(Debug, Clone, Copy, PartialEq, Eq, Structural)]
pub enum StatusBarPosition {
    Top,
    Bottom,
}

/// The tab bar.
#[derive(Debug, Clone, Copy, PartialEq, Eq, Structural)]
pub struct TabsConfig {
    pub enabled: bool,
    /// A small position number on each tab.
    pub show_numbers: bool,
}

impl Default for TabsConfig {
    fn default() -> (r: Self)
        ensures
            r.enabled,
            r.show_numbers,
    {
        Self { enabled: true, show_numbers: true }
    }
}

/// The bundled font.
pub const BUNDLED: &'static str = "JetBrainsMono Nerd Font Mono";

/// `family = "X"` or `family = ["X", "Y", "Z"]`. Never empty: an empty list
/// falls back to the bundled font.
#[derive(Debug, PartialEq)]
pub struct FontFamily(Vec<String>);

/// The names among `families` that are not blank.
pub open spec fn named_families(families: Seq<Seq<char>>) -> Seq<Seq<char>>
    decreases families.len(),
{
    if families.len() == 0 {
        Seq::empty()
    } else if trim(families.last()).len() == 0 {
        named_families(families.drop_last())
    } else {
        named_families(families.drop_last()).push(families.last())
    }
}

/// The families that a list stands for.
pub open spec fn chosen_families(families: Seq<Seq<char>>) -> Seq<Seq<char>> {
    if named_families(families).len() == 0 {
        seq!["JetBrainsMono Nerd Font Mono"@]
    } else {
        named_families(families)
    }
}

impl FontFamily {
    /// The families in the order in which they are tried.
    pub closed spec fn families(&self) -> Seq<Seq<char>> {
        views(self.0@)
    }

    /// There is always a font.
    #[verifier::type_invariant]
    closed spec fn has_one(self) -> bool {
        self.0@.len() > 0
    }

    /// The families in `families` that have a name, or the bundled font.
    pub fn new(families: Vec<String>) -> (r: Self)
        ensures
            r.families() == chosen_families(views(families@)),
    {
        let ghost all = views(families@);
        let mut kept: Vec<String> = Vec::new();
        let mut i: usize = 0;
        assert(views(kept@) =~= Seq::empty());
        assert(all.take(0) =~= Seq::empty());
        while i < families.len()
            invariant
                i <= families.len(),
                all == views(families@),
                views(kept@) == named_families(all.take(i as int)),
            decreases families.len() - i,
        {
            assert(all.take(i + 1).drop_last() =~= all.take(i as int));
            assert(all.take(i + 1).last() == families@[i as int]@);
            let ghost before = kept@;
            if trim_chars(&chars_of(families[i].as_str())).len() > 0 {
                kept.push(families[i].clone());
                assert(views(kept@) =~= views(before).push(families@[i as int]@));
            }
            i += 1;
        }
        assert(all.take(i as int) =~= all);
        assert(views(kept@).len() == kept@.len());
        if kept.len() == 0 {
            return Self::default();
        }
        Self(kept)
    }

    /// The font glyphs are shaped in.
    pub fn primary(&self) -> (r: &str)
        ensures
            self.families().len() > 0,
            r@ == self.families()[0],
    {
        proof {
            use_type_invariant(self);
        }
        self.0[0].as_str()
    }

    /// Families consulted, in order, for glyphs the primary lacks.
    pub fn fallbacks(&self) -> (r: &[String])
        ensures
            views(r@) == self.families().skip(1),
    {
        proof {
            use_type_invariant(self);
        }
        let r = vstd::slice::slice_subrange(self.0.as_slice(), 1, self.0.len());
        assert(views(r@) =~= self.families().skip(1));
        r
    }
}

impl Clone for FontFamily {
    fn clone(&self) -> (r: Self)
        ensures
            r.families() == self.families(),
    {
        proof {
            use_type_invariant(self);
        }
        let mut families: Vec<String> = Vec::new();
        let mut i: usize = 0;
        while i < self.0.len()
            invariant
                i == families.len() <= self.0.len(),
                forall|k: int| 0 <= k < i ==> #[trigger] families@[k]@ == self.0@[k]@,
            decreases self.0.len() - i,
        {
            families.push(self.0[i].clone());
            i += 1;
        }
        assert(views(families@) =~= views(self.0@));
        Self(families)
    }
}

impl Default for FontFamily {
    fn default() -> (r: Self)
        ensures
            r.families() == seq!["JetBrainsMono Nerd Font Mono"@],
    {
        let mut families: Vec<String> = Vec::new();
        families.push("JetBrainsMono Nerd Font Mono".to_owned());
        let r = Self(families);
        assert(r.families() =~= seq!["JetBrainsMono Nerd Font Mono"@]);
        r
    }
}

#[derive(Debug, Clone, Copy, PartialEq, Eq, Hash, Structural)]
pub enum FontWeightName {
    Normal,
    Medium,
    Bold,
}

/// Where a new tab or window starts.
#[derive(Debug, Clone, Copy, PartialEq, Eq, Structural)]
pub enum NewTabDirectory {
    /// Inherit the current tab's working directory.
    Pwd,
    /// Always start at ~/.
    Home,
}

#[derive(Debug, Clone, Copy, PartialEq, Eq, Structural)]
pub enum TitlebarMode {
    Native,
    Hidden,
}

/// The shell of new panes.
#[derive(Debug, Clone, PartialEq)]
pub struct ShellConfig {
    /// Default: $SHELL, then /bin/zsh.
    pub program: Option<String>,
    pub args: Vec<String>,
    pub scrollback: usize,
    pub option_as_meta: OptionAsMeta,
    /// Install the shell-integration hooks (OSC 133 markers and the silent-cd
    /// widget). Independent of prompt styling: keep your own prompt and still
    /// get integration.
    pub integration: bool,
}

impl Default for ShellConfig {
    fn default() -> (r: Self)
        ensures
            r.program is None,
            views(r.args@) =~= seq!["-l"@],
            r.scrollback == 10_000,
            r.option_as_meta == OptionAsMeta::Neither,
            r.integration,
    {
        let mut args: Vec<String> = Vec::new();
        args.push("-l".to_owned());
        Self {
            program: None,
            args,
            scrollback: 10_000,
            option_as_meta: OptionAsMeta::Neither,
            integration: true,
        }
    }
}

/// Which Option key acts as Meta.
#[derive(Debug, Clone, Copy, PartialEq, Eq, Structural)]
pub enum OptionAsMeta {
    /// Written `none` in the configuration.
    Neither,
    Left,
    Right,
    Both,
}

/// A named preset supplies every color; explicit fields override individually.
///
/// With `follow_system = true`, `preset_dark` / `preset_light` are chosen by
/// the system appearance (each falling back to `preset`), and the explicit
/// overrides apply on top of whichever is active.
#[derive(Debug, Clone, PartialEq, Default)]
pub struct ColorsConfig {
    pub preset: Option<String>,
    pub preset_dark: Option<String>,
    pub preset_light: Option<String>,
    pub follow_system: bool,
    pub background: Option<String>,
    pub foreground: Option<String>,
    pub cursor: Option<String>,
    pub selection_bg: Option<String>,
    /// Text colour inside a selection; unset keeps each cell's own colour.
    pub selection_fg: Option<String>,
    pub black: Option<String>,
    pub red: Option<String>,
    pub green: Option<String>,
    pub yellow: Option<String>,
    pub blue: Option<String>,
    pub magenta: Option<String>,
    pub cyan: Option<String>,
    pub white: Option<String>,
    pub bright_black: Option<String>,
    pub bright_red: Option<String>,
    pub bright_green: Option<String>,
    pub bright_yellow: Option<String>,
    pub bright_blue: Option<String>,
    pub bright_magenta: Option<String>,
    pub bright_cyan: Option<String>,
    pub bright_white: Option<String>,
}

/// The prompt that the shell draws: segments between separators.
#[derive(Debug, Clone, PartialEq)]
pub struct PromptConfig {
    pub enabled: bool,
    pub separator: String,
    pub end: String,
    pub newline_before_input: bool,
    pub segments: Vec<SegmentConfig>,
}

impl Default for PromptConfig {
    fn default() -> (r: Self)
        ensures
            r.enabled,
            r.separator@ == "\u{e0b0}"@,
            r.end@ == "\u{e0b0}"@,
            !r.newline_before_input,
            r.segments@.len() == 3,
            r.segments@[0].kind == SegmentKind::Cwd,
            maybe(r.segments@[0].fg) == Some("#11111b"@),
            maybe(r.segments@[0].bg) == Some("#89b4fa"@),
            r.segments@[0].bold,
            r.segments@[0].options == (SegmentOptions {
                style: Some(CwdStyle::TruncateToRepo),
                max_len: Some(40),
                ..no_options()
            }),
            r.segments@[1].kind == SegmentKind::Git,
            maybe(r.segments@[1].fg) == Some("#11111b"@),
            maybe(r.segments@[1].bg) == Some("#a6e3a1"@),
            !r.segments@[1].bold,
            maybe(r.segments@[1].options.dirty_bg) == Some("#f9e2af"@),
            r.segments@[1].options == (SegmentOptions {
                show_dirty: Some(true),
                dirty_bg: r.segments@[1].options.dirty_bg,
                ahead_behind: Some(true),
                ..no_options()
            }),
            r.segments@[2].kind == SegmentKind::ExitStatus,
            maybe(r.segments@[2].fg) == Some("#11111b"@),
            maybe(r.segments@[2].bg) == Some("#f38ba8"@),
            !r.segments@[2].bold,
            r.segments@[2].options == (SegmentOptions {
                hide_on_success: Some(true),
                ..no_options()
            }),
    {
        let mut segments: Vec<SegmentConfig> = Vec::new();
        let mut cwd = SegmentOptions::default();
        cwd.style = Some(CwdStyle::TruncateToRepo);
        cwd.max_len = Some(40);
        segments.push(
            SegmentConfig {
                kind: SegmentKind::Cwd,
                fg: Some("#11111b".to_owned()),
                bg: Some("#89b4fa".to_owned()),
                bold: true,
                options: cwd,
            },
        );
        let mut git = SegmentOptions::default();
        git.show_dirty = Some(true);
        git.dirty_bg = Some("#f9e2af".to_owned());
        git.ahead_behind = Some(true);
        segments.push(
            SegmentConfig {
                kind: SegmentKind::Git,
                fg: Some("#11111b".to_owned()),
                bg: Some("#a6e3a1".to_owned()),
                bold: false,
                options: git,
            },
        );
        let mut exit = SegmentOptions::default();
        exit.hide_on_success = Some(true);
        segments.push(
            SegmentConfig {
                kind: SegmentKind::ExitStatus,
                fg: Some("#11111b".to_owned()),
                bg: Some("#f38ba8".to_owned()),
                bold: false,
                options: exit,
            },
        );
        Self {
            enabled: true,
            separator: "\u{e0b0}".to_owned(),
            end: "\u{e0b0}".to_owned(),
            newline_before_input: false,
            segments,
        }
    }
}

/// One piece of the prompt.
#[derive(Debug, Clone, PartialEq)]
pub struct SegmentConfig {
    pub kind: SegmentKind,
    pub fg: Option<String>,
    pub bg: Option<String>,
    pub bold: bool,
    pub options: SegmentOptions,
}

impl Default for SegmentConfig {
    fn default() -> (r: Self)
        ensures
            r == (SegmentConfig {
                kind: SegmentKind::Text,
                fg: None,
                bg: None,
                bold: false,
                options: no_options(),
            }),
    {
        Self {
            kind: SegmentKind::Text,
            fg: None,
            bg: None,
            bold: false,
            options: SegmentOptions::default(),
        }
    }
}

#[derive(Debug, Clone, Copy, PartialEq, Eq, Structural)]
pub enum SegmentKind {
    Cwd,
    Git,
    ExitStatus,
    Time,
    User,
    Host,
    Duration,
    Text,
    Env,
}

/// What a segment's kind lets you choose.
#[derive(Debug, Clone, PartialEq)]
pub struct SegmentOptions {
    // cwd
    pub style: Option<CwdStyle>,
    pub max_len: Option<usize>,
    // git
    pub show_dirty: Option<bool>,
    pub dirty_bg: Option<String>,
    pub ahead_behind: Option<bool>,
    // exit_status
    pub hide_on_success: Option<bool>,
    // time
    pub format: Option<String>,
    // text
    pub text: Option<String>,
    // env
    pub var: Option<String>,
}

/// Options with nothing chosen.
pub open spec fn no_options() -> SegmentOptions {
    SegmentOptions {
        style: None,
        max_len: None,
        show_dirty: None,
        dirty_bg: None,
        ahead_behind: None,
        hide_on_success: None,
        format: None,
        text: None,
        var: None,
    }
}

impl Default for SegmentOptions {
    fn default() -> (r: Self)
        ensures
            r == no_options(),
    {
        Self {
            style: None,
            max_len: None,
            show_dirty: None,
            dirty_bg: None,
            ahead_behind: None,
            hide_on_success: None,
            format: None,
            text: None,
            var: None,
        }
    }
}

#[derive(Debug, Clone, Copy, PartialEq, Eq, Structural)]
pub enum CwdStyle {
    Full,
    TruncateToRepo,
    Basename,
}

/// What the terminal's bell does.
#[derive(Debug, Clone, Copy, PartialEq, Eq, Structural)]
pub enum BellMode {
    /// Written `none` in the configuration.
    Silent,
    Sound,
    Visual,
}

impl Default for BellMode {
    fn default() -> (r: Self)
        ensures
            r == BellMode::Silent,
    {
        BellMode::Silent
    }
}

// --- What the settings mean ---

/// Whether a pattern has no wildcard in it.
pub open spec fn literal(p: Seq<char>) -> bool {
    forall|i: int| 0 <= i < p.len() ==> #[trigger] p[i] != '*' && p[i] != '?'
}

/// A pattern without wildcards fits itself and nothing else.
pub proof fn lemma_literal_patterns(p: Seq<char>, t: Seq<char>)
    requires
        literal(p),
    ensures
        fits(p, t) <==> p == t,
    decreases p.len(),
{
    if p.len() == 0 {
        if t.len() == 0 {
            assert(p =~= t);
        }
    } else {
        if t.len() > 0 {
            lemma_literal_patterns(p.skip(1), t.skip(1));
            assert(p =~= seq![p[0]] + p.skip(1));
            assert(t =~= seq![t[0]] + t.skip(1));
        }
    }
}

/// A star stands for whatever is there, and for nothing; a question mark for
/// one character, whichever it is.
pub proof fn lemma_wildcards(p: Seq<char>, a: Seq<char>, c: char, t: Seq<char>)
    requires
        fits(p, t),
    ensures
        fits(seq!['*'] + p, a + t),
        fits(seq!['?'] + p, seq![c] + t),
        !fits(seq!['?'], Seq::empty()),
    decreases a.len(),
{
    let s = seq!['*'] + p;
    assert(s[0] == '*');
    assert(s.skip(1) =~= p);
    if a.len() == 0 {
        assert(a + t =~= t);
    } else {
        lemma_wildcards(p, a.skip(1), c, t);
        assert((a + t).skip(1) =~= a.skip(1) + t);
    }
    let q = seq!['?'] + p;
    assert(q[0] == '?');
    assert(q.skip(1) =~= p);
    assert((seq![c] + t).skip(1) =~= t);
}

/// Hosts are matched without regard to capitals.
pub proof fn lemma_hosts_have_no_case(p: Seq<char>, t: Seq<char>)
    ensures
        globs(ascii_lowered(p), t) == globs(p, t),
        globs(p, ascii_lowered(t)) == globs(p, t),
{
    assert(ascii_lowered(ascii_lowered(p)) =~= ascii_lowered(p));
    assert(ascii_lowered(ascii_lowered(t)) =~= ascii_lowered(t));
}

/// A host has the accent of the first pattern that fits it, and none where
/// no pattern does.
pub proof fn lemma_first_accent(hosts: Seq<SshHost>, host: Seq<char>) -> (i: int)
    ensures
        match accent(hosts, host) {
            None => forall|k: int| 0 <= k < hosts.len() ==> !globs((#[trigger] hosts[k]).pattern@, host),
            Some(a) => 0 <= i < hosts.len() && hosts[i].accent@ == a && globs(hosts[i].pattern@, host)
                && forall|k: int| 0 <= k < i ==> !globs((#[trigger] hosts[k]).pattern@, host),
        },
    decreases hosts.len(),
{
    if hosts.len() == 0 || globs(hosts[0].pattern@, host) {
        0
    } else {
        let r = hosts.skip(1);
        let i = lemma_first_accent(r, host) + 1;
        assert forall|k: int|
            0 <= k < hosts.len() && (accent(hosts, host) is None || k < i) implies !globs(
            (#[trigger] hosts[k]).pattern@,
            host,
        ) by {
            if k > 0 {
                assert(r[k - 1] == hosts[k]);
            }
        }
        i
    }
}

proof fn lemma_units()
    ensures
        unit_nanos(""@) == Some(1_000_000_000int),
        unit_nanos("s"@) == Some(1_000_000_000int),
        unit_nanos("sec"@) == Some(1_000_000_000int),
        unit_nanos("secs"@) == Some(1_000_000_000int),
        unit_nanos("ms"@) == Some(1_000_000int),
        unit_nanos("m"@) == Some(60_000_000_000int),
        unit_nanos("min"@) == Some(60_000_000_000int),
        unit_nanos("mins"@) == Some(60_000_000_000int),
        unit_nanos("h"@) == Some(3_600_000_000_000int),
        unit_nanos("hr"@) == Some(3_600_000_000_000int),
        unit_nanos("hrs"@) == Some(3_600_000_000_000int),
        ""@ =~= Seq::<char>::empty(),
        "s"@.len() == 1 && "s"@ =~= seq!['s'],
        "sec"@.len() == 3 && "sec"@ =~= seq!['s', 'e', 'c'],
        "secs"@.len() == 4 && "secs"@ =~= seq!['s', 'e', 'c', 's'],
        "ms"@.len() == 2 && "ms"@ =~= seq!['m', 's'],
        "m"@.len() == 1 && "m"@ =~= seq!['m'],
        "min"@.len() == 3 && "min"@ =~= seq!['m', 'i', 'n'],
        "mins"@.len() == 4 && "mins"@ =~= seq!['m', 'i', 'n', 's'],
        "h"@.len() == 1 && "h"@ =~= seq!['h'],
        "hr"@.len() == 2 && "hr"@ =~= seq!['h', 'r'],
        "hrs"@.len() == 3 && "hrs"@ =~= seq!['h', 'r', 's'],
{
    reveal_strlit("");
    reveal_strlit("s");
    reveal_strlit("sec");
    reveal_strlit("secs");
    reveal_strlit("ms");
    reveal_strlit("m");
    reveal_strlit("min");
    reveal_strlit("mins");
    reveal_strlit("h");
    reveal_strlit("hr");
    reveal_strlit("hrs");
    assert(""@.len() == 0 && "s"@.len() == 1 && "m"@.len() == 1 && "h"@.len() == 1);
    assert("ms"@.len() == 2 && "hr"@.len() == 2 && "sec"@.len() == 3 && "secs"@.len() == 4);
    assert("s"@[0] == 's' && "m"@[0] == 'm' && "h"@[0] == 'h');
    assert("ms"@[0] == 'm' && "hr"@[0] == 'h' && "sec"@[0] == 's' && "min"@[0] == 'm');
    assert("hrs"@[0] == 'h' && "secs"@[0] == 's' && "mins"@[0] == 'm');
}

proof fn lemma_unit_found(d: Seq<char>, u: Seq<char>)
    requires
        forall|i: int| 0 <= i < d.len() ==> !ascii_letter(#[trigger] d[i]),
        u.len() == 0 || ascii_letter(u[0]),
    ensures
        unit_at(d + u) == d.len(),
    decreases d.len(),
{
    let s = d + u;
    if d.len() > 0 {
        assert(s[0] == d[0]);
        assert(s.skip(1) =~= d.skip(1) + u);
        lemma_unit_found(d.skip(1), u);
    } else {
        assert(s =~= u);
    }
}

proof fn lemma_digit_run(d: Seq<char>, rest: Seq<char>)
    requires
        forall|i: int| 0 <= i < d.len() ==> is_digit(#[trigger] d[i]),
        rest.len() == 0 || !is_digit(rest[0]),
    ensures
        digit_run(d + rest) == d.len(),
    decreases d.len(),
{
    let s = d + rest;
    if d.len() > 0 {
        assert(s[0] == d[0]);
        assert(s.skip(1) =~= d.skip(1) + rest);
        lemma_digit_run(d.skip(1), rest);
    } else {
        assert(s =~= rest);
    }
}

proof fn lemma_padded_none(n: nat)
    ensures
        padded_value(Seq::empty(), n) == 0,
    decreases n,
{
    if n > 0 {
        lemma_padded_none((n - 1) as nat);
    }
}

proof fn lemma_whole_units(n: nat, u: Seq<char>, nanos: int)
    requires
        unit_nanos(u) == Some(nanos),
        nanos > 0,
        u.len() == 0 || ascii_letter(u[0]) && ascii_letter(u.last()),
        n * nanos < DURATION_END,
    ensures
        spelled(decimal(n) + u) == Spelled::Nanos(n * nanos),
{
    let d = decimal(n);
    let s = d + u;
    lemma_decimal_reads_back(n);
    assert(is_digit(d[0]) && is_digit(d[d.len() - 1]));
    assert(s[0] == d[0]);
    if u.len() > 0 {
        assert(s.last() == u.last());
    } else {
        assert(s =~= d);
        assert(s.last() == d[d.len() - 1]);
    }
    lemma_trim_tight(s);
    lemma_unit_found(d, u);
    let at = d.len() as int;
    assert(s.take(at) =~= d);
    assert(s.skip(at) =~= u);
    lemma_trim_tight(d);
    lemma_trim_tight(u);
    let none = Seq::<char>::empty();
    lemma_digit_run(d, none);
    assert(d + none =~= d);
    assert(d.take(at) =~= d);
    assert(d.skip(at) =~= none);
    let parts = Decimal { negative: false, whole: d, fraction: none };
    assert(decimal_parts(d) == Some(parts));
    lemma_padded_none(DECIMALS as nat);
    assert(0 * nanos == 0);
    assert(nanos_of(parts, nanos) == n * nanos);
}

/// A number and a unit are that many of the unit: seconds, which a bare
/// number counts too, milliseconds, minutes or hours.
pub proof fn lemma_durations(n: nat)
    requires
        n * 3_600_000_000_000 < DURATION_END,
    ensures
        spelled(decimal(n) + ""@) == Spelled::Nanos(n as int * 1_000_000_000),
        spelled(decimal(n) + "s"@) == Spelled::Nanos(n as int * 1_000_000_000),
        spelled(decimal(n) + "sec"@) == Spelled::Nanos(n as int * 1_000_000_000),
        spelled(decimal(n) + "secs"@) == Spelled::Nanos(n as int * 1_000_000_000),
        spelled(decimal(n) + "ms"@) == Spelled::Nanos(n as int * 1_000_000),
        spelled(decimal(n) + "m"@) == Spelled::Nanos(n as int * 60_000_000_000),
        spelled(decimal(n) + "min"@) == Spelled::Nanos(n as int * 60_000_000_000),
        spelled(decimal(n) + "mins"@) == Spelled::Nanos(n as int * 60_000_000_000),
        spelled(decimal(n) + "h"@) == Spelled::Nanos(n as int * 3_600_000_000_000),
        spelled(decimal(n) + "hr"@) == Spelled::Nanos(n as int * 3_600_000_000_000),
        spelled(decimal(n) + "hrs"@) == Spelled::Nanos(n as int * 3_600_000_000_000),
{
    lemma_units();
    lemma_whole_units(n, ""@, 1_000_000_000);
    lemma_whole_units(n, "s"@, 1_000_000_000);
    lemma_whole_units(n, "sec"@, 1_000_000_000);
    lemma_whole_units(n, "secs"@, 1_000_000_000);
    lemma_whole_units(n, "ms"@, 1_000_000);
    lemma_whole_units(n, "m"@, 60_000_000_000);
    lemma_whole_units(n, "min"@, 60_000_000_000);
    lemma_whole_units(n, "mins"@, 60_000_000_000);
    lemma_whole_units(n, "h"@, 3_600_000_000_000);
    lemma_whole_units(n, "hr"@, 3_600_000_000_000);
    lemma_whole_units(n, "hrs"@, 3_600_000_000_000);
}

/// A binding at the top of the section is one of the window, and a table's
/// bindings are those of the context it is named after; nothing else
/// changes.
pub proof fn lemma_where_bindings_go(g: KeymapRead, keys: Seq<char>, action: String)
    requires
        keys != "replace_defaults"@,
        g.tables.len() == 6,
    ensures
        keymap_entry(g, keys, KeymapValue::Text(action)) == Ok::<KeymapRead, Seq<char>>(
            KeymapRead {
                replace_defaults: g.replace_defaults,
                tables: g.tables.update(0, bound(g.tables[0], keys, action@)),
            },
        ),
        context_index("root"@) == Some(0int),
        context_index("terminal"@) == Some(1int),
        context_index("terminal_vi"@) == Some(2int),
        context_index("file_tree"@) == Some(3int),
        context_index("workspaces"@) == Some(4int),
        context_index("overlay"@) == Some(5int),
{
    reveal_strlit("root");
    reveal_strlit("terminal");
    reveal_strlit("terminal_vi");
    reveal_strlit("file_tree");
    reveal_strlit("workspaces");
    reveal_strlit("overlay");
    assert("root"@.len() == 4 && "terminal"@.len() == 8 && "terminal_vi"@.len() == 11);
    assert("file_tree"@.len() == 9 && "workspaces"@.len() == 10 && "overlay"@.len() == 7);
}

} // verus!
