//! Workspace startup commands: what a restored pane runs, what happens when
//! it exits, and the restart gate that keeps a crash-looping command from
//! spinning.
//!
//! Times are nanoseconds since some fixed moment.
use vstd::prelude::*;

use crate::text::{decimal, push_decimal};

verus! {

/// What to do when a startup command exits.
#[derive(Debug, Clone, Copy, PartialEq, Eq, Structural)]
pub enum OnExit {
    /// Drop back to the shell prompt. Almost always what you want.
    Shell,
    /// Close the pane, on a clean exit. A failure stays readable.
    Close,
    /// Run it again, with backoff; see `RestartGate`.
    Restart,
}

impl Default for OnExit {
    fn default() -> (r: Self)
        ensures
            r == OnExit::Shell,
    {
        OnExit::Shell
    }
}

impl OnExit {
    /// The choice's name.
    pub open spec fn name(self) -> Seq<char> {
        match self {
            OnExit::Shell => "shell"@,
            OnExit::Close => "close"@,
            OnExit::Restart => "restart"@,
        }
    }

    /// The choice after this one.
    pub open spec fn following(self) -> OnExit {
        match self {
            OnExit::Shell => OnExit::Close,
            OnExit::Close => OnExit::Restart,
            OnExit::Restart => OnExit::Shell,
        }
    }

    pub fn label(self) -> (r: &'static str)
        ensures
            r@ == self.name(),
    {
        match self {
            OnExit::Shell => "shell",
            OnExit::Close => "close",
            OnExit::Restart => "restart",
        }
    }

    /// The next choice, for a `tab`-to-cycle control.
    pub fn next(self) -> (r: OnExit)
        ensures
            r == self.following(),
    {
        match self {
            OnExit::Shell => OnExit::Close,
            OnExit::Close => OnExit::Restart,
            OnExit::Restart => OnExit::Shell,
        }
    }
}

/// Cycling through the choices comes back to the first after three steps,
/// and to none of the others before.
pub proof fn lemma_choices_cycle(c: OnExit)
    ensures
        c.following() != c,
        c.following().following() != c,
        c.following().following().following() == c,
{
}

/// A pane's startup command as the app holds it: the same fields the saved
/// file carries, minus the directory (the pane already knows that).
#[derive(Debug, Clone, PartialEq, Eq)]
pub struct StartupCommand {
    pub command: String,
    pub on_exit: OnExit,
}

/// How many exits inside `WINDOW` trip the breaker.
pub const MAX_EXITS_PER_WINDOW: usize = 5;

/// The rolling window the breaker counts exits over. A run that lasts at
/// least this long was healthy, and its exit starts a fresh count.
pub const WINDOW: u64 = 60_000_000_000;

/// First restart delay; doubles on every exit inside the window.
pub const BASE_DELAY: u64 = 1_000_000_000;

/// Whether to run a command again.
#[derive(Debug, Clone, Copy, PartialEq, Eq, Structural)]
pub enum RestartDecision {
    /// Run it again after this long.
    After(u64),
    /// Too many exits too fast: stop, and tell the user.
    Stop,
}

/// Backoff plus circuit breaker for `OnExit::Restart`. A command that fails
/// instantly would otherwise be re-run as fast as the event loop allows.
#[derive(Debug)]
pub struct RestartGate {
    /// Exits inside the current window, oldest first.
    exits: Vec<u64>,
    started: Option<u64>,
}

/// What is remembered of past runs.
pub ghost struct Gate {
    pub exits: Seq<u64>,
    pub started: Option<u64>,
}

/// The time from `then` to `now`, none if `then` is the later.
pub open spec fn elapsed(then: u64, now: u64) -> int {
    if now >= then {
        now - then
    } else {
        0
    }
}

/// The moments that lie less than a window back.
pub open spec fn recent(exits: Seq<u64>, now: u64) -> Seq<u64>
    decreases exits.len(),
{
    if exits.len() == 0 {
        Seq::empty()
    } else if elapsed(exits.last(), now) < WINDOW {
        recent(exits.drop_last(), now).push(exits.last())
    } else {
        recent(exits.drop_last(), now)
    }
}

/// Two to the power of `n`.
pub open spec fn doublings(n: nat) -> int
    decreases n,
{
    if n == 0 {
        1
    } else {
        2 * doublings((n - 1) as nat)
    }
}

impl Gate {
    /// Whether the run that is ending was a long one.
    pub open spec fn healthy(self, now: u64) -> bool {
        self.started is Some && elapsed(self.started->0, now) >= WINDOW
    }

    /// The exits that count once the command exits at `now`.
    pub open spec fn counted(self, now: u64) -> Seq<u64> {
        recent(
            if self.healthy(now) {
                Seq::empty()
            } else {
                self.exits
            },
            now,
        ).push(now)
    }

    /// What an exit at `now` leads to.
    pub open spec fn verdict(self, now: u64) -> RestartDecision {
        let n = self.counted(now).len();
        if n >= MAX_EXITS_PER_WINDOW {
            RestartDecision::Stop
        } else {
            RestartDecision::After((BASE_DELAY * doublings((n - 1) as nat)) as u64)
        }
    }

    /// What is remembered after an exit at `now`.
    pub open spec fn exited(self, now: u64) -> Gate {
        Gate { exits: self.counted(now), started: None }
    }

    /// What is remembered after a start at `now`.
    pub open spec fn begun(self, now: u64) -> Gate {
        Gate { exits: self.exits, started: Some(now) }
    }
}

impl View for RestartGate {
    type V = Gate;

    closed spec fn view(&self) -> Gate {
        Gate { exits: self.exits@, started: self.started }
    }
}

impl Default for RestartGate {
    fn default() -> (r: Self)
        ensures
            r@ == (Gate { exits: Seq::empty(), started: None }),
    {
        let r = Self { exits: Vec::new(), started: None };
        assert(r@.exits =~= Seq::empty());
        r
    }
}

impl RestartGate {
    /// The command was started.
    pub fn record_start(&mut self, now: u64)
        ensures
            final(self)@ == old(self)@.begun(now),
    {
        self.started = Some(now);
    }

    /// The command exited. Decide whether, and how soon, to run it again.
    pub fn record_exit(&mut self, now: u64) -> (r: RestartDecision)
        ensures
            r == old(self)@.verdict(now),
            final(self)@ == old(self)@.exited(now),
    {
        // A long healthy run resets the count: this exit is a new episode,
        // not the fifth crash of a loop.
        let healthy = match self.started {
            None => false,
            Some(t) => now.saturating_sub(t) >= WINDOW,
        };
        let mut kept: Vec<u64> = Vec::new();
        let ghost base = if healthy {
            Seq::empty()
        } else {
            self.exits@
        };
        let n: usize = if healthy {
            0
        } else {
            self.exits.len()
        };
        let mut i: usize = 0;
        assert(base.take(0) =~= Seq::empty());
        while i < n
            invariant
                *self == *old(self),
                i <= n,
                n == base.len(),
                n > 0 ==> base == self.exits@,
                kept@ == recent(base.take(i as int), now),
            decreases n - i,
        {
            assert(base.take(i + 1).drop_last() =~= base.take(i as int));
            assert(base.take(i + 1).last() == base[i as int]);
            if now.saturating_sub(self.exits[i]) < WINDOW {
                kept.push(self.exits[i]);
            }
            i += 1;
        }
        assert(base.take(i as int) =~= base);
        kept.push(now);
        let count = kept.len();
        self.exits = kept;
        self.started = None;
        assert(self@.exits == old(self)@.counted(now));
        if count >= MAX_EXITS_PER_WINDOW {
            return RestartDecision::Stop;
        }
        let mut delay: u64 = BASE_DELAY;
        let mut k: usize = 1;
        while k < count
            invariant
                1 <= k <= count < MAX_EXITS_PER_WINDOW,
                delay == BASE_DELAY * doublings((k - 1) as nat),
                k == 1 ==> delay == BASE_DELAY,
                k == 2 ==> delay == 2 * BASE_DELAY,
                k == 3 ==> delay == 4 * BASE_DELAY,
                k == 4 ==> delay == 8 * BASE_DELAY,
            decreases count - k,
        {
            assert(doublings(k as nat) == 2 * doublings((k - 1) as nat));
            delay = delay * 2;
            k += 1;
        }
        RestartDecision::After(delay)
    }

    /// Exits counted so far in the current window.
    pub fn exits_in_window(&self) -> (n: usize)
        ensures
            n == self@.exits.len(),
    {
        self.exits.len()
    }
}

/// After a long run the count starts over: the command is run again after
/// the first delay.
pub proof fn lemma_healthy_run_resets(g: Gate, start: u64, now: u64)
    requires
        elapsed(start, now) >= WINDOW,
    ensures
        g.begun(start).verdict(now) == RestartDecision::After(BASE_DELAY),
        g.begun(start).exited(now).exits == seq![now],
{
    assert(g.begun(start).counted(now) =~= seq![now]);
}

proof fn lemma_recent_bounds(exits: Seq<u64>, now: u64)
    ensures
        recent(exits, now).len() <= exits.len(),
        (forall|i: int| 0 <= i < exits.len() ==> elapsed(#[trigger] exits[i], now) < WINDOW)
            ==> recent(exits, now) == exits,
        (forall|i: int| 0 <= i < exits.len() ==> elapsed(#[trigger] exits[i], now) >= WINDOW)
            ==> recent(exits, now).len() == 0,
        forall|i: int|
            0 <= i < recent(exits, now).len() ==> elapsed(#[trigger] recent(exits, now)[i], now)
                < WINDOW,
    decreases exits.len(),
{
    if exits.len() > 0 {
        let front = exits.drop_last();
        lemma_recent_bounds(front, now);
        if forall|i: int| 0 <= i < exits.len() ==> elapsed(#[trigger] exits[i], now) < WINDOW {
            assert forall|i: int| 0 <= i < front.len() implies elapsed(#[trigger] front[i], now)
                < WINDOW by {
                assert(front[i] == exits[i]);
            }
            assert(elapsed(exits[exits.len() - 1], now) < WINDOW);
            assert(front.push(exits.last()) =~= exits);
        }
        if forall|i: int| 0 <= i < exits.len() ==> elapsed(#[trigger] exits[i], now) >= WINDOW {
            assert forall|i: int| 0 <= i < front.len() implies elapsed(#[trigger] front[i], now)
                >= WINDOW by {
                assert(front[i] == exits[i]);
            }
            assert(elapsed(exits[exits.len() - 1], now) >= WINDOW);
        }
    }
}

/// Exits that all lie within the window add up: each one doubles the delay,
/// and the fifth stops the restarts.
pub proof fn lemma_backoff_doubles(g: Gate, now: u64)
    requires
        !g.healthy(now),
        forall|i: int| 0 <= i < g.exits.len() ==> elapsed(#[trigger] g.exits[i], now) < WINDOW,
    ensures
        g.exited(now).exits == g.exits.push(now),
        g.exits.len() < 4 ==> g.verdict(now) == RestartDecision::After(
            (BASE_DELAY * doublings(g.exits.len())) as u64,
        ),
        g.exits.len() >= 4 ==> g.verdict(now) == RestartDecision::Stop,
{
    lemma_recent_bounds(g.exits, now);
}

/// Exits that have left the window no longer count.
pub proof fn lemma_old_exits_fall_out(g: Gate, now: u64)
    requires
        forall|i: int| 0 <= i < g.exits.len() ==> elapsed(#[trigger] g.exits[i], now) >= WINDOW,
    ensures
        g.verdict(now) == RestartDecision::After(BASE_DELAY),
        g.exited(now).exits == seq![now],
{
    lemma_recent_bounds(g.exits, now);
    assert(g.counted(now) =~= seq![now]);
}

/// Right after an exit, every exit that is counted lies within the window.
pub proof fn lemma_counted_are_recent(g: Gate, now: u64)
    ensures
        forall|i: int|
            0 <= i < g.exited(now).exits.len() ==> elapsed(#[trigger] g.exited(now).exits[i], now)
                < WINDOW,
{
    lemma_recent_bounds(g.exits, now);
    lemma_recent_bounds(Seq::empty(), now);
}

/// The banner shown when the breaker trips.
pub fn breaker_message(exits: usize) -> (r: String)
    ensures
        r@ == "startup command exited "@ + decimal(exits as nat)
            + " times in a minute — stopped restarting"@,
{
    let mut out = "startup command exited ".to_owned();
    push_decimal(&mut out, exits as u64);
    out.push_str(" times in a minute — stopped restarting");
    out
}

/// The choices come round in the order shell, close, restart.
pub proof fn lemma_choices()
    ensures
        OnExit::Shell.following() == OnExit::Close,
        OnExit::Close.following() == OnExit::Restart,
        OnExit::Restart.following() == OnExit::Shell,
        OnExit::Shell.name() == "shell"@,
        OnExit::Close.name() == "close"@,
        OnExit::Restart.name() == "restart"@,
{
}

/// A command that keeps exiting is run again after one second, two, four and
/// eight; at the fifth exit within a minute it is given up.
pub proof fn lemma_delays(g: Gate, now: u64)
    requires
        g.started is None || elapsed(g.started->0, now) < 60_000_000_000,
        forall|i: int|
            0 <= i < g.exits.len() ==> elapsed(#[trigger] g.exits[i], now) < 60_000_000_000,
    ensures
        g.exits.len() == 0 ==> g.verdict(now) == RestartDecision::After(1_000_000_000),
        g.exits.len() == 1 ==> g.verdict(now) == RestartDecision::After(2_000_000_000),
        g.exits.len() == 2 ==> g.verdict(now) == RestartDecision::After(4_000_000_000),
        g.exits.len() == 3 ==> g.verdict(now) == RestartDecision::After(8_000_000_000),
        g.exits.len() >= 4 ==> g.verdict(now) == RestartDecision::Stop,
{
    lemma_backoff_doubles(g, now);
    reveal_with_fuel(doublings, 5);
}

/// An exit counts for a minute: one that is longer ago is forgotten, and so
/// is every one before a run of a minute.
pub proof fn lemma_a_minute(g: Gate, now: u64)
    ensures
        (forall|i: int|
            0 <= i < g.exits.len() ==> elapsed(#[trigger] g.exits[i], now) >= 60_000_000_000)
            ==> g.verdict(now) == RestartDecision::After(1_000_000_000),
        (g.started matches Some(t) && elapsed(t, now) >= 60_000_000_000) ==> g.verdict(now)
            == RestartDecision::After(1_000_000_000),
{
    if forall|i: int|
        0 <= i < g.exits.len() ==> elapsed(#[trigger] g.exits[i], now) >= 60_000_000_000 {
        lemma_old_exits_fall_out(g, now);
    }
    if g.started is Some && elapsed(g.started->0, now) >= 60_000_000_000 {
        lemma_healthy_run_resets(g, g.started->0, now);
        assert(g.begun(g.started->0) == g);
    }
}

} // verus!
