//! A pane's startup command: when it is sent to the shell, how it is followed
//! through the shell's markers, and what happens when it exits. The pane owns
//! the timers; each carries the generation it was started in, so one from an
//! earlier round can't act on a later one.
use vstd::prelude::*;

use crate::startup::{breaker_message, Gate, OnExit, RestartDecision, RestartGate, StartupCommand};
use crate::terminal::commands::{duration_text, format_duration};
use crate::terminal::osc::{Mark, MarkerKind};
use crate::text::{decimal, push_signed, signed_decimal};

verus! {

/// Where a pane's startup command is in its life.
#[derive(Debug, Clone, Copy, PartialEq, Eq, Structural)]
pub enum StartupPhase {
    /// Nothing queued (no command, or it already ran).
    Idle,
    /// Waiting for the shell to be ready.
    Pending,
    /// Sent to the shell; waiting for its C marker.
    AwaitingStart,
    /// Running; waiting for its D marker.
    Running,
    /// Exited under `on_exit = restart`; the backoff timer is ticking.
    RestartWait,
    /// Ran (or was given up on). Nothing more happens automatically.
    Done,
}

/// A pane's startup command and how far it has come.
#[derive(Debug)]
pub struct Launch {
    /// What this pane runs when its workspace is restored.
    pub command: Option<StartupCommand>,
    pub phase: StartupPhase,
    /// Bumped whenever the machine starts over, so a timer from an earlier
    /// round can't act on a later one.
    pub generation: u64,
    /// The ready-detection by first output has been kicked off, so the first
    /// output is the only one that schedules it.
    pub output_seen: bool,
    /// The C marker that just arrived is the startup command's: if the shell
    /// didn't send its text, the log entry gets it from us rather than from
    /// the grid.
    pub label_pending: bool,
    pub gate: RestartGate,
}

/// A startup command, as plain values.
pub ghost struct CommandView {
    pub text: Seq<char>,
    pub on_exit: OnExit,
}

/// A launch, as plain values.
pub ghost struct LaunchView {
    pub command: Option<CommandView>,
    pub phase: StartupPhase,
    pub generation: nat,
    pub output_seen: bool,
    pub label_pending: bool,
    pub gate: Gate,
}

impl View for Launch {
    type V = LaunchView;

    open spec fn view(&self) -> LaunchView {
        LaunchView {
            command: match self.command {
                None => None,
                Some(c) => Some(CommandView { text: c.command@, on_exit: c.on_exit }),
            },
            phase: self.phase,
            generation: self.generation as nat,
            output_seen: self.output_seen,
            label_pending: self.label_pending,
            gate: self.gate@,
        }
    }
}

/// What the pane has to do next for its startup command.
#[derive(Debug)]
pub enum LaunchStep {
    Nothing,
    /// Send the command to the shell.
    Run,
    /// Close the pane: the command exited cleanly.
    Close,
    /// Say something in the window's banner.
    Notice(String),
    /// Run the command again after this many nanoseconds, unless the machine
    /// has started over by then.
    RestartAfter { delay: u64, generation: u64 },
}

/// A step, as plain values.
pub ghost enum StepView {
    Nothing,
    Run,
    Close,
    Notice(Seq<char>),
    RestartAfter { delay: u64, generation: nat },
}

impl View for LaunchStep {
    type V = StepView;

    open spec fn view(&self) -> StepView {
        match self {
            LaunchStep::Nothing => StepView::Nothing,
            LaunchStep::Run => StepView::Run,
            LaunchStep::Close => StepView::Close,
            LaunchStep::Notice(s) => StepView::Notice(s@),
            LaunchStep::RestartAfter { delay, generation } => StepView::RestartAfter {
                delay: *delay,
                generation: *generation as nat,
            },
        }
    }
}

/// A launch after something happened, and what to do.
pub ghost struct LaunchTurn {
    pub launch: LaunchView,
    pub step: StepView,
}

/// What is said of a status.
pub open spec fn status_text(exit: Option<int>) -> Seq<char> {
    match exit {
        None => "unknown"@,
        Some(n) => signed_decimal(n),
    }
}

impl LaunchView {
    /// The machine started over.
    pub open spec fn armed(self) -> LaunchView {
        LaunchView {
            phase: StartupPhase::Pending,
            output_seen: false,
            generation: self.generation + 1,
            ..self
        }
    }

    /// The command is sent. Without markers there is no way to see it end,
    /// so `on_exit` can't apply; the run is simply done.
    pub open spec fn fired(self, uses_markers: bool, now: u64) -> LaunchTurn {
        if self.command is None {
            LaunchTurn {
                launch: LaunchView { phase: StartupPhase::Idle, ..self },
                step: StepView::Nothing,
            }
        } else {
            LaunchTurn {
                launch: LaunchView {
                    phase: if uses_markers {
                        StartupPhase::AwaitingStart
                    } else {
                        StartupPhase::Done
                    },
                    gate: self.gate.begun(now),
                    ..self
                },
                step: StepView::Run,
            }
        }
    }

    /// The shell is ready.
    pub open spec fn readied(self, uses_markers: bool, now: u64) -> LaunchTurn {
        if self.phase == StartupPhase::Pending {
            self.fired(uses_markers, now)
        } else {
            LaunchTurn { launch: self, step: StepView::Nothing }
        }
    }

    /// The command ended.
    pub open spec fn ended(self, exit: Option<int>, now: u64) -> LaunchTurn {
        let done = LaunchView { phase: StartupPhase::Done, ..self };
        match self.command {
            None => LaunchTurn { launch: done, step: StepView::Nothing },
            Some(c) => match c.on_exit {
                OnExit::Shell => LaunchTurn { launch: done, step: StepView::Nothing },
                // Same rule as `exit` in a shell: a clean exit closes, a
                // failure stays on screen so it can be read.
                OnExit::Close => LaunchTurn {
                    launch: done,
                    step: if exit == Some(0int) {
                        StepView::Close
                    } else {
                        StepView::Notice(
                            "startup command exited with status "@ + status_text(exit)
                                + " — pane kept open"@,
                        )
                    },
                },
                OnExit::Restart => {
                    let gate = self.gate.exited(now);
                    match self.gate.verdict(now) {
                        RestartDecision::After(delay) => LaunchTurn {
                            launch: LaunchView {
                                phase: StartupPhase::RestartWait,
                                generation: self.generation + 1,
                                gate,
                                ..self
                            },
                            step: StepView::RestartAfter { delay, generation: self.generation + 1 },
                        },
                        RestartDecision::Stop => LaunchTurn {
                            launch: LaunchView { gate, ..done },
                            step: StepView::Notice(
                                "startup command exited "@ + decimal(gate.exits.len())
                                    + " times in a minute — stopped restarting"@,
                            ),
                        },
                    }
                },
            },
        }
    }

    /// A marker arrived: C says that the command started, D says that it
    /// ended and how.
    pub open spec fn marked(self, mark: Mark, uses_markers: bool, now: u64) -> LaunchTurn {
        match (mark, self.phase) {
            (Mark::PromptStart, StartupPhase::Pending) => self.readied(uses_markers, now),
            (Mark::CommandStart { .. }, StartupPhase::AwaitingStart) => LaunchTurn {
                launch: LaunchView {
                    phase: StartupPhase::Running,
                    label_pending: true,
                    ..self
                },
                step: StepView::Nothing,
            },
            (Mark::CommandEnd { exit }, StartupPhase::Running) => self.ended(exit, now),
            _ => LaunchTurn { launch: self, step: StepView::Nothing },
        }
    }
}

/// A launch with nothing to run.
pub open spec fn idle_launch() -> LaunchView {
    LaunchView {
        command: None,
        phase: StartupPhase::Idle,
        generation: 0,
        output_seen: false,
        label_pending: false,
        gate: Gate { exits: Seq::empty(), started: None },
    }
}

impl Launch {
    /// Nothing to run.
    pub fn new() -> (r: Self)
        ensures
            r@ == idle_launch(),
    {
        Launch {
            command: None,
            phase: StartupPhase::Idle,
            generation: 0,
            output_seen: false,
            label_pending: false,
            gate: RestartGate::default(),
        }
    }

    /// Queue the startup command to run once the shell is ready. With shell
    /// integration the first prompt marker is the signal; without it, a
    /// short delay after the first output. Returns the generation of the
    /// timer that gives up on the command, or `None` where there is no
    /// command.
    pub fn arm(&mut self) -> (r: Option<u64>)
        requires
            old(self).generation < u64::MAX,
        ensures
            old(self)@.command is None ==> r is None && *final(self) == *old(self),
            old(self)@.command is Some ==> r == Some(final(self).generation) && final(self)@
                == old(self)@.armed(),
    {
        if self.command.is_none() {
            return None;
        }
        self.phase = StartupPhase::Pending;
        self.output_seen = false;
        self.generation = self.generation + 1;
        Some(self.generation)
    }

    /// The shell took too long: the command is dropped rather than fired
    /// into a void. `timeout` is in nanoseconds.
    pub fn on_timeout(&mut self, generation: u64, timeout: u64) -> (r: Option<String>)
        ensures
            old(self).generation == generation && old(self).phase == StartupPhase::Pending ==> r
                is Some && (r->0)@ == "startup command skipped — the shell wasn't ready after "@
                + duration_text(timeout as nat) && final(self)@ == (LaunchView {
                phase: StartupPhase::Done,
                ..old(self)@
            }),
            !(old(self).generation == generation && old(self).phase == StartupPhase::Pending)
                ==> r is None && *final(self) == *old(self),
    {
        if self.generation == generation && self.phase == StartupPhase::Pending {
            self.phase = StartupPhase::Done;
            let mut out = "startup command skipped — the shell wasn't ready after ".to_owned();
            out.push_str(format_duration(timeout).as_str());
            Some(out)
        } else {
            None
        }
    }

    /// No markers to say the prompt is up: treat the first output as "the
    /// rc files are running" and fire shortly after. Racy by nature, which
    /// is why the marker path is preferred. Returns the generation of the
    /// timer to start.
    pub fn on_first_output(&mut self, uses_markers: bool) -> (r: Option<u64>)
        ensures
            old(self).phase == StartupPhase::Pending && !uses_markers && !old(self).output_seen
                ==> r == Some(old(self).generation) && final(self)@ == (LaunchView {
                output_seen: true,
                ..old(self)@
            }),
            !(old(self).phase == StartupPhase::Pending && !uses_markers && !old(self).output_seen)
                ==> r is None && *final(self) == *old(self),
    {
        if self.phase != StartupPhase::Pending || uses_markers || self.output_seen {
            return None;
        }
        self.output_seen = true;
        Some(self.generation)
    }

    fn fire(&mut self, uses_markers: bool, now: u64) -> (r: LaunchStep)
        ensures
            old(self)@.fired(uses_markers, now) == (LaunchTurn {
                launch: final(self)@,
                step: r@,
            }),
    {
        if self.command.is_none() {
            self.phase = StartupPhase::Idle;
            return LaunchStep::Nothing;
        }
        self.phase = if uses_markers {
            StartupPhase::AwaitingStart
        } else {
            StartupPhase::Done
        };
        self.gate.record_start(now);
        LaunchStep::Run
    }

    /// The shell is ready.
    pub fn on_shell_ready(&mut self, uses_markers: bool, now: u64) -> (r: LaunchStep)
        ensures
            old(self)@.readied(uses_markers, now) == (LaunchTurn {
                launch: final(self)@,
                step: r@,
            }),
    {
        if self.phase == StartupPhase::Pending {
            self.fire(uses_markers, now)
        } else {
            LaunchStep::Nothing
        }
    }

    /// The delay after the first output is over.
    pub fn on_ready_timer(&mut self, generation: u64, uses_markers: bool, now: u64) -> (r: LaunchStep)
        ensures
            (if old(self).generation == generation {
                old(self)@.readied(uses_markers, now)
            } else {
                LaunchTurn { launch: old(self)@, step: StepView::Nothing }
            }) == (LaunchTurn { launch: final(self)@, step: r@ }),
    {
        if self.generation == generation {
            self.on_shell_ready(uses_markers, now)
        } else {
            LaunchStep::Nothing
        }
    }

    /// The delay before a restart is over. `exited` is whether the shell
    /// itself is gone by then.
    pub fn on_restart_timer(
        &mut self,
        generation: u64,
        exited: bool,
        uses_markers: bool,
        now: u64,
    ) -> (r: LaunchStep)
        ensures
            (if old(self).generation == generation && old(self).phase == StartupPhase::RestartWait
                && !exited {
                old(self)@.fired(uses_markers, now)
            } else {
                LaunchTurn { launch: old(self)@, step: StepView::Nothing }
            }) == (LaunchTurn { launch: final(self)@, step: r@ }),
    {
        if self.generation == generation && self.phase == StartupPhase::RestartWait && !exited {
            self.fire(uses_markers, now)
        } else {
            LaunchStep::Nothing
        }
    }

    /// The startup command ended.
    pub fn startup_finished(&mut self, exit: Option<i32>, now: u64) -> (r: LaunchStep)
        requires
            old(self).generation < u64::MAX,
        ensures
            old(self)@.ended(
                match exit {
                    None => None,
                    Some(n) => Some(n as int),
                },
                now,
            ) == (LaunchTurn { launch: final(self)@, step: r@ }),
    {
        self.phase = StartupPhase::Done;
        let on_exit = match &self.command {
            None => {
                return LaunchStep::Nothing;
            },
            Some(c) => c.on_exit,
        };
        match on_exit {
            OnExit::Shell => LaunchStep::Nothing,
            OnExit::Close => {
                let clean = match exit {
                    None => false,
                    Some(n) => n == 0,
                };
                if clean {
                    return LaunchStep::Close;
                }
                let mut out = "startup command exited with status ".to_owned();
                match exit {
                    None => {
                        out.push_str("unknown");
                    },
                    Some(n) => {
                        push_signed(&mut out, n);
                    },
                }
                out.push_str(" — pane kept open");
                LaunchStep::Notice(out)
            },
            OnExit::Restart => match self.gate.record_exit(now) {
                RestartDecision::After(delay) => {
                    self.phase = StartupPhase::RestartWait;
                    self.generation = self.generation + 1;
                    LaunchStep::RestartAfter { delay, generation: self.generation }
                },
                RestartDecision::Stop => LaunchStep::Notice(
                    breaker_message(self.gate.exits_in_window()),
                ),
            },
        }
    }

    /// Follow the startup command through the shell's markers. Independent
    /// of the command log so `commands.track = false` doesn't disable
    /// `on_exit`.
    pub fn track_startup_marker(&mut self, kind: &MarkerKind, uses_markers: bool, now: u64) -> (r:
        LaunchStep)
        requires
            old(self).generation < u64::MAX,
        ensures
            old(self)@.marked(kind@, uses_markers, now) == (LaunchTurn {
                launch: final(self)@,
                step: r@,
            }),
    {
        match kind {
            MarkerKind::PromptStart => if self.phase == StartupPhase::Pending {
                self.on_shell_ready(uses_markers, now)
            } else {
                LaunchStep::Nothing
            },
            MarkerKind::CommandStart { .. } => {
                if self.phase == StartupPhase::AwaitingStart {
                    self.phase = StartupPhase::Running;
                    self.label_pending = true;
                }
                LaunchStep::Nothing
            },
            MarkerKind::CommandEnd { exit } => if self.phase == StartupPhase::Running {
                self.startup_finished(*exit, now)
            } else {
                LaunchStep::Nothing
            },
            _ => LaunchStep::Nothing,
        }
    }

    /// The restore-time affordance: what's about to run in this pane.
    pub fn startup_chip(&self) -> (r: Option<String>)
        ensures
            match r {
                None => self.command is None || (self.phase != StartupPhase::Pending && self.phase
                    != StartupPhase::RestartWait),
                Some(s) => self.command is Some && ((self.phase == StartupPhase::Pending && s@
                    == "▸ "@ + (self.command->0).command@) || (self.phase
                    == StartupPhase::RestartWait && s@ == "↻ "@ + (self.command->0).command@)),
            },
    {
        match &self.command {
            None => None,
            Some(c) => {
                let mut out = match self.phase {
                    StartupPhase::Pending => "▸ ".to_owned(),
                    StartupPhase::RestartWait => "↻ ".to_owned(),
                    _ => {
                        return None;
                    },
                };
                out.push_str(c.command.as_str());
                Some(out)
            },
        }
    }
}

/// Once sent, a command is not sent again by the shell being ready: only a
/// new round, or a restart, sends it.
pub proof fn lemma_sent_once(l: LaunchView, uses_markers: bool, now: u64, later: u64)
    ensures
        l.readied(uses_markers, now).step is Run ==> l.readied(uses_markers, now).launch.readied(
            uses_markers,
            later,
        ).step is Nothing,
{
}

/// With markers, a command that is sent, starts and ends cleanly under
/// `close` closes the pane, and under `shell` nothing more happens.
pub proof fn lemma_clean_run(l: LaunchView, t0: u64, t1: u64, t2: u64, cmdline: Option<Seq<char>>)
    requires
        l.phase == StartupPhase::Pending,
        l.command is Some,
    ensures
        ({
            let sent = l.marked(Mark::PromptStart, true, t0);
            let started = sent.launch.marked(Mark::CommandStart { cmdline }, true, t1);
            let ended = started.launch.marked(Mark::CommandEnd { exit: Some(0int) }, true, t2);
            &&& sent.step is Run
            &&& started.step is Nothing
            &&& (l.command->0).on_exit == OnExit::Close ==> ended.step is Close
                && ended.launch.phase == StartupPhase::Done
            &&& (l.command->0).on_exit == OnExit::Shell ==> ended.step is Nothing
                && ended.launch.phase == StartupPhase::Done
        }),
{
}

/// A failure under `close` keeps the pane open.
pub proof fn lemma_failure_stays(l: LaunchView, exit: Option<int>, now: u64)
    requires
        l.command is Some,
        (l.command->0).on_exit == OnExit::Close,
        exit != Some(0int),
    ensures
        l.ended(exit, now).step is Notice,
{
}

/// The shell's markers walk a startup command through its life: at the first
/// prompt it is sent, it runs when the shell says that a command starts, and
/// it has ended when the shell says so. Markers that come out of turn change
/// nothing.
pub proof fn lemma_markers_walk(
    l: LaunchView,
    exit: Option<int>,
    cmdline: Option<Seq<char>>,
    now: u64,
)
    ensures
        l.phase is Pending && l.command is Some ==> l.marked(Mark::PromptStart, true, now).step
            is Run && l.marked(Mark::PromptStart, true, now).launch.phase is AwaitingStart,
        l.phase is Pending && l.command is Some ==> l.marked(Mark::PromptStart, false, now).step
            is Run && l.marked(Mark::PromptStart, false, now).launch.phase is Done,
        l.phase is AwaitingStart ==> l.marked(
            Mark::CommandStart { cmdline },
            true,
            now,
        ).launch.phase is Running,
        l.phase is Running ==> l.marked(Mark::CommandEnd { exit }, true, now) == l.ended(exit, now),
        !(l.phase is Pending) ==> l.marked(Mark::PromptStart, true, now) == (LaunchTurn {
            launch: l,
            step: StepView::Nothing,
        }),
        !(l.phase is AwaitingStart) ==> l.marked(Mark::CommandStart { cmdline }, true, now) == (
        LaunchTurn { launch: l, step: StepView::Nothing }),
        !(l.phase is Running) ==> l.marked(Mark::CommandEnd { exit }, true, now) == (LaunchTurn {
            launch: l,
            step: StepView::Nothing,
        }),
{
}

/// What a command's end does is what the user chose: nothing, to close the
/// pane after a clean exit, or to run it again after the delay, in a new
/// round that no earlier timer can act on.
pub proof fn lemma_ends(l: LaunchView, c: CommandView, exit: Option<int>, now: u64)
    requires
        l.command == Some(c),
    ensures
        c.on_exit == OnExit::Shell ==> l.ended(exit, now).step is Nothing && l.ended(
            exit,
            now,
        ).launch.phase is Done,
        c.on_exit == OnExit::Close && exit == Some(0int) ==> l.ended(exit, now).step is Close,
        c.on_exit == OnExit::Close && exit != Some(0int) ==> !(l.ended(exit, now).step is Close),
        c.on_exit == OnExit::Restart ==> match l.gate.verdict(now) {
            RestartDecision::After(d) => l.ended(exit, now).step == (StepView::RestartAfter {
                delay: d,
                generation: l.generation + 1,
            }) && l.ended(exit, now).launch.phase is RestartWait && l.ended(
                exit,
                now,
            ).launch.generation == l.generation + 1,
            RestartDecision::Stop => l.ended(exit, now).step is Notice && l.ended(
                exit,
                now,
            ).launch.phase is Done,
        },
        l.ended(exit, now).launch.command == l.command,
{
}

} // verus!
