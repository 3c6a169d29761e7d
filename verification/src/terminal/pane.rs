//! A terminal pane's bookkeeping: what the shell's markers mean for it, the
//! prompts it can jump between, what keys, clicks and the wheel send, and the
//! texts it shows.
use vstd::prelude::*;
use vstd::utf8::encode_utf8;

use crate::config::schema::{BellMode, NotificationsConfig};
use crate::config::theme::Theme;
use crate::keymap::keystroke::{Keystroke, Modifiers};
use crate::path::{below, program_name, strip_root, within};
use crate::terminal::click::{shell_quote, single_quote, single_quoted, undashed};
use crate::terminal::colors::{byte_of, color_request, hsla_to_rgb8, in_range, queried, whole};
use crate::terminal::commands::{
    cmds, command_label, entry_of, lemma_a_command_ends, lemma_find_last, noted, orderly, with_text,
    Cmd, CommandLog, Log, LogEvent, Rows,
};
use crate::terminal::grid::GridPoint;
use crate::terminal::keys::TermMode;
use crate::terminal::launch::{idle_launch, Launch, LaunchStep, LaunchView, StepView};
use crate::terminal::osc::{text_of, Mark, Marker, MarkerKind};
use crate::terminal::session::shell_name;
use crate::text::{
    add_chars, begins_with, chars_of, decimal, has_prefix, head_of, join, lemma_replaced_joined,
    lemma_trim_tight, push_decimal, push_signed, replaced, same, signed_decimal, string_of, tail_of,
    tight, trim, trim_chars, trim_end, trim_end_chars, whitespace,
};

verus! {

/// What a pane tells the window that owns it.
#[derive(Debug, Clone, PartialEq)]
pub enum TerminalEvent {
    /// The shell exited, with its status. The owning window decides whether
    /// to close the pane.
    Exited(Option<i32>),
    TitleChanged,
    CwdChanged(String),
    /// Output arrived (coalesced with the repaint tick), for the "unread"
    /// dot on background tabs.
    Output,
    /// The shell integration reported a command starting.
    CommandStarted,
    /// ...and finishing. `label` is the command's first line or a stand-in,
    /// the duration is in nanoseconds.
    CommandFinished { label: String, exit: Option<i32>, duration: u64 },
    /// A program asked for a desktop notification (OSC 9 / OSC 777), already
    /// rate-limited and gated on the config.
    Notify { title: Option<String>, body: String },
    /// cmd-click on a `path:line:col` that resolved to a file.
    OpenPath { path: String, line: Option<u32>, col: Option<u32> },
    /// cmd-click on a directory: point the tree there.
    RevealDir(String),
    /// Bytes the user typed or pasted while broadcast is on, for the owner
    /// to fan out to the tab's other panes. This pane has already written
    /// them to its own shell.
    Input(Vec<u8>),
    /// Something to say in the window banner ("copy mode needs the primary
    /// screen").
    Notice(String),
    /// The foreground process changed (a program started or ended, ssh
    /// connected or dropped).
    ForegroundChanged,
    /// The pane's startup command exited cleanly and its `on_exit` is
    /// `close`: the owner closes the pane with the usual semantics.
    StartupExited,
}

/// A cmd-hover underline: which screen row and columns to draw it under.
#[derive(Debug, Clone, Copy, PartialEq, Eq, Structural)]
pub struct HoverSpan {
    pub row: usize,
    pub start: usize,
    pub end: usize,
}

/// How many prompts are remembered.
pub const MAX_PROMPT_MARKS: usize = 500;

/// How long a program has to wait between two notifications: three seconds.
pub const NOTIFY_INTERVAL: u64 = 3_000_000_000;

/// Prompt rows with one more, unless it is the last one again. The oldest
/// goes where there are too many.
pub open spec fn with_mark(marks: Seq<usize>, row: usize) -> Seq<usize> {
    if marks.len() > 0 && marks.last() == row {
        marks
    } else if marks.len() >= MAX_PROMPT_MARKS {
        marks.push(row).skip(1)
    } else {
        marks.push(row)
    }
}

/// Remember the row of a prompt.
pub fn push_prompt_mark(marks: &mut Vec<usize>, row: usize)
    ensures
        final(marks)@ == with_mark(old(marks)@, row),
{
    let ghost before = marks@;
    if marks.len() > 0 && marks[marks.len() - 1] == row {
        return;
    }
    marks.push(row);
    if marks.len() > MAX_PROMPT_MARKS {
        marks.remove(0);
        assert(marks@ =~= before.push(row).skip(1));
    }
}

/// There are never more prompt rows than the limit.
pub proof fn lemma_marks_bounded(marks: Seq<usize>, row: usize)
    requires
        marks.len() <= MAX_PROMPT_MARKS,
    ensures
        with_mark(marks, row).len() <= MAX_PROMPT_MARKS,
        with_mark(marks, row).len() > 0,
        with_mark(marks, row).last() == row,
{
}

/// How far up the scrollback a row is shown at the top of the screen.
pub open spec fn offset_of(row: int, history: int) -> int {
    if row < history {
        history - row
    } else {
        0
    }
}

/// The nearest prompt above what is shown.
pub open spec fn prompt_above(marks: Seq<usize>, history: int, offset: int) -> Option<int>
    decreases marks.len(),
{
    if marks.len() == 0 {
        None
    } else if offset_of(marks.last() as int, history) > offset {
        Some(offset_of(marks.last() as int, history))
    } else {
        prompt_above(marks.drop_last(), history, offset)
    }
}

/// The first prompt below what is shown.
pub open spec fn prompt_below(marks: Seq<usize>, history: int, offset: int) -> Option<int>
    decreases marks.len(),
{
    if marks.len() == 0 {
        None
    } else if offset_of(marks[0] as int, history) < offset {
        Some(offset_of(marks[0] as int, history))
    } else {
        prompt_below(marks.skip(1), history, offset)
    }
}

fn offset_for(row: usize, history: usize) -> (r: usize)
    ensures
        r == offset_of(row as int, history as int),
        r <= history,
{
    if row < history {
        history - row
    } else {
        0
    }
}

/// Where to scroll for the prompt above: the new offset from the bottom.
pub fn prompt_up(marks: &Vec<usize>, history: usize, offset: usize) -> (r: Option<usize>)
    ensures
        match r {
            None => prompt_above(marks@, history as int, offset as int) is None,
            Some(t) => prompt_above(marks@, history as int, offset as int) == Some(t as int) && t
                > offset,
        },
{
    let mut n: usize = marks.len();
    assert(marks@.take(n as int) =~= marks@);
    while n > 0
        invariant
            n <= marks.len(),
            prompt_above(marks@, history as int, offset as int) == prompt_above(
                marks@.take(n as int),
                history as int,
                offset as int,
            ),
        decreases n,
    {
        assert(marks@.take(n as int).last() == marks@[n - 1]);
        assert(marks@.take(n as int).drop_last() =~= marks@.take(n - 1));
        let target = offset_for(marks[n - 1], history);
        if target > offset {
            return Some(target);
        }
        n -= 1;
    }
    None
}

/// Where to scroll for the prompt below: the new offset from the bottom, or
/// `None` where the bottom is shown already. Past the last prompt, to the
/// bottom.
pub fn prompt_down(marks: &Vec<usize>, history: usize, offset: usize) -> (r: Option<usize>)
    ensures
        match r {
            None => offset == 0,
            Some(t) => offset > 0 && t < offset && t == (match prompt_below(
                marks@,
                history as int,
                offset as int,
            ) {
                None => 0,
                Some(n) => n,
            }),
        },
{
    if offset == 0 {
        return None;
    }
    let mut i: usize = 0;
    assert(marks@.skip(0) =~= marks@);
    while i < marks.len()
        invariant
            i <= marks.len(),
            offset > 0,
            prompt_below(marks@, history as int, offset as int) == prompt_below(
                marks@.skip(i as int),
                history as int,
                offset as int,
            ),
        decreases marks.len() - i,
    {
        assert(marks@.skip(i as int)[0] == marks@[i as int]);
        assert(marks@.skip(i as int).skip(1) =~= marks@.skip(i + 1));
        let target = offset_for(marks[i], history);
        if target < offset {
            return Some(target);
        }
        i += 1;
    }
    Some(0)
}

/// The offset that puts an absolute row at the top of the viewport.
pub fn scroll_to_row(row: usize, history: usize) -> (r: usize)
    ensures
        r == offset_of(row as int, history as int),
{
    offset_for(row, history)
}

/// What the shell's markers have told a pane.
#[derive(Debug)]
pub struct Tracker {
    pub cwd: Option<String>,
    /// What has run in this pane, from the OSC 133 markers.
    pub log: CommandLog,
    /// Prompt rows in absolute line coordinates.
    pub prompt_marks: Vec<usize>,
    /// Where the last 133;B landed, so a command line can be read back off
    /// the grid when the shell didn't send it.
    pub last_input_start: Option<(usize, usize)>,
    /// OSC 7 is live for this session, so the cwd poll can stand down.
    pub osc7_seen: bool,
    /// Rate limit for program-posted notifications.
    pub last_program_notify: Option<u64>,
    pub launch: Launch,
}

/// A tracker, as plain values.
pub ghost struct Track {
    pub cwd: Option<Seq<char>>,
    pub log: Log,
    pub prompt_marks: Seq<usize>,
    pub last_input_start: Option<(usize, usize)>,
    pub osc7_seen: bool,
    pub last_program_notify: Option<u64>,
    pub launch: LaunchView,
}

impl View for Tracker {
    type V = Track;

    open spec fn view(&self) -> Track {
        Track {
            cwd: text_of(self.cwd),
            log: self.log@,
            prompt_marks: self.prompt_marks@,
            last_input_start: self.last_input_start,
            osc7_seen: self.osc7_seen,
            last_program_notify: self.last_program_notify,
            launch: self.launch@,
        }
    }
}

/// What a marker leads to.
#[derive(Debug)]
pub enum MarkerNews {
    /// Nothing to tell.
    Quiet,
    CwdChanged(String),
    Notify { title: Option<String>, body: String },
    /// A command started. `read_line` is whether its text has to be read off
    /// the grid.
    Started { id: u64, read_line: bool },
    Finished { label: String, exit: Option<i32>, duration: u64 },
}

/// What a marker leads to, as plain values.
pub ghost enum News {
    Quiet,
    CwdChanged(Seq<char>),
    Notify { title: Option<Seq<char>>, body: Seq<char> },
    Started { id: u64, read_line: bool },
    Finished { label: Seq<char>, exit: Option<i32>, duration: int },
}

impl View for MarkerNews {
    type V = News;

    open spec fn view(&self) -> News {
        match *self {
            MarkerNews::Quiet => News::Quiet,
            MarkerNews::CwdChanged(p) => News::CwdChanged(p@),
            MarkerNews::Notify { title, body } => News::Notify {
                title: text_of(title),
                body: body@,
            },
            MarkerNews::Started { id, read_line } => News::Started { id, read_line },
            MarkerNews::Finished { label, exit, duration } => News::Finished {
                label: label@,
                exit,
                duration: duration as int,
            },
        }
    }
}

/// A pane after a marker: what it knows, what its startup command needs, and
/// what there is to tell.
pub ghost struct MarkerTurn {
    pub track: Track,
    pub step: StepView,
    pub news: News,
}

/// How long a command ran.
pub open spec fn ran_for(c: Cmd, now: u64) -> int {
    let end = match c.finished {
        None => now,
        Some(t) => t,
    };
    if end > c.started {
        end - c.started
    } else {
        0
    }
}

/// The settings that markers are read with.
#[derive(Debug, Clone, Copy)]
pub struct MarkerSettings {
    /// Programs may post notifications.
    pub notify: bool,
    /// Commands are logged.
    pub track: bool,
    /// The shell says when it is ready and how commands end.
    pub uses_markers: bool,
}

impl Track {
    /// The rows that a marker on the primary screen leaves behind.
    pub open spec fn with_rows(self, mark: Mark, row: usize, column: usize, alt_screen: bool) -> Track {
        if alt_screen {
            self
        } else {
            match mark {
                Mark::PromptStart => Track {
                    prompt_marks: with_mark(self.prompt_marks, row),
                    ..self
                },
                Mark::InputStart => Track { last_input_start: Some((row, column)), ..self },
                _ => self,
            }
        }
    }

    /// A marker that follows a command.
    pub open spec fn followed(
        self,
        mark: Mark,
        row: usize,
        column: usize,
        alt_screen: bool,
        s: MarkerSettings,
        now: u64,
    ) -> MarkerTurn {
        let rows = self.with_rows(mark, row, column, alt_screen);
        let turn = self.launch.marked(mark, s.uses_markers, now);
        let next = Track { launch: turn.launch, ..rows };
        if !s.track {
            // Still note that integration is live, so cmd-↑ trusts A markers.
            MarkerTurn {
                track: Track { log: Log { markers_seen: true, ..self.log }, ..next },
                step: turn.step,
                news: News::Quiet,
            }
        } else {
            let (log, event) = noted(self.log, mark, row, alt_screen, now);
            match event {
                None => MarkerTurn { track: Track { log, ..next }, step: turn.step, news: News::Quiet },
                Some(LogEvent::Started(id)) => {
                    let entry = entry_of(log.entries, id);
                    let blank = entry is Some && (entry->0).text is None;
                    let known = if turn.launch.label_pending && turn.launch.command is Some {
                        Some((turn.launch.command->0).text)
                    } else {
                        None
                    };
                    MarkerTurn {
                        track: Track {
                            log: if blank && known is Some {
                                Log { entries: with_text(log.entries, id, known->0), ..log }
                            } else {
                                log
                            },
                            last_input_start: if blank && known is None {
                                next.last_input_start
                            } else {
                                None
                            },
                            launch: LaunchView { label_pending: false, ..turn.launch },
                            ..next
                        },
                        step: turn.step,
                        news: News::Started { id, read_line: blank && known is None },
                    }
                },
                Some(LogEvent::Finished(id)) => MarkerTurn {
                    track: Track { log, ..next },
                    step: turn.step,
                    news: match entry_of(log.entries, id) {
                        None => News::Quiet,
                        Some(c) => News::Finished {
                            label: command_label(c.text),
                            exit: c.exit,
                            duration: ran_for(c, now),
                        },
                    },
                },
            }
        }
    }

    /// A marker arrived.
    pub open spec fn marked(
        self,
        mark: Mark,
        row: usize,
        column: usize,
        alt_screen: bool,
        s: MarkerSettings,
        now: u64,
    ) -> MarkerTurn {
        match mark {
            Mark::Cwd(path) => MarkerTurn {
                track: Track {
                    osc7_seen: true,
                    log: Log { cwd: Some(path), ..self.log },
                    cwd: Some(path),
                    ..self
                },
                step: StepView::Nothing,
                news: if self.cwd == Some(path) {
                    News::Quiet
                } else {
                    News::CwdChanged(path)
                },
            },
            Mark::Notify { title, body } => {
                // A remote host can spam these; one every few seconds is
                // plenty for anything legitimate.
                let recent = self.last_program_notify is Some && crate::startup::elapsed(
                    self.last_program_notify->0,
                    now,
                ) < NOTIFY_INTERVAL;
                if s.notify && !recent {
                    MarkerTurn {
                        track: Track { last_program_notify: Some(now), ..self },
                        step: StepView::Nothing,
                        news: News::Notify { title, body },
                    }
                } else {
                    MarkerTurn { track: self, step: StepView::Nothing, news: News::Quiet }
                }
            },
            _ => self.followed(mark, row, column, alt_screen, s, now),
        }
    }
}

/// Whether programs may post notifications.
pub fn passes_notifications(config: &NotificationsConfig) -> (r: bool)
    ensures
        r == (config.enabled && config.passthrough_osc9),
{
    config.enabled && config.passthrough_osc9
}

impl Tracker {
    /// A pane in a directory, with nothing run in it yet. The log keeps
    /// `max_entries` commands, one at least.
    pub fn new(cwd: String, max_entries: usize) -> (r: Self)
        ensures
            r@ == (Track {
                cwd: Some(cwd@),
                log: Log {
                    entries: Seq::empty(),
                    cap: if max_entries < 1 {
                        1
                    } else {
                        max_entries
                    },
                    next_id: 1,
                    running: None,
                    last_prompt_row: None,
                    cwd: None,
                    markers_seen: false,
                },
                prompt_marks: Seq::empty(),
                last_input_start: None,
                osc7_seen: false,
                last_program_notify: None,
                launch: idle_launch(),
            }),
    {
        let cap: usize = if max_entries < 1 {
            1
        } else {
            max_entries
        };
        let r = Tracker {
            cwd: Some(cwd),
            log: CommandLog::new(cap),
            prompt_marks: Vec::new(),
            last_input_start: None,
            osc7_seen: false,
            last_program_notify: None,
            launch: Launch::new(),
        };
        assert(r@.prompt_marks =~= Seq::empty());
        r
    }

    fn note_rows(&mut self, marker: &Marker)
        ensures
            final(self)@ == old(self)@.with_rows(
                marker.kind@,
                marker.row,
                marker.column,
                marker.alt_screen,
            ),
    {
        if marker.alt_screen {
            return;
        }
        match &marker.kind {
            MarkerKind::PromptStart => {
                push_prompt_mark(&mut self.prompt_marks, marker.row);
            },
            MarkerKind::InputStart => {
                self.last_input_start = Some((marker.row, marker.column));
            },
            _ => {},
        }
    }

    fn on_started(&mut self, id: u64) -> (r: bool)
        ensures
            ({
                let before = old(self)@;
                let entry = entry_of(before.log.entries, id);
                let blank = entry is Some && (entry->0).text is None;
                let known = if before.launch.label_pending && before.launch.command is Some {
                    Some((before.launch.command->0).text)
                } else {
                    None
                };
                &&& r == (blank && known is None)
                &&& final(self)@ == (Track {
                    log: if blank && known is Some {
                        Log {
                            entries: with_text(before.log.entries, id, known->0),
                            ..before.log
                        }
                    } else {
                        before.log
                    },
                    last_input_start: if blank && known is None {
                        before.last_input_start
                    } else {
                        None
                    },
                    launch: LaunchView { label_pending: false, ..before.launch },
                    ..before
                })
            }),
    {
        let pending = self.launch.label_pending;
        self.launch.label_pending = false;
        let mut known: Option<String> = None;
        if pending {
            if let Some(c) = &self.launch.command {
                known = Some(c.command.clone());
            }
        }
        let blank = match self.log.get(id) {
            None => false,
            Some(c) => c.text.is_none(),
        };
        if blank {
            match known {
                Some(text) => {
                    self.log.set_text(id, text);
                },
                None => {
                    return true;
                },
            }
        }
        self.last_input_start = None;
        false
    }

    /// A marker arrived. Returns what the startup command needs, and what
    /// there is to tell. Where a started command's text has to be read off
    /// the grid, `line_read` follows.
    pub fn handle_marker(&mut self, marker: &Marker, s: &MarkerSettings, now: u64) -> (r: (
        LaunchStep,
        MarkerNews,
    ))
        requires
            old(self)@.log.next_id < u64::MAX,
            old(self).launch.generation < u64::MAX,
        ensures
            old(self)@.marked(
                marker.kind@,
                marker.row,
                marker.column,
                marker.alt_screen,
                *s,
                now,
            ) == (MarkerTurn { track: final(self)@, step: r.0@, news: r.1@ }),
    {
        match &marker.kind {
            MarkerKind::Cwd(path) => {
                self.osc7_seen = true;
                self.log.set_cwd(path.clone());
                let known = match &self.cwd {
                    None => false,
                    Some(c) => same(c.as_str(), path.as_str()),
                };
                self.cwd = Some(path.clone());
                return (
                    LaunchStep::Nothing,
                    if known {
                        MarkerNews::Quiet
                    } else {
                        MarkerNews::CwdChanged(path.clone())
                    },
                );
            },
            MarkerKind::Notify { title, body } => {
                let recent = match self.last_program_notify {
                    None => false,
                    Some(t) => now.saturating_sub(t) < NOTIFY_INTERVAL,
                };
                if s.notify && !recent {
                    self.last_program_notify = Some(now);
                    let title = crate::terminal::commands::copy_text(title);
                    return (
                        LaunchStep::Nothing,
                        MarkerNews::Notify { title, body: body.clone() },
                    );
                }
                return (LaunchStep::Nothing, MarkerNews::Quiet);
            },
            _ => {},
        }
        self.note_rows(marker);
        let step = self.launch.track_startup_marker(&marker.kind, s.uses_markers, now);
        if !s.track {
            self.log.see_markers();
            return (step, MarkerNews::Quiet);
        }
        match self.log.on_marker(marker, now) {
            None => (step, MarkerNews::Quiet),
            Some(LogEvent::Started(id)) => {
                let read_line = self.on_started(id);
                (step, MarkerNews::Started { id, read_line })
            },
            Some(LogEvent::Finished(id)) => {
                let news = match self.log.get(id) {
                    None => MarkerNews::Quiet,
                    Some(c) => MarkerNews::Finished {
                        label: c.label(),
                        exit: c.exit,
                        duration: c.duration(now),
                    },
                };
                (step, news)
            },
        }
    }

    /// The text of a command was read off the grid, where that could be done.
    pub fn line_read(&mut self, id: u64, text: Option<String>)
        ensures
            final(self)@ == (Track {
                log: match text {
                    None => old(self)@.log,
                    Some(t) => Log {
                        entries: with_text(old(self)@.log.entries, id, t@),
                        ..old(self)@.log
                    },
                },
                last_input_start: None,
                ..old(self)@
            }),
    {
        if let Some(t) = text {
            self.log.set_text(id, t);
        }
        self.last_input_start = None;
    }
}

/// A stretch of the grid, both of its ends included.
#[derive(Debug, Clone, Copy, PartialEq, Eq, Structural)]
pub struct GridSpan {
    pub start: GridPoint,
    pub end: GridPoint,
}

/// The lines that a grid holds.
#[derive(Debug, Clone, Copy, PartialEq, Eq, Structural)]
pub struct GridLines {
    /// Lines that have scrolled off the screen.
    pub history: usize,
    pub topmost: i32,
    pub bottommost: i32,
    pub last_column: usize,
}

/// Where what the user typed stands: from the last 133;B to the end of the
/// row before `command_row`.
pub open spec fn typed_span(
    input_start: Option<(usize, usize)>,
    command_row: int,
    lines: GridLines,
) -> Option<GridSpan> {
    match input_start {
        None => None,
        Some((row, column)) => {
            let start = row - lines.history;
            let end = command_row - 1 - lines.history;
            if command_row == 0 || end < start || start < lines.topmost || end > lines.bottommost {
                None
            } else {
                Some(
                    GridSpan {
                        start: GridPoint { line: start as i32, column },
                        end: GridPoint { line: end as i32, column: lines.last_column },
                    },
                )
            }
        },
    }
}

/// Where what the user typed stands, as the grid shows it. The fallback for
/// shells that don't send `cmdline=`.
pub fn command_line_span(
    input_start: Option<(usize, usize)>,
    command_row: usize,
    lines: &GridLines,
) -> (r: Option<GridSpan>)
    ensures
        r == typed_span(input_start, command_row as int, *lines),
{
    match input_start {
        None => None,
        Some((row, column)) => {
            let start: i128 = row as i128 - lines.history as i128;
            let end: i128 = command_row as i128 - 1 - lines.history as i128;
            if command_row == 0 || end < start || start < lines.topmost as i128 || end
                > lines.bottommost as i128 {
                None
            } else {
                Some(
                    GridSpan {
                        start: GridPoint { line: start as i32, column },
                        end: GridPoint { line: end as i32, column: lines.last_column },
                    },
                )
            }
        },
    }
}

/// Text read off the grid, trimmed, where there is any.
pub fn typed_text(text: &str) -> (r: Option<String>)
    ensures
        match r {
            None => trim(text@).len() == 0,
            Some(t) => t@ == trim(text@) && t@.len() > 0,
        },
{
    let t = trim_chars(&chars_of(text));
    if t.len() == 0 {
        None
    } else {
        Some(string_of(&t))
    }
}

/// Where a command's output stands, as far as its rows are in the buffer.
pub open spec fn output_lines(rows: Option<Rows>, lines: GridLines) -> Option<GridSpan> {
    match rows {
        None => None,
        Some(r) => {
            let first = r.start - lines.history;
            let last = r.end - 1 - lines.history;
            let start = if first < lines.topmost {
                lines.topmost as int
            } else {
                first
            };
            let end = if last > lines.bottommost {
                lines.bottommost as int
            } else {
                last
            };
            if r.start >= r.end || end < start {
                None
            } else {
                Some(
                    GridSpan {
                        start: GridPoint { line: start as i32, column: 0 },
                        end: GridPoint { line: end as i32, column: lines.last_column },
                    },
                )
            }
        },
    }
}

/// Where a command's output stands, if its rows are still in the buffer.
pub fn output_span(rows: Option<Rows>, lines: &GridLines) -> (r: Option<GridSpan>)
    ensures
        r == output_lines(rows, *lines),
{
    match rows {
        None => None,
        Some(r) => {
            if r.start >= r.end {
                return None;
            }
            let first: i128 = r.start as i128 - lines.history as i128;
            let last: i128 = r.end as i128 - 1 - lines.history as i128;
            let start: i128 = if first < lines.topmost as i128 {
                lines.topmost as i128
            } else {
                first
            };
            let end: i128 = if last > lines.bottommost as i128 {
                lines.bottommost as i128
            } else {
                last
            };
            if end < start {
                None
            } else {
                Some(
                    GridSpan {
                        start: GridPoint { line: start as i32, column: 0 },
                        end: GridPoint { line: end as i32, column: lines.last_column },
                    },
                )
            }
        },
    }
}

/// A command's output, without the blanks at its end, where there is any.
pub fn output_text(text: &str) -> (r: Option<String>)
    ensures
        match r {
            None => trim_end(text@).len() == 0,
            Some(t) => t@ == trim_end(text@) && t@.len() > 0,
        },
{
    let t = trim_end_chars(&chars_of(text));
    if t.len() == 0 {
        None
    } else {
        Some(string_of(&t))
    }
}

/// A command and its output, as they are copied together.
pub open spec fn block_text(text: Option<Seq<char>>, output: Option<Seq<char>>) -> Seq<char> {
    (match text {
        None => ""@,
        Some(t) => "$ "@ + t + "\n"@,
    }) + (match output {
        None => ""@,
        Some(o) => o + "\n"@,
    })
}

/// A command and its output, as they are copied together, if there is
/// anything to copy.
pub fn copy_block(text: &Option<String>, output: &Option<String>) -> (r: Option<String>)
    ensures
        match r {
            None => block_text(text_of(*text), text_of(*output)).len() == 0,
            Some(b) => b@ == block_text(text_of(*text), text_of(*output)) && b@.len() > 0,
        },
{
    let mut block = "".to_owned();
    if let Some(t) = text {
        block = "$ ".to_owned();
        block.push_str(t.as_str());
        block.push_str("\n");
    }
    let mut tail = "".to_owned();
    if let Some(o) = output {
        tail = o.clone();
        tail.push_str("\n");
    }
    block.push_str(tail.as_str());
    if chars_of(block.as_str()).len() == 0 {
        None
    } else {
        Some(block)
    }
}

/// A path as it is typed at the prompt: relative to the cwd when it lies
/// beneath it, which is what a command wants, unless `absolute`.
pub open spec fn path_text(path: Seq<char>, cwd: Option<Seq<char>>, absolute: bool) -> Seq<char> {
    if absolute || cwd is None || !within(path, cwd->0) {
        path
    } else if below(path, cwd->0).len() == 0 {
        "."@
    } else {
        below(path, cwd->0)
    }
}

/// Type a path at the prompt, quoted.
pub fn insert_path(path: &str, cwd: Option<&str>, absolute: bool) -> (r: String)
    ensures
        r@ == single_quoted(
            undashed(
                path_text(
                    path@,
                    match cwd {
                        None => None,
                        Some(c) => Some(c@),
                    },
                    absolute,
                ),
            ),
        ) + " "@,
{
    let mut text = path.to_owned();
    if !absolute {
        if let Some(c) = cwd {
            if let Some(rel) = strip_root(path, c) {
                text = if chars_of(rel.as_str()).len() == 0 {
                    ".".to_owned()
                } else {
                    rel
                };
            }
        }
    }
    let mut out = shell_quote(text.as_str());
    out.push_str(" ");
    out
}

/// Whether a shell is one that the integration knows widgets for.
pub open spec fn has_widgets(program: Seq<char>) -> bool {
    begins_with(program_name(program), "zsh"@) || begins_with(program_name(program), "bash"@)
}

/// Widgets are only installed for the shells Oxide can inject into.
pub fn shell_supports_widgets(program: &str) -> (r: bool)
    ensures
        r == has_widgets(program@),
{
    let name = shell_name(program);
    has_prefix(name.as_str(), "zsh") || has_prefix(name.as_str(), "bash")
}

/// What makes the shell pick up a directory that was handed over in a file:
/// the widget's key. zsh's zle widget redraws the prompt in place. bash's
/// readline cannot, so an empty line is submitted to get a fresh correct
/// prompt.
pub fn cd_trigger(program: &str) -> (r: String)
    ensures
        r@ == (if begins_with(program_name(program@), "bash"@) {
            "\x1b[9001~\r"@
        } else {
            "\x1b[9001~"@
        }),
{
    if has_prefix(shell_name(program).as_str(), "bash") {
        "\x1b[9001~\r".to_owned()
    } else {
        "\x1b[9001~".to_owned()
    }
}

/// The command that changes the shell's directory, where there is no widget.
pub fn cd_command(path: &str) -> (r: String)
    ensures
        r@ == "cd "@ + single_quoted(path@) + "\r"@,
{
    let mut out = "cd ".to_owned();
    out.push_str(single_quote(path).as_str());
    out.push_str("\r");
    out
}

/// What runs a command: the widget's key where the command was handed over
/// in a file, else the command itself, typed.
pub fn run_text(command: &str, handed_over: bool) -> (r: String)
    ensures
        r@ == (if handed_over {
            "\x1b[9002~"@
        } else {
            command@ + "\r"@
        }),
{
    if handed_over {
        "\x1b[9002~".to_owned()
    } else {
        let mut out = command.to_owned();
        out.push_str("\r");
        out
    }
}

/// The button of a mouse report with the modifiers held.
pub open spec fn report_button(button: int, m: Modifiers) -> int {
    button + (if m.shift {
        4int
    } else {
        0
    }) + (if m.alt {
        8int
    } else {
        0
    }) + (if m.control {
        16int
    } else {
        0
    })
}

/// A mouse report's text in the extended encoding.
pub open spec fn sgr_report(button: int, col: int, row: int, pressed: bool) -> Seq<char> {
    "\x1b[<"@ + decimal(button as nat) + ";"@ + decimal((col + 1) as nat) + ";"@ + decimal(
        (row + 1) as nat,
    ) + (if pressed {
        "M"@
    } else {
        "m"@
    })
}

/// The bytes of a mouse report. The plain encoding reaches only so far; past
/// it, nothing is sent.
pub open spec fn report_bytes(
    button: int,
    col: int,
    row: int,
    pressed: bool,
    m: Modifiers,
    sgr: bool,
) -> Seq<u8> {
    let b = report_button(button, m);
    if sgr {
        encode_utf8(sgr_report(b, col, row, pressed))
    } else if col < 223 && row < 223 {
        seq![
            0x1bu8,
            0x5b,
            0x4d,
            (32 + if pressed {
                b
            } else {
                3
            }) as u8,
            (33 + col) as u8,
            (33 + row) as u8,
        ]
    } else {
        Seq::empty()
    }
}

/// The bytes of a mouse report.
pub fn mouse_report(
    button: u8,
    col: usize,
    row: usize,
    pressed: bool,
    m: &Modifiers,
    sgr: bool,
) -> (r: Vec<u8>)
    requires
        button <= 127,
        col < usize::MAX,
        row < usize::MAX,
    ensures
        r@ == report_bytes(button as int, col as int, row as int, pressed, *m, sgr),
{
    let mut b: u8 = button;
    if m.shift {
        b += 4;
    }
    if m.alt {
        b += 8;
    }
    if m.control {
        b += 16;
    }
    if sgr {
        let mut out = "\x1b[<".to_owned();
        push_decimal(&mut out, b as u64);
        out.push_str(";");
        push_decimal(&mut out, (col + 1) as u64);
        out.push_str(";");
        push_decimal(&mut out, (row + 1) as u64);
        out.push_str(
            if pressed {
                "M"
            } else {
                "m"
            },
        );
        out.as_str().as_bytes_vec()
    } else if col < 223 && row < 223 {
        let code: u8 = if pressed {
            b
        } else {
            3
        };
        let r = vec![0x1b, 0x5b, 0x4d, 32 + code, 33 + col as u8, 33 + row as u8];
        assert(r@ =~= report_bytes(button as int, col as int, row as int, pressed, *m, sgr));
        r
    } else {
        let r: Vec<u8> = Vec::new();
        assert(r@ =~= Seq::empty());
        r
    }
}

/// What turning the wheel does.
#[derive(Debug)]
pub enum WheelAction {
    /// Send these bytes to the program.
    Keys(Vec<u8>),
    /// Report a press of this button, that many times.
    Report { button: u8, times: u32 },
    /// Scroll the display, upward if positive.
    Scroll(i32),
}

/// Bytes `n` times over.
pub open spec fn bytes_times(b: Seq<u8>, n: nat) -> Seq<u8>
    decreases n,
{
    if n == 0 {
        Seq::empty()
    } else {
        bytes_times(b, (n - 1) as nat) + b
    }
}

/// The arrow key that stands for a line of scrolling.
pub open spec fn wheel_key(up: bool, app_cursor: bool) -> Seq<u8> {
    seq![
        0x1bu8,
        if app_cursor {
            0x4f
        } else {
            0x5b
        },
        if up {
            0x41
        } else {
            0x42
        },
    ]
}

/// What turning the wheel by `lines` does, upward if positive. Alt-screen
/// apps with alternate scroll get arrow keys, otherwise scrolling in
/// vim/less does nothing.
pub fn wheel(lines: i32, mode: &TermMode, shift: bool) -> (r: WheelAction)
    requires
        lines != 0,
        lines > i32::MIN,
    ensures
        match r {
            WheelAction::Keys(b) => mode.alt_screen && mode.alternate_scroll && b@ == bytes_times(
                wheel_key(lines > 0, mode.app_cursor),
                if lines > 0 {
                    lines as nat
                } else {
                    (-lines) as nat
                },
            ),
            WheelAction::Report { button, times } => !(mode.alt_screen && mode.alternate_scroll)
                && mode.mouse() && !shift && button == (if lines > 0 {
                64
            } else {
                65int
            }) && times == (if lines > 0 {
                lines as int
            } else {
                -lines
            }),
            WheelAction::Scroll(n) => !(mode.alt_screen && mode.alternate_scroll) && !(mode.mouse()
                && !shift) && n == lines,
        },
{
    let times: u32 = if lines > 0 {
        lines as u32
    } else {
        (-lines) as u32
    };
    if mode.alt_screen && mode.alternate_scroll {
        let ghost key = wheel_key(lines > 0, mode.app_cursor);
        let second: u8 = if mode.app_cursor {
            0x4f
        } else {
            0x5b
        };
        let third: u8 = if lines > 0 {
            0x41
        } else {
            0x42
        };
        let mut bytes: Vec<u8> = Vec::new();
        let mut i: u32 = 0;
        assert(bytes@ =~= bytes_times(key, 0));
        while i < times
            invariant
                i <= times,
                key == seq![0x1bu8, second, third],
                bytes@ == bytes_times(key, i as nat),
            decreases times - i,
        {
            let ghost before = bytes@;
            bytes.push(0x1b);
            bytes.push(second);
            bytes.push(third);
            i += 1;
            assert(bytes@ =~= before + key);
        }
        WheelAction::Keys(bytes)
    } else if (mode.mouse_report_click || mode.mouse_drag || mode.mouse_motion) && !shift {
        WheelAction::Report {
            button: if lines > 0 {
                64
            } else {
                65
            },
            times,
        }
    } else {
        WheelAction::Scroll(lines)
    }
}

/// What pressing the left button does.
#[derive(Debug, Clone, Copy, PartialEq, Eq, Structural)]
pub enum Press {
    /// Open what is under the pointer.
    Open,
    /// Report the press to the program.
    Report,
    /// Select from here: by characters, words or lines.
    Select(crate::terminal::vi::SelectionKind),
}

/// What pressing the left button does: cmd opens, a program that listens
/// hears of it, unless shift bypasses that to force local selection.
pub fn on_press(platform: bool, shift: bool, mode: &TermMode, clicks: usize) -> (r: Press)
    ensures
        r == (if platform {
            Press::Open
        } else if !shift && mode.mouse() {
            Press::Report
        } else if clicks == 1 {
            Press::Select(crate::terminal::vi::SelectionKind::Simple)
        } else if clicks == 2 {
            Press::Select(crate::terminal::vi::SelectionKind::Semantic)
        } else {
            Press::Select(crate::terminal::vi::SelectionKind::Lines)
        }),
{
    if platform {
        Press::Open
    } else if !shift && (mode.mouse_report_click || mode.mouse_drag || mode.mouse_motion) {
        Press::Report
    } else if clicks == 1 {
        Press::Select(crate::terminal::vi::SelectionKind::Simple)
    } else if clicks == 2 {
        Press::Select(crate::terminal::vi::SelectionKind::Semantic)
    } else {
        Press::Select(crate::terminal::vi::SelectionKind::Lines)
    }
}

/// What to do about something that is polled.
#[derive(Debug, Clone, Copy, PartialEq, Eq, Structural)]
pub enum PollStep {
    Now,
    /// In this many nanoseconds.
    Later(u64),
    /// It is on its way.
    Wait,
}

/// Throttled with a trailing edge: a burst of output always gets one more
/// poll after it settles, otherwise the cd that produced the final prompt
/// redraw is missed and the tree lags until the next keystroke.
pub fn throttle(elapsed: u64, interval: u64, scheduled: bool) -> (r: PollStep)
    ensures
        r == (if elapsed >= interval {
            PollStep::Now
        } else if scheduled {
            PollStep::Wait
        } else {
            PollStep::Later((interval - elapsed) as u64)
        }),
{
    if elapsed >= interval {
        PollStep::Now
    } else if scheduled {
        PollStep::Wait
    } else {
        PollStep::Later(interval - elapsed)
    }
}

/// The cursor's blinking half-cycle in milliseconds, within reason.
pub fn blink_interval(configured: u64) -> (r: u64)
    ensures
        r == (if configured < 100 {
            100
        } else if configured > 5000 {
            5000
        } else {
            configured
        }),
{
    if configured < 100 {
        100
    } else if configured > 5000 {
        5000
    } else {
        configured
    }
}

/// Whether the cursor shows after a tick. A cursor that blinks mid-typing is
/// distracting, so it stays on for a while after each key.
pub fn blink_tick(showing: bool, since_input: u64, interval: u64) -> (r: bool)
    ensures
        r == (since_input < interval || !showing),
{
    since_input < interval || !showing
}

/// How long a "does this path exist" answer is trusted, in nanoseconds.
/// Hover resolution runs on every mouse move with cmd held; stat on a
/// network volume is slow.
pub const EXISTS_TTL: u64 = 2_000_000_000;

/// An answer that is still trusted, from what was answered and how long ago.
pub fn trusted_answer(cached: Option<(bool, u64)>) -> (r: Option<bool>)
    ensures
        r == (match cached {
            None => None,
            Some((known, age)) => if age < EXISTS_TTL {
                Some(known)
            } else {
                None
            },
        }),
{
    match cached {
        None => None,
        Some((known, age)) => if age < EXISTS_TTL {
            Some(known)
        } else {
            None
        },
    }
}

/// Digits with a comma before each group of three from the right.
pub open spec fn grouped(s: Seq<char>) -> Seq<char>
    decreases s.len(),
{
    if s.len() <= 3 {
        s
    } else {
        grouped(s.take(s.len() - 3)) + ","@ + s.skip(s.len() - 3)
    }
}

fn group(s: &[char]) -> (r: Vec<char>)
    ensures
        r@ == grouped(s@),
    decreases s@.len(),
{
    let n = s.len();
    if n <= 3 {
        let mut r: Vec<char> = Vec::new();
        add_chars(&mut r, s);
        assert(r@ =~= s@);
        return r;
    }
    let mut r = group(head_of(s, n - 3));
    crate::text::add_text(&mut r, ",");
    add_chars(&mut r, tail_of(s, n - 3));
    r
}

/// `2340` → `2,340`.
pub fn group_thousands(n: usize) -> (r: String)
    ensures
        r@ == grouped(decimal(n as nat)),
{
    let mut digits = String::new();
    push_decimal(&mut digits, n as u64);
    assert(digits@ =~= decimal(n as nat));
    string_of(&group(&chars_of(digits.as_str())))
}

/// "N lines above": you're looking at history, and how far back.
pub fn scrolled_label(lines: usize) -> (r: String)
    ensures
        r@ == "▲ "@ + grouped(decimal(lines as nat)) + " lines above"@,
{
    let mut out = "▲ ".to_owned();
    out.push_str(group_thousands(lines).as_str());
    out.push_str(" lines above");
    out
}

/// What a pane says once its shell is gone.
pub fn exited_label(code: Option<i32>) -> (r: String)
    ensures
        r@ == (match code {
            None => "[process exited]"@,
            Some(c) => "[process exited with code "@ + signed_decimal(c as int) + "]"@,
        }) + " — press ⏎ to restart"@,
{
    let mut out = match code {
        None => "[process exited]".to_owned(),
        Some(c) => {
            let mut s = "[process exited with code ".to_owned();
            push_signed(&mut s, c);
            s.push_str("]");
            s
        },
    };
    out.push_str(" — press ⏎ to restart");
    out
}

/// How a command in the gutter ended.
#[derive(Debug, Clone, Copy, PartialEq, Eq, Structural)]
pub enum GutterState {
    Running,
    Failed,
    Done,
}

/// A tick in the failure gutter.
#[derive(Debug, Clone, Copy, PartialEq, Eq, Structural)]
pub struct GutterMark {
    pub id: u64,
    pub row: usize,
    pub state: GutterState,
}

/// How a command in the gutter ended.
pub open spec fn gutter_state(c: Cmd) -> GutterState {
    if c.finished is None {
        GutterState::Running
    } else if c.exit is Some && c.exit->0 != 0 {
        GutterState::Failed
    } else {
        GutterState::Done
    }
}

/// A tick per command whose prompt is known.
pub open spec fn ticks(v: Seq<Cmd>) -> Seq<GutterMark>
    decreases v.len(),
{
    if v.len() == 0 {
        Seq::empty()
    } else {
        let c = v.last();
        match c.prompt_row {
            None => ticks(v.drop_last()),
            Some(row) => ticks(v.drop_last()).push(
                GutterMark { id: c.id, row, state: gutter_state(c) },
            ),
        }
    }
}

/// The failure gutter: a tick per command down the right edge, placed by its
/// share of the whole buffer. Dim for success, red for failure, accent while
/// running.
pub fn gutter_marks(log: &CommandLog) -> (r: Vec<GutterMark>)
    ensures
        r@ == ticks(log@.entries),
{
    let entries = log.entries();
    let ghost all = cmds(entries@);
    let mut out: Vec<GutterMark> = Vec::new();
    let mut i: usize = 0;
    assert(all.take(0) =~= Seq::empty());
    assert(out@ =~= Seq::empty());
    while i < entries.len()
        invariant
            i <= entries.len(),
            all == cmds(entries@),
            out@ == ticks(all.take(i as int)),
        decreases entries.len() - i,
    {
        let c = &entries[i];
        assert(all.take(i + 1).drop_last() =~= all.take(i as int));
        assert(all.take(i + 1).last() == c@);
        if let Some(row) = c.prompt_row {
            let state = if c.finished.is_none() {
                GutterState::Running
            } else if c.failed() {
                GutterState::Failed
            } else {
                GutterState::Done
            };
            out.push(GutterMark { id: c.id, row, state });
        }
        i += 1;
    }
    assert(all.take(i as int) =~= all);
    out
}

/// Who gets a key.
#[derive(Debug, Clone, Copy, PartialEq, Eq, Structural)]
pub enum KeyRoute {
    Search,
    CopyMode,
    /// Start the shell again.
    Restart,
    Nobody,
    Shell,
}

/// Who gets a key: the search bar, else copy mode, else the shell. Once the
/// shell is gone, enter starts it again.
pub fn route_key(searching: bool, copying: bool, exited: bool, enter: bool) -> (r: KeyRoute)
    ensures
        r == (if searching {
            KeyRoute::Search
        } else if copying {
            KeyRoute::CopyMode
        } else if exited {
            if enter {
                KeyRoute::Restart
            } else {
                KeyRoute::Nobody
            }
        } else {
            KeyRoute::Shell
        }),
{
    if searching {
        KeyRoute::Search
    } else if copying {
        KeyRoute::CopyMode
    } else if exited {
        if enter {
            KeyRoute::Restart
        } else {
            KeyRoute::Nobody
        }
    } else {
        KeyRoute::Shell
    }
}

/// Whether the row of a key press is a prompt to jump back to: the row where
/// Enter was pressed is (about to be) a completed prompt line. Once the shell
/// integration's A markers are flowing they are the better source, and this
/// heuristic stands down.
pub fn marks_prompt(ks: &Keystroke, alt_screen: bool, markers_seen: bool) -> (r: bool)
    ensures
        r == (ks.key@ == "enter"@ && !(ks.modifiers.control || ks.modifiers.alt
            || ks.modifiers.shift || ks.modifiers.platform || ks.modifiers.function) && !alt_screen
            && !markers_seen),
{
    let m = &ks.modifiers;
    same(ks.key.as_str(), "enter") && !(m.control || m.alt || m.shift || m.platform || m.function)
        && !alt_screen && !markers_seen
}

/// What the terminal emulator reports.
#[derive(Debug)]
pub enum TermEvent {
    Wakeup,
    Title(String),
    ResetTitle,
    PtyWrite(String),
    ClipboardStore(String),
    ClipboardLoad,
    ColorRequest(usize),
    TextAreaSizeRequest,
    Bell,
    CursorBlinkingChange,
    MouseCursorDirty,
    ChildExit(Option<i32>),
    Exit,
}

/// What a pane does about it.
#[derive(Debug)]
pub enum PaneEffect {
    /// Repaint soon; however fast wake-ups arrive, at most once per tick.
    ScheduleRepaint,
    PollCwd,
    PollForeground,
    FirstOutput,
    SetTitle(String),
    /// Write to the shell.
    Write(Vec<u8>),
    Copy(String),
    /// Answer with what is on the clipboard.
    AnswerClipboard,
    AnswerColor { r: u8, g: u8, b: u8 },
    AnswerSize,
    Beep,
    Flash,
    ShowCursor,
    Exited(Option<i32>),
    DropSession,
}

/// An effect, as plain values.
pub ghost enum Effect {
    ScheduleRepaint,
    PollCwd,
    PollForeground,
    FirstOutput,
    SetTitle(Seq<char>),
    Write(Seq<u8>),
    Copy(Seq<char>),
    AnswerClipboard,
    AnswerColor { r: int, g: int, b: int },
    AnswerSize,
    Beep,
    Flash,
    ShowCursor,
    Exited(Option<i32>),
    DropSession,
}

impl View for PaneEffect {
    type V = Effect;

    open spec fn view(&self) -> Effect {
        match *self {
            PaneEffect::ScheduleRepaint => Effect::ScheduleRepaint,
            PaneEffect::PollCwd => Effect::PollCwd,
            PaneEffect::PollForeground => Effect::PollForeground,
            PaneEffect::FirstOutput => Effect::FirstOutput,
            PaneEffect::SetTitle(t) => Effect::SetTitle(t@),
            PaneEffect::Write(b) => Effect::Write(b@),
            PaneEffect::Copy(t) => Effect::Copy(t@),
            PaneEffect::AnswerClipboard => Effect::AnswerClipboard,
            PaneEffect::AnswerColor { r, g, b } => Effect::AnswerColor {
                r: r as int,
                g: g as int,
                b: b as int,
            },
            PaneEffect::AnswerSize => Effect::AnswerSize,
            PaneEffect::Beep => Effect::Beep,
            PaneEffect::Flash => Effect::Flash,
            PaneEffect::ShowCursor => Effect::ShowCursor,
            PaneEffect::Exited(code) => Effect::Exited(code),
            PaneEffect::DropSession => Effect::DropSession,
        }
    }
}

pub open spec fn effect_views(v: Seq<PaneEffect>) -> Seq<Effect> {
    v.map_values(|e: PaneEffect| e@)
}

/// What a pane does about an event of the emulator.
pub open spec fn effects(event: TermEvent, osc7_seen: bool, bell: BellMode, theme: Theme) -> Seq<
    Effect,
> {
    match event {
        // With OSC 7 live, the shell tells us; polling would only race it.
        TermEvent::Wakeup => if osc7_seen {
            seq![Effect::ScheduleRepaint, Effect::PollForeground, Effect::FirstOutput]
        } else {
            seq![
                Effect::ScheduleRepaint,
                Effect::PollCwd,
                Effect::PollForeground,
                Effect::FirstOutput,
            ]
        },
        TermEvent::Title(t) => seq![Effect::SetTitle(t@)],
        TermEvent::ResetTitle => seq![Effect::SetTitle("oxide"@)],
        // Device Attributes and cursor-position query responses; if these
        // are dropped, querying programs hang forever.
        TermEvent::PtyWrite(t) => seq![Effect::Write(encode_utf8(t@))],
        TermEvent::ClipboardStore(t) => seq![Effect::Copy(t@)],
        TermEvent::ClipboardLoad => seq![Effect::AnswerClipboard],
        TermEvent::ColorRequest(index) => {
            let c = queried(index as int, theme);
            seq![Effect::AnswerColor { r: byte_of(c.r), g: byte_of(c.g), b: byte_of(c.b) }]
        },
        TermEvent::TextAreaSizeRequest => seq![Effect::AnswerSize],
        TermEvent::Bell => match bell {
            BellMode::Silent => Seq::empty(),
            BellMode::Sound => seq![Effect::Beep],
            BellMode::Visual => seq![Effect::Flash],
        },
        TermEvent::CursorBlinkingChange => seq![Effect::ShowCursor],
        TermEvent::MouseCursorDirty => Seq::empty(),
        TermEvent::ChildExit(code) => seq![Effect::Exited(code)],
        TermEvent::Exit => seq![Effect::DropSession],
    }
}

/// What a pane does about an event of the emulator.
pub fn handle_event(event: TermEvent, osc7_seen: bool, bell: BellMode, theme: &Theme) -> (r: Vec<
    PaneEffect,
>)
    requires
        whole(*theme),
    ensures
        effect_views(r@) == effects(event, osc7_seen, bell, *theme),
{
    let mut r: Vec<PaneEffect> = Vec::new();
    let ghost e = event;
    match event {
        TermEvent::Wakeup => {
            r.push(PaneEffect::ScheduleRepaint);
            if !osc7_seen {
                r.push(PaneEffect::PollCwd);
            }
            r.push(PaneEffect::PollForeground);
            r.push(PaneEffect::FirstOutput);
        },
        TermEvent::Title(t) => {
            r.push(PaneEffect::SetTitle(t));
        },
        TermEvent::ResetTitle => {
            r.push(PaneEffect::SetTitle("oxide".to_owned()));
        },
        TermEvent::PtyWrite(t) => {
            r.push(PaneEffect::Write(t.as_str().as_bytes_vec()));
        },
        TermEvent::ClipboardStore(t) => {
            r.push(PaneEffect::Copy(t));
        },
        TermEvent::ClipboardLoad => {
            r.push(PaneEffect::AnswerClipboard);
        },
        TermEvent::ColorRequest(index) => {
            let color = color_request(index, theme);
            proof {
                lemma_queried_in_range(index as int, *theme);
            }
            let (red, green, blue) = hsla_to_rgb8(color);
            r.push(PaneEffect::AnswerColor { r: red, g: green, b: blue });
        },
        TermEvent::TextAreaSizeRequest => {
            r.push(PaneEffect::AnswerSize);
        },
        TermEvent::Bell => match bell {
            BellMode::Silent => {},
            BellMode::Sound => {
                r.push(PaneEffect::Beep);
            },
            BellMode::Visual => {
                r.push(PaneEffect::Flash);
            },
        },
        TermEvent::CursorBlinkingChange => {
            r.push(PaneEffect::ShowCursor);
        },
        TermEvent::MouseCursorDirty => {},
        TermEvent::ChildExit(code) => {
            r.push(PaneEffect::Exited(code));
        },
        TermEvent::Exit => {
            r.push(PaneEffect::DropSession);
        },
    }
    assert(effect_views(r@) =~= effects(e, osc7_seen, bell, *theme));
    r
}

proof fn lemma_queried_in_range(index: int, theme: Theme)
    ensures
        in_range(queried(index, theme)),
{
}

/// Going up and then down a prompt comes back no lower than the bottom, and
/// never past where it started.
pub proof fn lemma_prompt_up_moves_up(marks: Seq<usize>, history: int, offset: int)
    requires
        0 <= offset <= history,
    ensures
        prompt_above(marks, history, offset) matches Some(t) ==> offset < t <= history,
        prompt_below(marks, history, offset) matches Some(t) ==> 0 <= t < offset,
    decreases marks.len(),
{
    if marks.len() > 0 {
        lemma_prompt_up_moves_up(marks.drop_last(), history, offset);
        lemma_prompt_up_moves_up(marks.skip(1), history, offset);
    }
}

// --- What a pane tells and shows ---

/// The prompt above is the nearest one: it is one of the prompts, higher up
/// than what is shown, and no later prompt is.
pub proof fn lemma_prompt_above_is_nearest(marks: Seq<usize>, history: int, offset: int) -> (i: int)
    ensures
        match prompt_above(marks, history, offset) {
            None => forall|k: int|
                0 <= k < marks.len() ==> offset_of(#[trigger] marks[k] as int, history) <= offset,
            Some(t) => 0 <= i < marks.len() && offset_of(marks[i] as int, history) == t && t > offset
                && forall|k: int|
                i < k < marks.len() ==> offset_of(#[trigger] marks[k] as int, history) <= offset,
        },
    decreases marks.len(),
{
    if marks.len() == 0 {
        0
    } else if offset_of(marks.last() as int, history) > offset {
        marks.len() - 1
    } else {
        let d = marks.drop_last();
        let i = lemma_prompt_above_is_nearest(d, history, offset);
        assert forall|k: int|
            0 <= k < marks.len() && (prompt_above(marks, history, offset) is None || i
                < k) implies offset_of(#[trigger] marks[k] as int, history) <= offset by {
            if k < d.len() {
                assert(d[k] == marks[k]);
            }
        }
        i
    }
}

/// The prompt below is the nearest one: it is one of the prompts, lower down
/// than what is shown, and no earlier prompt is.
pub proof fn lemma_prompt_below_is_nearest(marks: Seq<usize>, history: int, offset: int) -> (i: int)
    ensures
        match prompt_below(marks, history, offset) {
            None => forall|k: int|
                0 <= k < marks.len() ==> offset_of(#[trigger] marks[k] as int, history) >= offset,
            Some(t) => 0 <= i < marks.len() && offset_of(marks[i] as int, history) == t && t < offset
                && forall|k: int|
                0 <= k < i ==> offset_of(#[trigger] marks[k] as int, history) >= offset,
        },
    decreases marks.len(),
{
    if marks.len() == 0 {
        0
    } else if offset_of(marks[0] as int, history) < offset {
        0
    } else {
        let d = marks.skip(1);
        let i = lemma_prompt_below_is_nearest(d, history, offset) + 1;
        assert forall|k: int|
            0 <= k < marks.len() && (prompt_below(marks, history, offset) is None || k
                < i) implies offset_of(#[trigger] marks[k] as int, history) >= offset by {
            if k > 0 {
                assert(d[k - 1] == marks[k]);
            }
        }
        i
    }
}

/// A row is shown at the top of the screen once the view is scrolled back by
/// as many rows as lie between it and the live screen.
pub proof fn lemma_rows_are_shown(row: int, history: int)
    requires
        0 <= row,
        0 <= history,
    ensures
        row < history ==> row + offset_of(row, history) == history,
        row >= history ==> offset_of(row, history) == 0,
{
}

/// A program is heard once and then not again for three seconds, and not at
/// all where notifications are off.
pub proof fn lemma_notifications_are_spaced(
    t: Track,
    title: Option<Seq<char>>,
    body: Seq<char>,
    s: MarkerSettings,
    first: u64,
    then: u64,
    row: usize,
    column: usize,
    alt: bool,
)
    requires
        t.last_program_notify is None,
        first <= then,
    ensures
        ({
            let mark = Mark::Notify { title, body };
            let a = t.marked(mark, row, column, alt, s, first);
            let b = a.track.marked(mark, row, column, alt, s, then);
            &&& !s.notify ==> a.news is Quiet && a.track == t
            &&& s.notify ==> a.news == (News::Notify { title, body })
            &&& s.notify && then - first < 3_000_000_000 ==> b.news is Quiet
            &&& s.notify && then - first >= 3_000_000_000 ==> b.news == (News::Notify { title, body })
        }),
{
}

/// A pane is where the shell last said, and tells it only when it has moved.
pub proof fn lemma_cwd_is_told_once(
    t: Track,
    path: Seq<char>,
    s: MarkerSettings,
    row: usize,
    column: usize,
    alt: bool,
    now: u64,
)
    ensures
        ({
            let a = t.marked(Mark::Cwd(path), row, column, alt, s, now);
            let b = a.track.marked(Mark::Cwd(path), row, column, alt, s, now);
            &&& a.track.cwd == Some(path)
            &&& a.track.log.cwd == Some(path)
            &&& a.track.osc7_seen
            &&& t.cwd != Some(path) ==> a.news == News::CwdChanged(path)
            &&& b.news is Quiet
            &&& b.track.cwd == Some(path)
        }),
{
}

/// When a command ends, the pane tells its name, its status and how long it
/// ran.
pub proof fn lemma_endings_are_told(
    t: Track,
    exit: Option<int>,
    row: usize,
    column: usize,
    s: MarkerSettings,
    now: u64,
)
    requires
        orderly(t.log),
        t.log.running is Some,
        s.track,
        t.log.entries.last().started <= now,
    ensures
        ({
            let c = t.log.entries.last();
            t.marked(Mark::CommandEnd { exit }, row, column, false, s, now).news == (
            News::Finished {
                label: command_label(c.text),
                exit: match exit {
                    None => None,
                    Some(x) => Some(x as i32),
                },
                duration: now - c.started,
            })
        }),
{
    let log = t.log;
    lemma_a_command_ends(log, exit, row, now);
    let after = noted(log, Mark::CommandEnd { exit }, row, false, now).0;
    let n = log.entries.len() - 1;
    assert(after.entries[n].id == log.entries[n].id) by {
        lemma_find_last(log.entries, log.running->0);
    }
    assert forall|i: int, j: int| 0 <= i < j < after.entries.len() implies (
    #[trigger] after.entries[i]).id < (#[trigger] after.entries[j]).id by {
        assert(log.entries[i].id < log.entries[j].id);
    }
    lemma_find_last(after.entries, log.running->0);
    lemma_find_last(log.entries, log.running->0);
}

/// A number's digits in groups are the digits: taking the commas away gives
/// them back, and the last group has three of them.
pub proof fn lemma_groups_are_the_digits(s: Seq<char>)
    requires
        !s.contains(','),
    ensures
        replaced(grouped(s), ',', Seq::empty()) == s,
        s.len() > 3 ==> grouped(s).len() > 4 && grouped(s)[grouped(s).len() - 4] == ','
            && grouped(s).skip(grouped(s).len() - 3) == s.skip(s.len() - 3),
    decreases s.len(),
{
    reveal_strlit(",");
    if s.len() <= 3 {
        lemma_no_commas(s);
    } else {
        let head = s.take(s.len() - 3);
        let tail = s.skip(s.len() - 3);
        assert(!head.contains(',')) by {
            if head.contains(',') {
                let k = choose|k: int| 0 <= k < head.len() && head[k] == ',';
                assert(s[k] == ',');
            }
        }
        assert(!tail.contains(',')) by {
            if tail.contains(',') {
                let k = choose|k: int| 0 <= k < tail.len() && tail[k] == ',';
                assert(s[k + s.len() - 3] == ',');
            }
        }
        lemma_groups_are_the_digits(head);
        let g = grouped(head);
        let none = Seq::<char>::empty();
        lemma_replaced_joined(g + ","@, tail, ',', none);
        lemma_replaced_joined(g, ","@, ',', none);
        lemma_no_commas(tail);
        assert(","@.drop_last() =~= none);
        assert(replaced(none, ',', none) =~= none);
        assert(replaced(","@, ',', none) =~= none);
        assert(grouped(s) == g + ","@ + tail);
        assert(head + none + tail =~= s);
        assert(grouped(s).skip(grouped(s).len() - 3) =~= tail);
        lemma_grouped_some(head);
    }
}

proof fn lemma_grouped_some(s: Seq<char>)
    ensures
        grouped(s).len() >= s.len(),
    decreases s.len(),
{
    if s.len() > 3 {
        lemma_grouped_some(s.take(s.len() - 3));
    }
}

proof fn lemma_no_commas(s: Seq<char>)
    requires
        !s.contains(','),
    ensures
        replaced(s, ',', Seq::empty()) == s,
    decreases s.len(),
{
    if s.len() > 0 {
        assert(s[s.len() - 1] == s.last());
        let d = s.drop_last();
        assert(!d.contains(',')) by {
            if d.contains(',') {
                let k = choose|k: int| 0 <= k < d.len() && d[k] == ',';
                assert(s[k] == ',');
            }
        }
        lemma_no_commas(d);
        assert(d.push(s.last()) =~= s);
    }
}

/// A tick shows a running command as running, and one that has ended as
/// failed exactly where its status says so.
pub proof fn lemma_tick_states(c: Cmd)
    ensures
        gutter_state(c) == GutterState::Running <==> c.finished is None,
        gutter_state(c) == GutterState::Failed <==> c.finished is Some && (c.exit matches Some(n)
            && n != 0),
{
}

/// There is a tick for each command whose prompt is known, in order, where
/// its prompt is.
pub proof fn lemma_ticks(v: Seq<Cmd>, c: Cmd)
    ensures
        c.prompt_row matches Some(row) ==> ticks(v.push(c)) == ticks(v).push(
            GutterMark { id: c.id, row, state: gutter_state(c) },
        ),
        c.prompt_row is None ==> ticks(v.push(c)) == ticks(v),
        ticks(Seq::empty()) == Seq::<GutterMark>::empty(),
{
    assert(v.push(c).drop_last() =~= v);
}

/// A copied block is the command behind a prompt sign and then its output,
/// each on lines of its own.
pub proof fn lemma_copied_blocks(text: Seq<char>, output: Seq<char>)
    ensures
        block_text(Some(text), Some(output)) == "$ "@ + text + "\n"@ + output + "\n"@,
        block_text(Some(text), None) == "$ "@ + text + "\n"@,
        block_text(None, Some(output)) == output + "\n"@,
{
    reveal_strlit("");
    assert(block_text(Some(text), Some(output)) =~= "$ "@ + text + "\n"@ + output + "\n"@);
    assert(block_text(Some(text), None) =~= "$ "@ + text + "\n"@);
    assert(block_text(None, Some(output)) =~= output + "\n"@);
}

/// The output of a command that is all in the buffer is its rows, from the
/// first cell to the last.
pub proof fn lemma_output_is_its_rows(r: Rows, lines: GridLines)
    requires
        r.start < r.end,
        lines.topmost <= r.start - lines.history,
        r.end - 1 - lines.history <= lines.bottommost,
    ensures
        output_lines(Some(r), lines) matches Some(s) && s.start.line + lines.history == r.start
            && s.start.column == 0 && s.end.line + lines.history + 1 == r.end && s.end.column
            == lines.last_column,
        output_lines(None, lines) is None,
{
}

/// The wheel's arrow keys are those of the keyboard: up scrolls up.
pub proof fn lemma_wheel_keys()
    ensures
        wheel_key(true, false) == seq![0x1bu8, 0x5b, 0x41],
        wheel_key(false, false) == seq![0x1bu8, 0x5b, 0x42],
        wheel_key(true, true) == seq![0x1bu8, 0x4f, 0x41],
        wheel_key(false, true) == seq![0x1bu8, 0x4f, 0x42],
{
}

/// A mouse report counts columns and rows from one, adds 4 for shift, 8 for
/// alt and 16 for control to the button, and ends in a capital letter for a
/// press and a small one for a release.
pub proof fn lemma_mouse_reports(button: int, col: int, row: int, pressed: bool, m: Modifiers)
    requires
        0 <= button < 96,
        0 <= col < 223,
        0 <= row < 223,
    ensures
        ({
            let b = button + (if m.shift {
                4int
            } else {
                0
            }) + (if m.alt {
                8int
            } else {
                0
            }) + (if m.control {
                16int
            } else {
                0
            });
            &&& report_bytes(button, col, row, pressed, m, true) == encode_utf8(
                "\x1b[<"@ + decimal(b as nat) + ";"@ + decimal((col + 1) as nat) + ";"@ + decimal(
                    (row + 1) as nat,
                ) + (if pressed {
                    "M"@
                } else {
                    "m"@
                }),
            )
            &&& report_bytes(button, col, row, pressed, m, false) == seq![
                0x1bu8,
                0x5b,
                0x4d,
                (if pressed {
                    32 + b
                } else {
                    35
                }) as u8,
                (32 + col + 1) as u8,
                (32 + row + 1) as u8,
            ]
        }),
{
}

/// What programs ask the terminal for is answered: a title is set, a query's
/// answer written back, a copy copied, and the bell rung as the settings say.
pub proof fn lemma_events_are_answered(osc7: bool, bell: BellMode, theme: Theme, text: String)
    ensures
        effects(TermEvent::Title(text), osc7, bell, theme) == seq![Effect::SetTitle(text@)],
        effects(TermEvent::PtyWrite(text), osc7, bell, theme) == seq![
            Effect::Write(encode_utf8(text@)),
        ],
        effects(TermEvent::ClipboardStore(text), osc7, bell, theme) == seq![Effect::Copy(text@)],
        effects(TermEvent::Bell, osc7, BellMode::Silent, theme) == Seq::<Effect>::empty(),
        effects(TermEvent::Bell, osc7, BellMode::Sound, theme) == seq![Effect::Beep],
        effects(TermEvent::Bell, osc7, BellMode::Visual, theme) == seq![Effect::Flash],
        effects(TermEvent::Wakeup, osc7, bell, theme).contains(Effect::PollCwd) <==> !osc7,
        effects(TermEvent::Wakeup, osc7, bell, theme)[0] == Effect::ScheduleRepaint,
{
    let e = effects(TermEvent::Wakeup, osc7, bell, theme);
    if !osc7 {
        assert(e[1] == Effect::PollCwd);
    } else {
        assert(e[0] == Effect::ScheduleRepaint && e[1] == Effect::PollForeground && e[2]
            == Effect::FirstOutput);
    }
}

// --- What the pane's decisions mean ---

/// A press with the platform key opens what is under it. Without shift a
/// program that watches the mouse gets it. Otherwise one click selects
/// freely, two a word, and more a line.
pub proof fn lemma_presses(shift: bool, mode: TermMode, clicks: usize, r: Press)
    ensures
        call_ensures(on_press, (true, shift, &mode, clicks), r) ==> r is Open,
        mode.mouse() && call_ensures(on_press, (false, false, &mode, clicks), r) ==> r is Report,
        call_ensures(on_press, (false, true, &mode, 1usize), r) ==> r == Press::Select(
            crate::terminal::vi::SelectionKind::Simple,
        ),
        call_ensures(on_press, (false, true, &mode, 2usize), r) ==> r == Press::Select(
            crate::terminal::vi::SelectionKind::Semantic,
        ),
        clicks > 2 && call_ensures(on_press, (false, true, &mode, clicks), r) ==> r
            == Press::Select(crate::terminal::vi::SelectionKind::Lines),
        !mode.mouse() && call_ensures(on_press, (false, shift, &mode, 1usize), r) ==> r
            == Press::Select(crate::terminal::vi::SelectionKind::Simple),
{
}

/// Keys go to the search bar, then to copy mode, then to the shell; where the
/// shell is gone, enter starts it again and no other key does anything.
pub proof fn lemma_key_routes(copying: bool, exited: bool, enter: bool, r: KeyRoute)
    ensures
        call_ensures(route_key, (true, copying, exited, enter), r) ==> r is Search,
        call_ensures(route_key, (false, true, exited, enter), r) ==> r is CopyMode,
        call_ensures(route_key, (false, false, true, true), r) ==> r is Restart,
        call_ensures(route_key, (false, false, true, false), r) ==> r is Nobody,
        call_ensures(route_key, (false, false, false, enter), r) ==> r is Shell,
{
}

/// Work is done at most once per interval: now if one has passed, and
/// otherwise once, when the rest of it has.
pub proof fn lemma_throttling(elapsed: u64, interval: u64, r: PollStep)
    ensures
        elapsed >= interval && call_ensures(throttle, (elapsed, interval, false), r) ==> r is Now,
        elapsed >= interval && call_ensures(throttle, (elapsed, interval, true), r) ==> r is Now,
        elapsed < interval && call_ensures(throttle, (elapsed, interval, true), r) ==> r is Wait,
        elapsed < interval && call_ensures(throttle, (elapsed, interval, false), r) ==> (
        r matches PollStep::Later(d) && elapsed + d == interval),
{
}

/// The cursor changes no faster than ten times a second and no slower than
/// once in five; it stays on while there is typing.
pub proof fn lemma_blinking(configured: u64, showing: bool, since: u64, r: u64, on: bool)
    ensures
        call_ensures(blink_interval, (configured,), r) ==> 100 <= r <= 5000,
        100 <= configured <= 5000 && call_ensures(blink_interval, (configured,), r) ==> r
            == configured,
        since < r && call_ensures(blink_tick, (showing, since, r), on) ==> on,
        since >= r && call_ensures(blink_tick, (showing, since, r), on) ==> on == !showing,
{
}

/// What is typed at a prompt is kept without the white space around it, and
/// output without the white space behind it; nothing is no text.
pub proof fn lemma_kept_texts(text: &str, r: Option<String>)
    ensures
        tight(text@) && text@.len() > 0 && call_ensures(typed_text, (text,), r) ==> (r matches Some(
            t,
        ) && t@ == text@),
        text@.len() == 0 && call_ensures(typed_text, (text,), r) ==> r is None,
        text@.len() > 0 && !whitespace(text@.last()) && call_ensures(output_text, (text,), r) ==> (
        r matches Some(t) && t@ == text@),
        text@.len() == 0 && call_ensures(output_text, (text,), r) ==> r is None,
{
    if tight(text@) {
        lemma_trim_tight(text@);
    }
}

/// A program's own notifications pass where both they and notifications are
/// wanted.
pub proof fn lemma_passing_notifications(config: NotificationsConfig, r: bool)
    requires
        call_ensures(passes_notifications, (&config,), r),
    ensures
        r <==> config.enabled && config.passthrough_osc9,
{
}

/// Only a bare enter at a shell that sends no markers of its own marks a
/// prompt.
pub proof fn lemma_prompts_marked_by_hand(ks: Keystroke, r: bool)
    ensures
        ks.key@ == "enter"@ && !ks.modifiers.any() && call_ensures(
            marks_prompt,
            (&ks, false, false),
            r,
        ) ==> r,
        ks.modifiers.any() && call_ensures(marks_prompt, (&ks, false, false), r) ==> !r,
        ks.key@ != "enter"@ && call_ensures(marks_prompt, (&ks, false, false), r) ==> !r,
        call_ensures(marks_prompt, (&ks, true, false), r) ==> !r,
        call_ensures(marks_prompt, (&ks, false, true), r) ==> !r,
{
}

/// A wheel turned up scrolls back by as many lines, or sends as many arrow
/// keys or reports of button four; one turned down the other way.
pub proof fn lemma_wheels(lines: i32, mode: TermMode, r: WheelAction)
    requires
        lines != 0,
        lines > i32::MIN,
    ensures
        !mode.alt_screen && !mode.mouse() && call_ensures(wheel, (lines, &mode, false), r) ==> r
            == WheelAction::Scroll(lines),
        !mode.alt_screen && mode.mouse() && call_ensures(wheel, (lines, &mode, true), r) ==> r
            == WheelAction::Scroll(lines),
        !mode.alt_screen && mode.mouse() && call_ensures(wheel, (lines, &mode, false), r) ==> (
        r matches WheelAction::Report { button, times } && button == (if lines > 0 {
            64int
        } else {
            65
        }) && times == (if lines > 0 {
            lines as int
        } else {
            -lines
        })),
        mode.alt_screen && mode.alternate_scroll && call_ensures(wheel, (lines, &mode, false), r)
            ==> r is Keys,
{
}

/// A path below the directory that the shell is in is typed from there on,
/// unless the whole path is asked for.
pub proof fn lemma_typed_paths(ns: Seq<Seq<char>>, ms: Seq<Seq<char>>, path: Seq<char>, cwd: Seq<char>)
    requires
        ns.len() > 0,
        ms.len() > 0,
        forall|i: int| 0 <= i < ns.len() ==> crate::path::a_name(#[trigger] ns[i]),
        forall|i: int| 0 <= i < ms.len() ==> crate::path::a_name(#[trigger] ms[i]),
    ensures
        path_text(
            seq!['/'] + join(ns + ms, seq!['/']),
            Some(seq!['/'] + join(ns, seq!['/'])),
            false,
        ) == join(ms, seq!['/']),
        path_text(path, Some(cwd), true) == path,
        path_text(path, None, false) == path,
        !within(path, cwd) ==> path_text(path, Some(cwd), false) == path,
{
    crate::path::lemma_below_a_root(ns, ms);
    if ms.len() == 1 {
        assert(crate::path::a_name(ms[0]));
    } else {
        let t = join(ms.drop_last(), seq!['/']) + seq!['/'];
        assert(t.len() > 0);
    }
    assert(join(ms, seq!['/']).len() > 0);
}

/// What was typed lies between where the prompt left the cursor and the row
/// before the output.
pub proof fn lemma_typed_spans(row: usize, column: usize, command_row: int, lines: GridLines)
    ensures
        typed_span(Some((row, column)), command_row, lines) matches Some(s) ==> (s.start.line
            + lines.history == row && s.start.column == column && s.end.line + lines.history
            == command_row - 1 && s.end.column == lines.last_column),
        typed_span(None, command_row, lines) is None,
        row >= command_row ==> typed_span(Some((row, column)), command_row, lines) is None,
{
}

} // verus!
