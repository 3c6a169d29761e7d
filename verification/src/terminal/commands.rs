//! The per-pane command log: what ran, where, how long it took, and how it
//! ended, built from the OSC 133 markers the shell integration emits.
//!
//! Times are nanoseconds since a moment of the caller's choosing.
use vstd::prelude::*;

use crate::terminal::osc::{text_of, Mark, Marker, MarkerKind};
use crate::text::{
    all_digits, before_char, chars_of, cut_at, decimal, digit_char, digits_value,
    lemma_cut_at_first, push_decimal, string_of, trim, trim_chars, trimmed,
};

verus! {

/// A range of absolute grid rows, the end left out.
#[derive(Debug, Clone, Copy, PartialEq, Eq, Structural)]
pub struct Rows {
    pub start: usize,
    pub end: usize,
}

#[derive(Debug, Clone, PartialEq)]
pub struct Command {
    pub id: u64,
    /// The typed command line, when the shell sent it or the grid gave it up.
    pub text: Option<String>,
    pub cwd: Option<String>,
    pub started: u64,
    pub finished: Option<u64>,
    pub exit: Option<i32>,
    /// Absolute grid row of the prompt this command was typed at.
    pub prompt_row: Option<usize>,
    /// Absolute grid rows of the command's output: from the line after the
    /// command line to the line the next prompt starts on.
    pub output_rows: Option<Rows>,
}

/// The text and times of a command.
pub struct Cmd {
    pub id: u64,
    pub text: Option<Seq<char>>,
    pub cwd: Option<Seq<char>>,
    pub started: u64,
    pub finished: Option<u64>,
    pub exit: Option<i32>,
    pub prompt_row: Option<usize>,
    pub output_rows: Option<Rows>,
}

impl View for Command {
    type V = Cmd;

    open spec fn view(&self) -> Cmd {
        Cmd {
            id: self.id,
            text: text_of(self.text),
            cwd: text_of(self.cwd),
            started: self.started,
            finished: self.finished,
            exit: self.exit,
            prompt_row: self.prompt_row,
            output_rows: self.output_rows,
        }
    }
}

/// The commands of a list.
pub open spec fn cmds(v: Seq<Command>) -> Seq<Cmd> {
    v.map_values(|c: Command| c@)
}

/// A copy of an optional text.
pub fn copy_text(s: &Option<String>) -> (r: Option<String>)
    ensures
        text_of(r) == text_of(*s),
{
    match s {
        None => None,
        Some(s) => Some(s.clone()),
    }
}

/// A command's first line, trimmed; a stand-in where there is none.
pub open spec fn command_label(text: Option<Seq<char>>) -> Seq<char> {
    match text {
        None => "command"@,
        Some(t) => if t.len() == 0 {
            "command"@
        } else {
            trim(before_char(t, '\n'))
        },
    }
}

impl Command {
    /// How long the command ran, or has been running at `now`.
    pub fn duration(&self, now: u64) -> (d: u64)
        ensures
            ({
                let end = match self.finished {
                    None => now,
                    Some(t) => t,
                };
                d == if end > self.started {
                    end - self.started
                } else {
                    0
                }
            }),
    {
        let end = match self.finished {
            None => now,
            Some(t) => t,
        };
        end.saturating_sub(self.started)
    }

    /// Whether the command ended with a status other than 0.
    pub fn failed(&self) -> (r: bool)
        ensures
            r == (self.exit matches Some(e) && e != 0),
    {
        match self.exit {
            None => false,
            Some(e) => e != 0,
        }
    }

    /// First line of the command, trimmed, for one-line UI.
    pub fn label(&self) -> (r: String)
        ensures
            r@ == command_label(self@.text),
    {
        match &self.text {
            None => "command".to_owned(),
            Some(t) => {
                if t.as_str().is_empty() {
                    "command".to_owned()
                } else {
                    let (line, _) = cut_at(&chars_of(t.as_str()), '\n');
                    string_of(&trim_chars(&line))
                }
            },
        }
    }

    fn copy(&self) -> (r: Command)
        ensures
            r@ == self@,
    {
        Command {
            id: self.id,
            text: copy_text(&self.text),
            cwd: copy_text(&self.cwd),
            started: self.started,
            finished: self.finished,
            exit: self.exit,
            prompt_row: self.prompt_row,
            output_rows: self.output_rows,
        }
    }
}

/// What a marker changed, for the pane to react to.
#[derive(Debug, Clone, Copy, PartialEq, Eq, Structural)]
pub enum LogEvent {
    Started(u64),
    Finished(u64),
}

#[derive(Debug)]
pub struct CommandLog {
    entries: Vec<Command>,
    cap: usize,
    next_id: u64,
    running: Option<u64>,
    /// Row of the most recent prompt start, attached to the next command.
    last_prompt_row: Option<usize>,
    /// Latest cwd the shell reported; commands inherit it.
    pub cwd: Option<String>,
    /// Whether any marker has arrived: the signal that integration is live
    /// and the Enter-key heuristics can stand down.
    pub markers_seen: bool,
}

/// The contents of a command log.
pub struct Log {
    pub entries: Seq<Cmd>,
    pub cap: usize,
    pub next_id: u64,
    pub running: Option<u64>,
    pub last_prompt_row: Option<usize>,
    pub cwd: Option<Seq<char>>,
    pub markers_seen: bool,
}

impl View for CommandLog {
    type V = Log;

    closed spec fn view(&self) -> Log {
        Log {
            entries: cmds(self.entries@),
            cap: self.cap,
            next_id: self.next_id,
            running: self.running,
            last_prompt_row: self.last_prompt_row,
            cwd: text_of(self.cwd),
            markers_seen: self.markers_seen,
        }
    }
}

/// The place of the first command with an id, or the number of commands.
pub open spec fn find_id(s: Seq<Cmd>, id: u64) -> nat
    decreases s.len(),
{
    if s.len() == 0 || s[0].id == id {
        0
    } else {
        1 + find_id(s.skip(1), id)
    }
}

/// The first command with an id.
pub open spec fn entry_of(s: Seq<Cmd>, id: u64) -> Option<Cmd> {
    if find_id(s, id) < s.len() {
        Some(s[find_id(s, id) as int])
    } else {
        None
    }
}

/// The last command that has finished.
pub open spec fn last_done(s: Seq<Cmd>) -> Option<Cmd>
    decreases s.len(),
{
    if s.len() == 0 {
        None
    } else if s.last().finished is Some {
        Some(s.last())
    } else {
        last_done(s.drop_last())
    }
}

/// The rows of a command's output once it ends on `row`.
pub open spec fn closed_rows(r: Option<Rows>, row: usize) -> Option<Rows> {
    match r {
        None => None,
        Some(r) => Some(
            Rows {
                start: r.start,
                end: if row > r.start {
                    row
                } else {
                    r.start
                },
            },
        ),
    }
}

/// A command that ends at `now` on `row`.
pub open spec fn ended(c: Cmd, now: u64, row: usize, exit: Option<i32>) -> Cmd {
    Cmd { finished: Some(now), exit, output_rows: closed_rows(c.output_rows, row), ..c }
}

/// The commands with the running one ended.
pub open spec fn with_ended(
    s: Seq<Cmd>,
    id: u64,
    now: u64,
    row: usize,
    exit: Option<i32>,
) -> Seq<Cmd> {
    let i = find_id(s, id) as int;
    if i < s.len() {
        s.update(i, ended(s[i], now, row, exit))
    } else {
        s
    }
}

/// The log after a marker, and what it changed.
pub open spec fn noted(
    log: Log,
    mark: Mark,
    row: usize,
    alt_screen: bool,
    now: u64,
) -> (Log, Option<LogEvent>) {
    let seen = Log { markers_seen: true, ..log };
    if alt_screen {
        // A full-screen program is drawing; rows mean nothing here.
        (seen, None)
    } else {
        match mark {
            Mark::PromptStart => (
                Log {
                    last_prompt_row: Some(row),
                    running: None,
                    entries: match log.running {
                        None => log.entries,
                        // Its end never came: close it without a status.
                        Some(id) => with_ended(
                            log.entries,
                            id,
                            now,
                            row,
                            match entry_of(log.entries, id) {
                                None => None,
                                Some(c) => c.exit,
                            },
                        ),
                    },
                    ..seen
                },
                None,
            ),
            Mark::InputStart => (seen, None),
            Mark::CommandStart { cmdline } => {
                let all = log.entries.push(
                    Cmd {
                        id: log.next_id,
                        text: cmdline,
                        cwd: log.cwd,
                        started: now,
                        finished: None,
                        exit: None,
                        prompt_row: log.last_prompt_row,
                        output_rows: Some(Rows { start: row, end: row }),
                    },
                );
                (
                    Log {
                        entries: if all.len() > log.cap {
                            all.skip(all.len() - log.cap)
                        } else {
                            all
                        },
                        next_id: (log.next_id + 1) as u64,
                        running: Some(log.next_id),
                        last_prompt_row: None,
                        ..seen
                    },
                    Some(LogEvent::Started(log.next_id)),
                )
            },
            Mark::CommandEnd { exit } => match log.running {
                None => (seen, None),
                Some(id) => if find_id(log.entries, id) < log.entries.len() {
                    (
                        Log {
                            running: None,
                            entries: with_ended(
                                log.entries,
                                id,
                                now,
                                row,
                                match exit {
                                    None => None,
                                    Some(n) => Some(n as i32),
                                },
                            ),
                            ..seen
                        },
                        Some(LogEvent::Finished(id)),
                    )
                } else {
                    (Log { running: None, ..seen }, None)
                },
            },
            Mark::Cwd(path) => (Log { cwd: Some(path), ..seen }, None),
            Mark::Notify { .. } => (seen, None),
        }
    }
}

/// The commands with nothing pointing at rows.
pub open spec fn rowless(s: Seq<Cmd>) -> Seq<Cmd> {
    s.map_values(|c: Cmd| Cmd { prompt_row: None, output_rows: None, ..c })
}

/// The commands after a text was offered for one of them: it only fills a
/// gap.
pub open spec fn with_text(s: Seq<Cmd>, id: u64, text: Seq<char>) -> Seq<Cmd> {
    let i = find_id(s, id) as int;
    if i < s.len() && s[i].text is None && trim(text).len() > 0 {
        s.update(i, Cmd { text: Some(text), ..s[i] })
    } else {
        s
    }
}

/// A log in order: ids rise, the next one is above them all, there are no
/// more entries than the cap allows, and the command that runs is the newest
/// and has not finished.
pub open spec fn orderly(log: Log) -> bool {
    &&& log.cap >= 1
    &&& log.entries.len() <= log.cap
    &&& forall|i: int, j: int|
        0 <= i < j < log.entries.len() ==> (#[trigger] log.entries[i]).id < (
        #[trigger] log.entries[j]).id
    &&& forall|i: int| 0 <= i < log.entries.len() ==> (#[trigger] log.entries[i]).id < log.next_id
    &&& log.running matches Some(id) ==> log.entries.len() > 0 && log.entries.last().id == id
        && log.entries.last().finished is None
}

impl CommandLog {
    pub fn new(cap: usize) -> (log: Self)
        ensures
            log@ == (Log {
                entries: Seq::empty(),
                cap: if cap > 1 {
                    cap
                } else {
                    1
                },
                next_id: 1,
                running: None,
                last_prompt_row: None,
                cwd: None,
                markers_seen: false,
            }),
            orderly(log@),
    {
        let entries: Vec<Command> = Vec::new();
        assert(cmds(entries@) =~= Seq::<Cmd>::empty());
        CommandLog {
            entries,
            cap: if cap > 1 {
                cap
            } else {
                1
            },
            next_id: 1,
            running: None,
            last_prompt_row: None,
            cwd: None,
            markers_seen: false,
        }
    }

    /// The commands, oldest first.
    pub fn entries(&self) -> (r: &Vec<Command>)
        ensures
            cmds(r@) == self@.entries,
    {
        &self.entries
    }

    pub fn is_empty(&self) -> (r: bool)
        ensures
            r == (self@.entries.len() == 0),
    {
        self.entries.len() == 0
    }

    fn index_of(&self, id: u64) -> (n: usize)
        ensures
            n == find_id(self@.entries, id),
            n <= self.entries.len(),
    {
        let ghost all = cmds(self.entries@);
        assert(all.skip(0) =~= all);
        let mut i: usize = 0;
        while i < self.entries.len()
            invariant
                i <= self.entries.len(),
                all == cmds(self.entries@),
                find_id(all, id) == i + find_id(all.skip(i as int), id),
            decreases self.entries.len() - i,
        {
            assert(all.skip(i as int)[0] == self.entries@[i as int]@);
            assert(all.skip(i as int).skip(1) =~= all.skip(i + 1));
            if self.entries[i].id == id {
                return i;
            }
            i += 1;
        }
        i
    }

    /// The command with an id.
    pub fn get(&self, id: u64) -> (r: Option<&Command>)
        ensures
            match r {
                None => entry_of(self@.entries, id) is None,
                Some(c) => entry_of(self@.entries, id) == Some(c@),
            },
    {
        let i = self.index_of(id);
        if i < self.entries.len() {
            assert(self@.entries[i as int] == self.entries@[i as int]@);
            Some(&self.entries[i])
        } else {
            None
        }
    }

    /// The command with an id, to change it in place.
    pub fn get_mut(&mut self, id: u64) -> (r: Option<&mut Command>)
        ensures
            match r {
                None => entry_of(old(self)@.entries, id) is None && final(self)@ == old(self)@,
                Some(c) => entry_of(old(self)@.entries, id) == Some((*c)@) && final(self)@ == (Log {
                    entries: old(self)@.entries.update(
                        find_id(old(self)@.entries, id) as int,
                        (*final(c))@,
                    ),
                    ..old(self)@
                }),
            },
    {
        let i = self.index_of(id);
        if i < self.entries.len() {
            let ghost before = self.entries@;
            assert(self@.entries[i as int] == before[i as int]@);
            proof {
                assert forall|c: Command| #[trigger]
                    cmds(before.update(i as int, c)) == cmds(before).update(i as int, c@) by {
                    assert(cmds(before.update(i as int, c)) =~= cmds(before).update(i as int, c@));
                }
            }
            Some(&mut self.entries[i])
        } else {
            None
        }
    }

    /// The command currently executing, if any.
    pub fn running(&self) -> (r: Option<&Command>)
        ensures
            match r {
                None => self@.running matches Some(id) ==> entry_of(self@.entries, id) is None,
                Some(c) => self@.running matches Some(id) && entry_of(self@.entries, id) == Some(
                    c@,
                ),
            },
    {
        match self.running {
            None => None,
            Some(id) => self.get(id),
        }
    }

    pub fn is_running(&self) -> (r: bool)
        ensures
            r == (self@.running is Some),
    {
        self.running.is_some()
    }

    /// The most recent command that has finished.
    pub fn last_finished(&self) -> (r: Option<&Command>)
        ensures
            match r {
                None => last_done(self@.entries) is None,
                Some(c) => last_done(self@.entries) == Some(c@),
            },
    {
        let ghost all = cmds(self.entries@);
        assert(all.take(all.len() as int) =~= all);
        let mut n: usize = self.entries.len();
        while n > 0
            invariant
                n <= self.entries.len(),
                all == cmds(self.entries@),
                last_done(all) == last_done(all.take(n as int)),
            decreases n,
        {
            assert(all.take(n as int).last() == self.entries@[n - 1]@);
            assert(all.take(n as int).drop_last() =~= all.take(n - 1));
            if self.entries[n - 1].finished.is_some() {
                return Some(&self.entries[n - 1]);
            }
            n -= 1;
        }
        None
    }

    /// The grid was cleared: every stored row now points at nothing. Keep
    /// the entries (history search still wants them) but drop the rows.
    pub fn forget_rows(&mut self)
        ensures
            final(self)@ == (Log {
                entries: rowless(old(self)@.entries),
                last_prompt_row: None,
                ..old(self)@
            }),
    {
        let ghost start = self.entries@;
        let mut kept: Vec<Command> = Vec::new();
        let mut i: usize = 0;
        while i < self.entries.len()
            invariant
                *self == *old(self),
                start == self.entries@,
                i == kept.len() <= self.entries.len(),
                forall|k: int|
                    0 <= k < i ==> (#[trigger] kept@[k])@ == (Cmd {
                        prompt_row: None,
                        output_rows: None,
                        ..start[k]@
                    }),
            decreases self.entries.len() - i,
        {
            let mut c = self.entries[i].copy();
            c.prompt_row = None;
            c.output_rows = None;
            kept.push(c);
            i += 1;
        }
        assert(cmds(kept@) =~= rowless(cmds(start)));
        self.entries = kept;
        self.last_prompt_row = None;
    }

    /// Ends the command `id` where it is in the log.
    fn end(&mut self, id: u64, now: u64, row: usize, exit: Option<i32>, keep_exit: bool) -> (r: bool)
        ensures
            r == (find_id(old(self)@.entries, id) < old(self)@.entries.len()),
            final(self)@ == (Log {
                entries: with_ended(
                    old(self)@.entries,
                    id,
                    now,
                    row,
                    if keep_exit {
                        match entry_of(old(self)@.entries, id) {
                            None => None,
                            Some(c) => c.exit,
                        }
                    } else {
                        exit
                    },
                ),
                ..old(self)@
            }),
    {
        let i = self.index_of(id);
        if i >= self.entries.len() {
            return false;
        }
        let ghost before = self.entries@;
        let mut c = self.entries[i].copy();
        c.finished = Some(now);
        if !keep_exit {
            c.exit = exit;
        }
        c.output_rows = match c.output_rows {
            None => None,
            Some(r) => Some(
                Rows {
                    start: r.start,
                    end: if row > r.start {
                        row
                    } else {
                        r.start
                    },
                },
            ),
        };
        proof {
            assert(cmds(before)[i as int] == before[i as int]@);
            assert(cmds(before.update(i as int, c)) =~= cmds(before).update(i as int, c@));
        }
        self.entries.set(i, c);
        true
    }

    /// Feed one marker. Returns what changed so the pane can emit events.
    pub fn on_marker(&mut self, marker: &Marker, now: u64) -> (r: Option<LogEvent>)
        requires
            old(self)@.next_id < u64::MAX,
        ensures
            (final(self)@, r) == noted(
                old(self)@,
                marker.kind@,
                marker.row,
                marker.alt_screen,
                now,
            ),
    {
        self.markers_seen = true;
        if marker.alt_screen {
            return None;
        }
        match &marker.kind {
            MarkerKind::PromptStart => {
                self.last_prompt_row = Some(marker.row);
                if let Some(id) = self.running {
                    self.running = None;
                    self.end(id, now, marker.row, None, true);
                }
                None
            },
            MarkerKind::InputStart => None,
            MarkerKind::CommandStart { cmdline } => {
                let id = self.next_id;
                self.next_id = id + 1;
                let ghost before = self.entries@;
                let c = Command {
                    id,
                    text: copy_text(cmdline),
                    cwd: copy_text(&self.cwd),
                    started: now,
                    finished: None,
                    exit: None,
                    prompt_row: self.last_prompt_row,
                    output_rows: Some(Rows { start: marker.row, end: marker.row }),
                };
                self.last_prompt_row = None;
                let ghost all = cmds(before).push(c@);
                self.entries.push(c);
                assert(cmds(self.entries@) =~= all);
                assert(all.skip(0) =~= all);
                let ghost mut gone: nat = 0;
                while self.entries.len() > self.cap
                    invariant
                        gone <= all.len(),
                        cmds(self.entries@) == all.skip(gone as int),
                        gone > 0 ==> all.len() - gone >= self.cap,
                        self.cap == old(self).cap,
                        self.next_id == id + 1,
                        self.running == old(self).running,
                        self.last_prompt_row is None,
                        self.cwd == old(self).cwd,
                        self.markers_seen,
                    decreases self.entries.len(),
                {
                    let ghost held = self.entries@;
                    self.entries.remove(0);
                    proof {
                        assert(cmds(held).len() == held.len());
                        assert(cmds(self.entries@) =~= cmds(held).skip(1));
                        assert(all.skip(gone as int).skip(1) =~= all.skip(gone as int + 1));
                        gone = gone + 1;
                    }
                }
                assert(cmds(self.entries@).len() == self.entries@.len());
                self.running = Some(id);
                Some(LogEvent::Started(id))
            },
            MarkerKind::CommandEnd { exit } => {
                match self.running {
                    None => None,
                    Some(id) => {
                        self.running = None;
                        if self.end(id, now, marker.row, *exit, false) {
                            Some(LogEvent::Finished(id))
                        } else {
                            None
                        }
                    },
                }
            },
            MarkerKind::Cwd(path) => {
                self.cwd = Some(path.clone());
                None
            },
            MarkerKind::Notify { .. } => None,
        }
    }

    /// The directory that the shell reported; commands inherit it.
    pub fn set_cwd(&mut self, path: String)
        ensures
            final(self)@ == (Log { cwd: Some(path@), ..old(self)@ }),
    {
        self.cwd = Some(path);
    }

    /// Note that markers arrive.
    pub fn see_markers(&mut self)
        ensures
            final(self)@ == (Log { markers_seen: true, ..old(self)@ }),
    {
        self.markers_seen = true;
    }

    /// Whether markers have arrived.
    pub fn has_markers(&self) -> (r: bool)
        ensures
            r == self@.markers_seen,
    {
        self.markers_seen
    }

    /// Fill in a command's text after the fact, for the grid-reading
    /// fallback when the shell didn't send it.
    pub fn set_text(&mut self, id: u64, text: String)
        ensures
            final(self)@ == (Log {
                entries: with_text(old(self)@.entries, id, text@),
                ..old(self)@
            }),
    {
        let i = self.index_of(id);
        if i < self.entries.len() {
            assert(self@.entries[i as int] == self.entries@[i as int]@);
            if self.entries[i].text.is_none() && !trimmed(text.as_str()).as_str().is_empty() {
                let ghost before = self.entries@;
                let mut c = self.entries[i].copy();
                c.text = Some(text);
                assert(cmds(before.update(i as int, c)) =~= cmds(before).update(i as int, c@));
                self.entries.set(i, c);
            }
        }
    }
}

/// A marker keeps a log in order: ids stay unique and rising, the cap holds,
/// and whatever runs is the newest entry, still open.
pub proof fn lemma_noted_orderly(log: Log, mark: Mark, row: usize, alt_screen: bool, now: u64)
    requires
        orderly(log),
        log.next_id < u64::MAX,
    ensures
        orderly(noted(log, mark, row, alt_screen, now).0),
{
    let after = noted(log, mark, row, alt_screen, now).0;
    if let Some(id) = log.running {
        lemma_find_last(log.entries, id);
    }
    if !alt_screen {
        match mark {
            Mark::CommandStart { cmdline } => {
                let all = log.entries.push(
                    Cmd {
                        id: log.next_id,
                        text: cmdline,
                        cwd: log.cwd,
                        started: now,
                        finished: None,
                        exit: None,
                        prompt_row: log.last_prompt_row,
                        output_rows: Some(Rows { start: row, end: row }),
                    },
                );
                let k = if all.len() > log.cap {
                    all.len() - log.cap
                } else {
                    0
                };
                assert(after.entries =~= all.skip(k));
                assert forall|i: int, j: int| 0 <= i < j < after.entries.len() implies (
                #[trigger] after.entries[i]).id < (#[trigger] after.entries[j]).id by {
                    assert(after.entries[i] == all[i + k]);
                    assert(after.entries[j] == all[j + k]);
                }
                assert forall|i: int| 0 <= i < after.entries.len() implies (
                #[trigger] after.entries[i]).id < after.next_id by {
                    assert(after.entries[i] == all[i + k]);
                }
            },
            _ => {},
        }
    }
}

/// The newest command is found by its id.
pub proof fn lemma_find_last(s: Seq<Cmd>, id: u64)
    requires
        s.len() > 0,
        s.last().id == id,
        forall|i: int, j: int|
            0 <= i < j < s.len() ==> (#[trigger] s[i]).id < (#[trigger] s[j]).id,
    ensures
        find_id(s, id) == s.len() - 1,
    decreases s.len(),
{
    if s.len() > 1 {
        let t = s.skip(1);
        assert(s[0].id < s[s.len() - 1].id);
        assert forall|i: int, j: int| 0 <= i < j < t.len() implies (#[trigger] t[i]).id < (
        #[trigger] t[j]).id by {
            assert(t[i] == s[i + 1] && t[j] == s[j + 1]);
        }
        lemma_find_last(t, id);
    }
}

/// A command that starts and ends is recorded: what was typed, where, its
/// status and the rows of its output.
pub proof fn lemma_full_cycle(
    log: Log,
    cmdline: Option<Seq<char>>,
    start_row: usize,
    end_row: usize,
    exit: Option<int>,
    started: u64,
    finished: u64,
)
    requires
        orderly(log),
        log.next_id < u64::MAX,
        exit matches Some(n) ==> i32::MIN <= n <= i32::MAX,
        start_row <= end_row,
    ensures
        ({
            let id = log.next_id;
            let (a, begun) = noted(log, Mark::CommandStart { cmdline }, start_row, false, started);
            let (b, over) = noted(a, Mark::CommandEnd { exit }, end_row, false, finished);
            &&& begun == Some(LogEvent::Started(id))
            &&& over == Some(LogEvent::Finished(id))
            &&& b.running is None
            &&& entry_of(b.entries, id) == Some(
                Cmd {
                    id,
                    text: cmdline,
                    cwd: log.cwd,
                    started,
                    finished: Some(finished),
                    exit: match exit {
                        None => None,
                        Some(n) => Some(n as i32),
                    },
                    prompt_row: log.last_prompt_row,
                    output_rows: Some(Rows { start: start_row, end: end_row }),
                },
            )
        }),
{
    let id = log.next_id;
    let a = noted(log, Mark::CommandStart { cmdline }, start_row, false, started).0;
    lemma_noted_orderly(log, Mark::CommandStart { cmdline }, start_row, false, started);
    lemma_find_last(a.entries, id);
    let b = noted(a, Mark::CommandEnd { exit }, end_row, false, finished).0;
    assert forall|i: int, j: int| 0 <= i < j < b.entries.len() implies (#[trigger] b.entries[i]).id
        < (#[trigger] b.entries[j]).id by {
        assert(a.entries[i].id < a.entries[j].id);
    }
    lemma_find_last(b.entries, id);
}

/// Two digits, the first a zero where the number has one only.
pub open spec fn two_digits(n: nat) -> Seq<char> {
    seq![digit_char(n / 10), digit_char(n % 10)]
}

/// The tenths of a second nearest to some nanoseconds; halfway, the even
/// one.
pub open spec fn tenths(d: nat) -> nat {
    let q = d / 100_000_000;
    let r = d % 100_000_000;
    if r > 50_000_000 || r == 50_000_000 && q % 2 == 1 {
        q + 1
    } else {
        q
    }
}

/// A duration in nanoseconds as people write it: `2m14s`, `4.2s`, `380ms`.
pub open spec fn duration_text(d: nat) -> Seq<char> {
    let secs = d / 1_000_000_000;
    if secs < 1 {
        decimal(d / 1_000_000) + "ms"@
    } else if secs < 60 {
        decimal(tenths(d) / 10) + "."@ + decimal(tenths(d) % 10) + "s"@
    } else if secs < 3600 {
        decimal(secs / 60) + "m"@ + two_digits(secs % 60) + "s"@
    } else {
        decimal(secs / 3600) + "h"@ + two_digits((secs % 3600) / 60) + "m"@
    }
}

fn push_two(out: &mut String, n: u64)
    requires
        n < 100,
    ensures
        final(out)@ == old(out)@ + two_digits(n as nat),
{
    let ghost before = out@;
    let a: u8 = (n / 10) as u8;
    let b: u8 = (n % 10) as u8;
    out.push((a + 48) as char);
    out.push((b + 48) as char);
    assert(before + two_digits(n as nat) =~= before.push(digit_char((n / 10) as nat)).push(
        digit_char((n % 10) as nat),
    ));
}

/// `2m14s`, `4.2s`, `380ms`, for status bars and notifications. `d` is in
/// nanoseconds.
pub fn format_duration(d: u64) -> (r: String)
    ensures
        r@ == duration_text(d as nat),
{
    let secs: u64 = d / 1_000_000_000;
    let mut out = String::new();
    if secs < 1 {
        push_decimal(&mut out, d / 1_000_000);
        assert(Seq::<char>::empty() + decimal((d / 1_000_000) as nat) =~= decimal(
            (d / 1_000_000) as nat,
        ));
        out.push_str("ms");
    } else if secs < 60 {
        let q: u64 = d / 100_000_000;
        let r: u64 = d % 100_000_000;
        let t: u64 = if r > 50_000_000 || r == 50_000_000 && q % 2 == 1 {
            q + 1
        } else {
            q
        };
        push_decimal(&mut out, t / 10);
        assert(Seq::<char>::empty() + decimal((t / 10) as nat) =~= decimal((t / 10) as nat));
        out.push_str(".");
        push_decimal(&mut out, t % 10);
        out.push_str("s");
    } else if secs < 3600 {
        push_decimal(&mut out, secs / 60);
        assert(Seq::<char>::empty() + decimal((secs / 60) as nat) =~= decimal((secs / 60) as nat));
        out.push_str("m");
        push_two(&mut out, secs % 60);
        out.push_str("s");
    } else {
        push_decimal(&mut out, secs / 3600);
        assert(Seq::<char>::empty() + decimal((secs / 3600) as nat) =~= decimal(
            (secs / 3600) as nat,
        ));
        out.push_str("h");
        push_two(&mut out, (secs % 3600) / 60);
        out.push_str("m");
    }
    out
}

// --- What the log is for ---

/// A command that starts is the newest entry, with the text that the shell
/// sent, where the shell last said it was and at the prompt that came last.
/// The entries before it stay in order; only the oldest make room for it.
pub proof fn lemma_a_command_starts(
    log: Log,
    cmdline: Option<Seq<char>>,
    path: Seq<char>,
    prompt: usize,
    row: usize,
    now: u64,
)
    requires
        orderly(log),
        log.next_id < u64::MAX,
        log.running is None,
    ensures
        ({
            let a = noted(log, Mark::Cwd(path), row, false, now).0;
            let b = noted(a, Mark::PromptStart, prompt, false, now).0;
            let c = noted(b, Mark::CommandStart { cmdline }, row, false, now).0;
            let n = c.entries.len() as int;
            &&& n > 0
            &&& c.entries.last().text == cmdline
            &&& c.entries.last().cwd == Some(path)
            &&& c.entries.last().prompt_row == Some(prompt)
            &&& c.entries.last().started == now
            &&& c.entries.last().finished is None
            &&& c.running == Some(c.entries.last().id)
            &&& n == if log.entries.len() < log.cap {
                log.entries.len() + 1
            } else {
                log.entries.len()
            }
            &&& forall|k: int|
                0 <= k < n - 1 ==> #[trigger] c.entries[k] == log.entries[log.entries.len() - (n - 1)
                    + k]
        }),
{
}

/// A command that ends keeps its text and gets its status and its end; every
/// other entry stays.
pub proof fn lemma_a_command_ends(log: Log, exit: Option<int>, row: usize, now: u64)
    requires
        orderly(log),
        log.running is Some,
    ensures
        ({
            let (after, event) = noted(log, Mark::CommandEnd { exit }, row, false, now);
            let n = log.entries.len() - 1;
            &&& event == Some(LogEvent::Finished(log.entries[n].id))
            &&& after.running is None
            &&& after.entries.len() == log.entries.len()
            &&& after.entries[n].text == log.entries[n].text
            &&& after.entries[n].finished == Some(now)
            &&& after.entries[n].exit == (match exit {
                None => None,
                Some(x) => Some(x as i32),
            })
            &&& forall|k: int| 0 <= k < n ==> #[trigger] after.entries[k] == log.entries[k]
        }),
{
    lemma_find_last(log.entries, log.running->0);
}

/// A prompt that comes while a command is thought to run closes it, without
/// a status that nobody sent.
pub proof fn lemma_a_prompt_closes(log: Log, row: usize, now: u64)
    requires
        orderly(log),
        log.running is Some,
        log.entries.last().exit is None,
    ensures
        ({
            let (after, event) = noted(log, Mark::PromptStart, row, false, now);
            &&& event is None
            &&& after.running is None
            &&& after.entries.len() == log.entries.len()
            &&& after.entries.last().finished == Some(now)
            &&& after.entries.last().exit is None
            &&& after.last_prompt_row == Some(row)
        }),
{
    lemma_find_last(log.entries, log.running->0);
}

/// While a full-screen program draws, a marker changes no entry and no row.
pub proof fn lemma_full_screen_changes_nothing(log: Log, mark: Mark, row: usize, now: u64)
    ensures
        noted(log, mark, row, true, now) == (Log { markers_seen: true, ..log }, None::<LogEvent>),
{
}

/// The last finished command is the newest one that has an end.
pub proof fn lemma_last_done(s: Seq<Cmd>) -> (i: int)
    ensures
        match last_done(s) {
            None => forall|k: int| 0 <= k < s.len() ==> (#[trigger] s[k]).finished is None,
            Some(c) => 0 <= i < s.len() && s[i] == c && c.finished is Some && forall|k: int|
                i < k < s.len() ==> (#[trigger] s[k]).finished is None,
        },
    decreases s.len(),
{
    if s.len() == 0 {
        0
    } else if s.last().finished is Some {
        s.len() - 1
    } else {
        let d = s.drop_last();
        let i = lemma_last_done(d);
        assert forall|k: int|
            0 <= k < s.len() && (last_done(s) is None || i < k) implies (#[trigger] s[k]).finished
            is None by {
            if k < d.len() {
                assert(d[k] == s[k]);
            }
        }
        i
    }
}

/// A command goes by the first line of its text, trimmed; one without a text
/// is called a command.
pub proof fn lemma_labels(line: Seq<char>, rest: Seq<char>)
    requires
        !line.contains('\n'),
        line.len() > 0,
    ensures
        command_label(Some(line)) == trim(line),
        command_label(Some(line + seq!['\n'] + rest)) == trim(line),
        command_label(None) == "command"@,
{
    lemma_cut_at_first(line, '\n', rest);
}

/// A text that is offered later fills a gap and replaces nothing.
pub proof fn lemma_texts_fill_gaps(s: Seq<Cmd>, id: u64, text: Seq<char>, k: int)
    requires
        0 <= k < s.len(),
    ensures
        with_text(s, id, text).len() == s.len(),
        s[k].text is Some ==> with_text(s, id, text)[k] == s[k],
        s[k].id != id ==> with_text(s, id, text)[k] == s[k],
        k == find_id(s, id) && s[k].text is None && trim(text).len() > 0 ==> with_text(
            s,
            id,
            text,
        )[k].text == Some(text),
{
    lemma_find_id_finds(s, id);
}

proof fn lemma_find_id_finds(s: Seq<Cmd>, id: u64)
    ensures
        find_id(s, id) <= s.len(),
        find_id(s, id) < s.len() ==> s[find_id(s, id) as int].id == id,
        forall|k: int| 0 <= k < find_id(s, id) ==> (#[trigger] s[k]).id != id,
    decreases s.len(),
{
    if s.len() > 0 && s[0].id != id {
        lemma_find_id_finds(s.skip(1), id);
        assert forall|k: int| 0 <= k < find_id(s, id) implies (#[trigger] s[k]).id != id by {
            if k > 0 {
                assert(s.skip(1)[k - 1] == s[k]);
            }
        }
    }
}

/// The parts of a duration add up to it: milliseconds below a second, tenths
/// to the nearest below a minute, minutes and seconds below an hour, hours
/// and minutes from there on.
pub proof fn lemma_durations_read_back(d: nat)
    ensures
        d < 1_000_000_000 ==> exists|ms: nat|
            ms * 1_000_000 <= d < (ms + 1) * 1_000_000 && duration_text(d) == #[trigger] decimal(ms)
                + "ms"@,
        1_000_000_000 <= d < 60_000_000_000 ==> exists|s: nat, t: nat|
            t < 10 && -50_000_000 <= d - (s * 10 + t) * 100_000_000 <= 50_000_000
                && duration_text(d) == #[trigger] decimal(s) + "."@ + #[trigger] decimal(t) + "s"@,
        60_000_000_000 <= d < 3_600_000_000_000 ==> exists|m: nat, s: nat|
            s < 60 && (m * 60 + s) * 1_000_000_000 <= d < (m * 60 + s + 1) * 1_000_000_000
                && duration_text(d) == #[trigger] decimal(m) + "m"@ + #[trigger] two_digits(s)
                + "s"@,
        3_600_000_000_000 <= d ==> exists|h: nat, m: nat|
            m < 60 && (h * 60 + m) * 60_000_000_000 <= d < (h * 60 + m + 1) * 60_000_000_000
                && duration_text(d) == #[trigger] decimal(h) + "h"@ + #[trigger] two_digits(m)
                + "m"@,
{
    let secs = d / 1_000_000_000;
    if secs < 1 {
        let ms = d / 1_000_000;
        assert(duration_text(d) == decimal(ms) + "ms"@);
    } else if secs < 60 {
        let s = tenths(d) / 10;
        let t = tenths(d) % 10;
        assert(duration_text(d) == decimal(s) + "."@ + decimal(t) + "s"@);
    } else if secs < 3600 {
        let m = secs / 60;
        let s = secs % 60;
        assert(duration_text(d) == decimal(m) + "m"@ + two_digits(s) + "s"@);
    } else {
        let h = secs / 3600;
        let m = (secs % 3600) / 60;
        assert(duration_text(d) == decimal(h) + "h"@ + two_digits(m) + "m"@);
    }
}

/// Two digits read back as the number.
pub proof fn lemma_two_digits_read_back(n: nat)
    requires
        n < 100,
    ensures
        two_digits(n).len() == 2,
        all_digits(two_digits(n)),
        digits_value(two_digits(n)) == n,
{
    let s = two_digits(n);
    reveal_with_fuel(digits_value, 3);
    assert(s.drop_last() =~= seq![digit_char(n / 10)]);
    assert(s.drop_last().drop_last() =~= Seq::empty());
    assert(s.last() == digit_char(n % 10));
    assert(s.drop_last().last() == digit_char(n / 10));
}

} // verus!
