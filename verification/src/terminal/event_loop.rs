//! The decisions of the PTY I/O thread: what is still to be written, when to
//! read, lock and parse, and where the output is cut at the markers that the
//! shell integration emits. The thread itself does the I/O.
//!
//! Each recognised marker ends a parser slice, and the cursor is sampled in
//! between, so a marker's grid row is exact rather than "somewhere in the
//! chunk".
use std::collections::VecDeque;

use vstd::prelude::*;

use crate::terminal::osc::{Marker, MarkerKind};
use crate::terminal::session::WindowSize;

verus! {

/// Max bytes to read from the PTY before forcing terminal synchronisation.
pub const READ_BUFFER_SIZE: usize = 0x10_0000;

/// Max bytes to parse while holding the terminal lock in one go.
pub const MAX_LOCKED_READ: usize = 65_535;

/// Messages the loop accepts.
#[derive(Debug)]
pub enum Msg {
    /// Bytes to write to the PTY.
    Input(Vec<u8>),
    /// Stop the loop; the PTY (and with it the child) is dropped afterwards.
    Shutdown,
    /// Propagate a new window size to the PTY.
    Resize(WindowSize),
}

/// The bytes of several pieces, one after the other.
pub open spec fn all_bytes(v: Seq<Vec<u8>>) -> Seq<u8>
    decreases v.len(),
{
    if v.len() == 0 {
        Seq::empty()
    } else {
        all_bytes(v.drop_last()) + v.last()@
    }
}

/// A piece that is being written, and how much of it has been.
struct Writing {
    source: Vec<u8>,
    written: usize,
}

/// What is still to be written to the PTY, in order.
pub struct WriteQueue {
    write_list: VecDeque<Vec<u8>>,
    writing: Option<Writing>,
}

/// How a write to the PTY went.
#[derive(Debug, Clone, Copy, PartialEq, Eq, Structural)]
pub enum WriteEvent {
    /// That many bytes were taken.
    Wrote(usize),
    /// Interrupted, or it would block.
    Blocked,
    Failed,
}

/// What to do after a write.
#[derive(Debug, Clone, Copy, PartialEq, Eq, Structural)]
pub enum WriteStep {
    /// Write on, if anything is left.
    Again,
    /// Wait until the PTY takes more.
    Wait,
    /// Give up on the PTY.
    Fail,
}

impl WriteQueue {
    /// The bytes that are still to be written.
    pub closed spec fn pending(&self) -> Seq<u8> {
        (match self.writing {
            None => Seq::empty(),
            Some(w) => w.source@.skip(w.written as int),
        }) + all_bytes(self.write_list@)
    }

    /// What is being written has bytes left, and so has every other piece.
    pub closed spec fn wf(&self) -> bool {
        &&& self.writing matches Some(w) ==> w.written < w.source@.len()
        &&& forall|i: int| 0 <= i < self.write_list@.len() ==> (#[trigger] self.write_list@[i])@.len() > 0
    }

    /// Nothing to write.
    pub fn new() -> (r: Self)
        ensures
            r.wf(),
            r.pending() == Seq::<u8>::empty(),
    {
        let r = WriteQueue { write_list: VecDeque::new(), writing: None };
        assert(r.pending() =~= Seq::empty());
        r
    }

    /// Queue bytes behind what is there. A zero-length write would hang the
    /// writer, so nothing is queued for it.
    pub fn push(&mut self, input: Vec<u8>)
        requires
            old(self).wf(),
        ensures
            final(self).wf(),
            final(self).pending() == old(self).pending() + input@,
    {
        let ghost before = self.write_list@;
        let ghost pending = self.pending();
        if input.len() == 0 {
            assert(pending + input@ =~= pending);
            return;
        }
        self.write_list.push_back(input);
        proof {
            assert(self.write_list@.drop_last() =~= before);
            assert(self.pending() =~= pending + input@);
        }
    }

    /// Whether anything is still to be written.
    pub fn needs_write(&self) -> (r: bool)
        requires
            self.wf(),
        ensures
            r == (self.pending().len() > 0),
    {
        proof {
            if self.write_list@.len() > 0 {
                assert(self.write_list@[self.write_list@.len() - 1]@.len() > 0);
            }
        }
        self.writing.is_some() || self.write_list.len() > 0
    }

    /// Make sure that a piece is being written if there is one.
    pub fn ensure_next(&mut self)
        requires
            old(self).wf(),
        ensures
            final(self).wf(),
            final(self).pending() == old(self).pending(),
            final(self).current() is Some <==> old(self).pending().len() > 0,
    {
        let ghost pending = self.pending();
        let ghost before = self.write_list@;
        if self.writing.is_none() {
            if let Some(source) = self.write_list.pop_front() {
                proof {
                    assert(before[0]@.len() > 0);
                    lemma_first_bytes(before);
                    assert(self.write_list@ =~= before.skip(1));
                    assert forall|i: int| 0 <= i < self.write_list@.len() implies (
                    #[trigger] self.write_list@[i])@.len() > 0 by {
                        assert(self.write_list@[i] == before[i + 1]);
                    }
                }
                self.writing = Some(Writing { source, written: 0 });
                proof {
                    assert(source@.skip(0) =~= source@);
                    assert(self.pending() =~= pending);
                }
            } else {
                assert(self.write_list@ =~= before);
            }
        }
        proof {
            if self.writing is Some {
                assert(self.pending().len() > 0);
            }
        }
    }

    /// The bytes to hand to the PTY next.
    pub closed spec fn current(&self) -> Option<Seq<u8>> {
        match self.writing {
            None => None,
            Some(w) => Some(w.source@.skip(w.written as int)),
        }
    }

    /// The bytes to hand to the PTY next: the start of what is pending.
    pub fn remaining(&self) -> (r: Option<&[u8]>)
        requires
            self.wf(),
        ensures
            match r {
                None => self.current() is None,
                Some(s) => self.current() == Some(s@) && s@.len() > 0 && s@ == self.pending().take(
                    s@.len() as int,
                ),
            },
    {
        match &self.writing {
            None => None,
            Some(w) => {
                let r = vstd::slice::slice_subrange(w.source.as_slice(), w.written, w.source.len());
                assert(r@ =~= w.source@.skip(w.written as int));
                assert(r@ =~= self.pending().take(r@.len() as int));
                Some(r)
            },
        }
    }

    /// Take note of how writing the current bytes went.
    pub fn on_write(&mut self, event: WriteEvent) -> (r: WriteStep)
        requires
            old(self).wf(),
            old(self).current() is Some,
            event matches WriteEvent::Wrote(n) ==> n <= (old(self).current()->0).len(),
        ensures
            final(self).wf(),
            final(self).pending() == old(self).pending().skip(
                match event {
                    WriteEvent::Wrote(n) => n as int,
                    _ => 0,
                },
            ),
            r == match event {
                WriteEvent::Wrote(n) => if n == 0 {
                    WriteStep::Wait
                } else {
                    WriteStep::Again
                },
                WriteEvent::Blocked => WriteStep::Wait,
                WriteEvent::Failed => WriteStep::Fail,
            },
    {
        let ghost pending = self.pending();
        match event {
            WriteEvent::Wrote(n) => {
                if n == 0 {
                    assert(pending.skip(0) =~= pending);
                    return WriteStep::Wait;
                }
                let mut current: Option<Writing> = None;
                std::mem::swap(&mut current, &mut self.writing);
                if let Some(w) = current {
                    let length = w.source.len();
                    assert(w.written + n <= length);
                    let written = w.written + n;
                    let ghost rest = w.source@.skip(w.written as int);
                    let ghost list = all_bytes(self.write_list@);
                    proof {
                        assert(pending == rest + list);
                        assert(rest.skip(n as int) =~= w.source@.skip(written as int));
                        assert((rest + list).skip(n as int) =~= rest.skip(n as int) + list);
                    }
                    if written < w.source.len() {
                        self.writing = Some(Writing { source: w.source, written });
                    } else {
                        assert(rest.skip(n as int) =~= Seq::empty());
                        self.ensure_next();
                    }
                }
                WriteStep::Again
            },
            WriteEvent::Blocked => {
                assert(pending.skip(0) =~= pending);
                WriteStep::Wait
            },
            WriteEvent::Failed => {
                assert(pending.skip(0) =~= pending);
                WriteStep::Fail
            },
        }
    }
}

proof fn lemma_first_bytes(v: Seq<Vec<u8>>)
    requires
        v.len() > 0,
    ensures
        all_bytes(v) == v[0]@ + all_bytes(v.skip(1)),
    decreases v.len(),
{
    if v.len() == 1 {
        assert(v.drop_last() =~= Seq::empty());
        assert(v.skip(1) =~= Seq::empty());
        assert(all_bytes(v) =~= v[0]@ + all_bytes(v.skip(1)));
    } else {
        lemma_first_bytes(v.drop_last());
        assert(v.drop_last().skip(1) =~= v.skip(1).drop_last());
        assert(v.skip(1).last() == v.last());
        assert(all_bytes(v) =~= v[0]@ + all_bytes(v.skip(1)));
    }
}

/// The bytes that some messages ask to be written, up to a shutdown.
pub open spec fn input_bytes(msgs: Seq<Msg>) -> Seq<u8>
    decreases msgs.len(),
{
    if msgs.len() == 0 {
        Seq::empty()
    } else {
        match msgs[0] {
            Msg::Shutdown => Seq::empty(),
            Msg::Input(b) => b@ + input_bytes(msgs.skip(1)),
            Msg::Resize(_) => input_bytes(msgs.skip(1)),
        }
    }
}

/// The sizes that some messages ask for, up to a shutdown.
pub open spec fn resizes(msgs: Seq<Msg>) -> Seq<WindowSize>
    decreases msgs.len(),
{
    if msgs.len() == 0 {
        Seq::empty()
    } else {
        match msgs[0] {
            Msg::Shutdown => Seq::empty(),
            Msg::Input(_) => resizes(msgs.skip(1)),
            Msg::Resize(s) => seq![s] + resizes(msgs.skip(1)),
        }
    }
}

/// Whether some messages ask for a shutdown.
pub open spec fn shuts_down(msgs: Seq<Msg>) -> bool {
    exists|i: int| 0 <= i < msgs.len() && #[trigger] msgs[i] == Msg::Shutdown
}

/// Handle the messages that have arrived: input is queued, and the sizes to
/// hand to the PTY are returned, with whether to go on. Messages after a
/// shutdown are not looked at.
pub fn drain_channel(queue: &mut WriteQueue, msgs: Vec<Msg>) -> (r: (Vec<WindowSize>, bool))
    requires
        old(queue).wf(),
    ensures
        final(queue).wf(),
        final(queue).pending() == old(queue).pending() + input_bytes(msgs@),
        r.0@ == resizes(msgs@),
        r.1 == !shuts_down(msgs@),
{
    let ghost all = msgs@;
    let ghost before = queue.pending();
    let mut sizes: Vec<WindowSize> = Vec::new();
    let mut rest = msgs;
    let ghost mut i: int = 0;
    proof {
        assert(all.skip(0) =~= all);
        assert(queue.pending() + input_bytes(all) =~= before + input_bytes(all));
        assert(sizes@ + resizes(all) =~= resizes(all));
    }
    while rest.len() > 0
        invariant
            queue.wf(),
            all == msgs@,
            before == old(queue).pending(),
            0 <= i <= all.len(),
            rest@ == all.skip(i),
            queue.pending() + input_bytes(all.skip(i)) == before + input_bytes(all),
            sizes@ + resizes(all.skip(i)) == resizes(all),
            forall|k: int| 0 <= k < i ==> #[trigger] all[k] != Msg::Shutdown,
        decreases rest.len(),
    {
        let ghost here = all.skip(i);
        proof {
            assert(here[0] == all[i]);
            assert(here.skip(1) =~= all.skip(i + 1));
        }
        let ghost pending = queue.pending();
        let ghost sized = sizes@;
        let msg = rest.remove(0);
        assert(rest@ =~= all.skip(i + 1));
        match msg {
            Msg::Input(input) => {
                let ghost b = input@;
                queue.push(input);
                assert(pending + (b + input_bytes(all.skip(i + 1))) =~= queue.pending()
                    + input_bytes(all.skip(i + 1)));
            },
            Msg::Resize(size) => {
                sizes.push(size);
                assert(sized + (seq![size] + resizes(all.skip(i + 1))) =~= sizes@ + resizes(
                    all.skip(i + 1),
                ));
            },
            Msg::Shutdown => {
                assert(all[i] == Msg::Shutdown);
                assert(queue.pending() + Seq::<u8>::empty() =~= queue.pending());
                assert(sizes@ + Seq::<WindowSize>::empty() =~= sizes@);
                return (sizes, false);
            },
        }
        proof {
            i = i + 1;
        }
    }
    assert(all.skip(i) =~= Seq::empty());
    assert(queue.pending() + Seq::<u8>::empty() =~= queue.pending());
    assert(sizes@ + Seq::<WindowSize>::empty() =~= sizes@);
    (sizes, true)
}

/// How far a round of reading has come: bytes read but not parsed, and bytes
/// parsed.
#[derive(Debug, Clone, Copy, PartialEq, Eq, Structural)]
pub struct ReadState {
    pub unprocessed: usize,
    pub processed: usize,
}

/// How a read from the PTY went.
#[derive(Debug, Clone, Copy, PartialEq, Eq, Structural)]
pub enum ReadEvent {
    Got(usize),
    /// Interrupted, or it would block.
    Blocked,
    Failed,
}

/// What to do after a read.
#[derive(Debug, Clone, Copy, PartialEq, Eq, Structural)]
pub enum ReadStep {
    /// The round is over.
    Stop,
    /// Give up on the PTY.
    Fail,
    /// Get hold of the terminal, to parse what was read.
    Lock,
}

/// What to do once the terminal was tried.
#[derive(Debug, Clone, Copy, PartialEq, Eq, Structural)]
pub enum LockStep {
    /// Parse what was read.
    Parse,
    /// Wait for the terminal: the buffer is full.
    WaitForLock,
    /// Read on meanwhile.
    ReadOn,
}

impl ReadState {
    /// The bytes fit into the buffer, and a round parses no more than it is
    /// meant to before the last piece.
    pub open spec fn wf(&self) -> bool {
        self.unprocessed <= READ_BUFFER_SIZE && self.processed < MAX_LOCKED_READ
    }

    /// The start of a round.
    pub fn new() -> (r: Self)
        ensures
            r.wf(),
            r == (ReadState { unprocessed: 0, processed: 0 }),
    {
        ReadState { unprocessed: 0, processed: 0 }
    }

    /// A read into the rest of the buffer has come back.
    pub fn on_read(&mut self, event: ReadEvent) -> (r: ReadStep)
        requires
            old(self).wf(),
            event matches ReadEvent::Got(n) ==> old(self).unprocessed + n <= READ_BUFFER_SIZE,
        ensures
            final(self).wf(),
            final(self).processed == old(self).processed,
            final(self).unprocessed == old(self).unprocessed + (match event {
                ReadEvent::Got(n) => n as int,
                _ => 0,
            }),
            r == match event {
                ReadEvent::Failed => ReadStep::Fail,
                _ => if final(self).unprocessed == 0 {
                    ReadStep::Stop
                } else {
                    ReadStep::Lock
                },
            },
    {
        match event {
            ReadEvent::Got(n) => {
                self.unprocessed = self.unprocessed + n;
            },
            ReadEvent::Blocked => {},
            ReadEvent::Failed => {
                return ReadStep::Fail;
            },
        }
        if self.unprocessed == 0 {
            ReadStep::Stop
        } else {
            ReadStep::Lock
        }
    }

    /// The terminal was tried; `held` is whether this thread has it.
    pub fn on_lock(&self, held: bool) -> (r: LockStep)
        ensures
            r == (if held {
                LockStep::Parse
            } else if self.unprocessed >= READ_BUFFER_SIZE {
                LockStep::WaitForLock
            } else {
                LockStep::ReadOn
            }),
    {
        if held {
            LockStep::Parse
        } else if self.unprocessed >= READ_BUFFER_SIZE {
            LockStep::WaitForLock
        } else {
            LockStep::ReadOn
        }
    }

    /// What was read has been parsed. Returns whether to read on.
    pub fn on_parsed(&mut self) -> (r: bool)
        requires
            old(self).wf(),
        ensures
            final(self).processed == old(self).processed + old(self).unprocessed,
            final(self).unprocessed == 0,
            r == (final(self).processed < MAX_LOCKED_READ),
            r ==> final(self).wf(),
    {
        self.processed = self.processed + self.unprocessed;
        self.unprocessed = 0;
        self.processed < MAX_LOCKED_READ
    }

    /// Whether to queue a redraw: something was parsed, and not all of it
    /// was inside a synchronised update, which repaints when it ends.
    pub fn redraws(&self, sync_bytes: usize) -> (r: bool)
        ensures
            r == (sync_bytes < self.processed),
    {
        sync_bytes < self.processed
    }
}

/// Where the slices of a chunk start: at its start and after each marker.
pub open spec fn slice_starts(ends: Seq<usize>) -> Seq<int> {
    seq![0int] + ends.map_values(|e: usize| e as int)
}

/// The slices that a chunk is parsed in, each as its start and end. One ends
/// at each marker, and the last one at the end of the chunk.
pub fn slices(ends: &Vec<usize>, len: usize) -> (r: Vec<(usize, usize)>)
    ensures
        r@.len() == ends@.len() + 1,
        forall|i: int| 0 <= i < r@.len() ==> (#[trigger] r@[i]).0 == slice_starts(ends@)[i],
        forall|i: int| 0 <= i < ends@.len() ==> (#[trigger] r@[i]).1 == ends@[i],
        r@.last().1 == len,
{
    let mut out: Vec<(usize, usize)> = Vec::new();
    let mut start: usize = 0;
    let mut i: usize = 0;
    while i < ends.len()
        invariant
            i == out.len() <= ends.len(),
            start == slice_starts(ends@)[i as int],
            forall|k: int| 0 <= k < i ==> (#[trigger] out@[k]).0 == slice_starts(ends@)[k],
            forall|k: int| 0 <= k < i ==> (#[trigger] out@[k]).1 == ends@[k],
        decreases ends.len() - i,
    {
        out.push((start, ends[i]));
        start = ends[i];
        i += 1;
    }
    out.push((start, len));
    out
}

/// A marker with where it landed: `history` lines have scrolled off, and the
/// cursor is in screen line `line`, which is never above the screen.
pub fn place_marker(
    kind: MarkerKind,
    history: usize,
    line: i32,
    column: usize,
    alt_screen: bool,
) -> (r: Marker)
    requires
        history <= usize::MAX - 0x7fff_ffff,
    ensures
        r == (Marker {
            kind,
            row: (history + (if line > 0 {
                line as int
            } else {
                0
            })) as usize,
            column,
            alt_screen,
        }),
{
    let line: usize = if line > 0 {
        line as usize
    } else {
        0
    };
    Marker { kind, row: history + line, column, alt_screen }
}

/// Whether a wake-up of the poller means that a synchronised update has
/// timed out: nothing happened, and nobody sent anything.
pub fn sync_timed_out(no_events: bool, message_waiting: bool) -> (r: bool)
    ensures
        r == (no_events && !message_waiting),
{
    no_events && !message_waiting
}

/// Bytes are written in the order in which they were queued: what a write
/// takes off is the start of what was pending, and the rest stays.
pub proof fn lemma_written_in_order(pending: Seq<u8>, n: int, more: Seq<u8>)
    requires
        0 <= n <= pending.len(),
    ensures
        pending.take(n) + pending.skip(n) == pending,
        (pending + more).skip(n) == pending.skip(n) + more,
{
    assert(pending.take(n) + pending.skip(n) =~= pending);
    assert((pending + more).skip(n) =~= pending.skip(n) + more);
}

/// Input is written in the order in which it came, sizes are passed on in
/// theirs, and nothing behind a shutdown counts.
pub proof fn lemma_messages_in_order(b: Vec<u8>, size: WindowSize, rest: Seq<Msg>)
    ensures
        input_bytes(seq![Msg::Input(b)] + rest) == b@ + input_bytes(rest),
        input_bytes(seq![Msg::Resize(size)] + rest) == input_bytes(rest),
        input_bytes(seq![Msg::Shutdown] + rest) == Seq::<u8>::empty(),
        resizes(seq![Msg::Resize(size)] + rest) == seq![size] + resizes(rest),
        resizes(seq![Msg::Input(b)] + rest) == resizes(rest),
        resizes(seq![Msg::Shutdown] + rest) == Seq::<WindowSize>::empty(),
{
    let i = seq![Msg::Input(b)] + rest;
    let r = seq![Msg::Resize(size)] + rest;
    let s = seq![Msg::Shutdown] + rest;
    assert(i[0] == Msg::Input(b) && r[0] == Msg::Resize(size) && s[0] == Msg::Shutdown);
    assert(i.skip(1) =~= rest);
    assert(r.skip(1) =~= rest);
}

/// A synchronized update ends by itself only when its time is up with nothing
/// else to do.
pub proof fn lemma_updates_time_out(r: bool)
    ensures
        call_ensures(sync_timed_out, (true, false), r) ==> r,
        call_ensures(sync_timed_out, (true, true), r) ==> !r,
        call_ensures(sync_timed_out, (false, false), r) ==> !r,
        call_ensures(sync_timed_out, (false, true), r) ==> !r,
{
}

/// A marker's row counts from the first line that is kept: what is scrolled
/// away, and the line on the screen.
pub proof fn lemma_markers_are_placed(
    kind: MarkerKind,
    history: usize,
    line: i32,
    column: usize,
    alt_screen: bool,
    r: Marker,
)
    requires
        history <= usize::MAX - 0x7fff_ffff,
        line >= 0,
        call_ensures(place_marker, (kind, history, line, column, alt_screen), r),
    ensures
        r.row == history + line,
        r.column == column,
        r.alt_screen == alt_screen,
        r.kind == kind,
{
}

} // verus!
