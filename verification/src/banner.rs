//! The line across the top of a window: errors that stay, and notes that go
//! away by themselves.
use vstd::prelude::*;

verus! {

/// The line, if there is one, and how many times it was changed: a timer that
/// clears a note knows by that whether the note is still its own.
#[derive(Debug)]
pub struct Banner {
    pub text: Option<String>,
    pub generation: u64,
}

/// The line, as plain values.
pub ghost struct Line {
    pub text: Option<Seq<char>>,
    pub generation: int,
}

impl View for Banner {
    type V = Line;

    open spec fn view(&self) -> Line {
        Line {
            text: match self.text {
                None => None,
                Some(t) => Some(t@),
            },
            generation: self.generation as int,
        }
    }
}

/// The line with another text, or none.
pub open spec fn put(line: Line, text: Option<Seq<char>>) -> Line {
    Line { text, generation: line.generation + 1 }
}

/// The line after the timer of an earlier note ran out.
pub open spec fn expired(line: Line, generation: int) -> Line {
    if line.generation == generation {
        Line { text: None, ..line }
    } else {
        line
    }
}

/// The note after a reload that changes what only new sessions see.
pub open spec fn new_sessions_note() -> Seq<char> {
    "config reloaded — shell/prompt changes apply to new sessions"@
}

impl Banner {
    /// The line of a new window: what was wrong with the config file, else
    /// with the keymap.
    pub fn new(config_error: Option<String>, keymap_error: Option<String>) -> (r: Self)
        ensures
            r.generation == 0,
            r.text == if config_error is Some {
                config_error
            } else {
                keymap_error
            },
    {
        let text = match config_error {
            Some(e) => Some(e),
            None => keymap_error,
        };
        Banner { text, generation: 0 }
    }

    /// Show something until the next change.
    pub fn show(&mut self, message: String)
        requires
            old(self).generation < u64::MAX,
        ensures
            final(self)@ == put(old(self)@, Some(message@)),
    {
        self.text = Some(message);
        self.generation = self.generation + 1;
    }

    /// Show something for a while. Returns the mark to give to `expire` when
    /// the time is up.
    pub fn show_transient(&mut self, message: String) -> (generation: u64)
        requires
            old(self).generation < u64::MAX,
        ensures
            final(self)@ == put(old(self)@, Some(message@)),
            generation == final(self).generation,
    {
        self.show(message);
        self.generation
    }

    /// The time of a note is up. A newer line is not dismissed. Returns
    /// whether the line went away.
    pub fn expire(&mut self, generation: u64) -> (r: bool)
        ensures
            final(self)@ == expired(old(self)@, generation as int),
            r == (old(self).generation == generation),
    {
        if self.generation == generation {
            self.text = None;
            true
        } else {
            false
        }
    }

    /// The config file was read again. Skipped keymap entries stay up until
    /// the next clean reload, as a parse error does; otherwise the line goes,
    /// or tells for a while what only new sessions will see. Returns the mark
    /// for the timer of such a note.
    pub fn reloaded(&mut self, keymap_error: Option<String>, new_sessions_only: bool) -> (r: Option<
        u64,
    >)
        requires
            old(self).generation < u64::MAX,
        ensures
            final(self)@ == put(
                old(self)@,
                match keymap_error {
                    Some(e) => Some(e@),
                    None => if new_sessions_only {
                        Some(new_sessions_note())
                    } else {
                        None
                    },
                },
            ),
            r == if keymap_error is None && new_sessions_only {
                Some(final(self).generation)
            } else {
                None
            },
    {
        if let Some(message) = keymap_error {
            self.show(message);
            None
        } else if new_sessions_only {
            let generation = self.show_transient(
                "config reloaded — shell/prompt changes apply to new sessions".to_owned(),
            );
            Some(generation)
        } else {
            self.text = None;
            self.generation = self.generation + 1;
            None
        }
    }
}

/// A note goes away when its own time is up, and a later line outlives it.
pub proof fn lemma_newer_line_stays(
    line: Line,
    note: Option<Seq<char>>,
    later: Seq<Option<Seq<char>>>,
)
    ensures
        expired(put(line, note), line.generation + 1).text is None,
        later.len() > 0 ==> expired(shown(put(line, note), later), line.generation + 1) == shown(
            put(line, note),
            later,
        ),
{
    lemma_shown(put(line, note), later);
}

/// The line after several changes.
pub open spec fn shown(line: Line, changes: Seq<Option<Seq<char>>>) -> Line
    decreases changes.len(),
{
    if changes.len() == 0 {
        line
    } else {
        put(shown(line, changes.drop_last()), changes.last())
    }
}

proof fn lemma_shown(line: Line, changes: Seq<Option<Seq<char>>>)
    ensures
        shown(line, changes).generation == line.generation + changes.len(),
    decreases changes.len(),
{
    if changes.len() > 0 {
        lemma_shown(line, changes.drop_last());
    }
}

} // verus!
