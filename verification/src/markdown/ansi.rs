//! Measuring and wrapping text that holds escape sequences.
//!
//! Columns are counted in `u128`, which no text in memory can overflow.
use vstd::prelude::*;

use crate::text::{
    add_chars, add_text, begins_with, chars_of, chars_views, ends_with, find_chars, find_seq,
    head_of, is_text, starts, tail_of,
};

verus! {

/// What ends every style.
pub open spec fn reset() -> Seq<char> {
    "\x1b[0m"@
}

/// The columns of a character from U+00A0 on, box drawing aside, as the
/// Unicode tables give them.
pub uninterp spec fn table_width(c: char) -> nat;

/// The columns that a character takes up; a control character has none.
pub open spec fn width_of(c: char) -> Option<nat> {
    let u = c as int;
    if 0x20 <= u < 0x7f {
        Some(1)
    } else if u < 0xa0 {
        None
    } else if 0x2500 <= u < 0x2580 {
        Some(1)
    } else {
        Some(table_width(c))
    }
}

/// The columns that a character takes up, by `UnicodeWidthChar::width` of
/// unicode-width: one for printable ASCII and for the box drawing characters
/// from U+2500 to U+257F, `None` for a control character, and for the rest
/// what its Unicode tables say, three at most.
#[verifier::external_body]
fn char_width(c: char) -> (r: Option<usize>)
    ensures
        0x20 <= c as int && (c as int) < 0x7f ==> r == Some(1usize),
        (c as int) < 0x20 || (0x7f <= c as int && (c as int) < 0xa0) ==> r is None,
        0x2500 <= c as int && (c as int) < 0x2580 ==> r == Some(1usize),
        c as int >= 0xa0 && !(0x2500 <= c as int && (c as int) < 0x2580) ==> r is Some && r->0
            == table_width(c),
        r matches Some(n) ==> n <= 3,
{
    unicode_width::UnicodeWidthChar::width(c)
}

/// The columns that a character adds to a line.
pub open spec fn columns(c: char) -> nat {
    match width_of(c) {
        None => 0,
        Some(n) => n,
    }
}

pub(crate) fn char_columns(c: char) -> (r: usize)
    ensures
        r == columns(c),
        r <= 3,
{
    match char_width(c) {
        None => 0,
        Some(n) => n,
    }
}

/// Where a control sequence's final character stands.
pub open spec fn final_at(s: Seq<char>, from: int) -> int
    decreases s.len() - from,
{
    if from >= s.len() || '@' <= s[from] <= '~' {
        from
    } else {
        final_at(s, from + 1)
    }
}

/// How much of `s` is the escape sequence it starts with: CSI through its
/// final byte (SGR, for us), OSC through its ST (the copy hyperlink).
pub open spec fn escape_length(s: Seq<char>) -> int {
    if s.len() > 1 && s[1] == '[' {
        if final_at(s, 2) < s.len() {
            final_at(s, 2) + 1
        } else {
            s.len() as int
        }
    } else if s.len() > 1 && s[1] == ']' {
        match find_seq(s, "\x1b\\"@) {
            None => s.len() as int,
            Some(i) => i as int + 2,
        }
    } else {
        1
    }
}

/// Columns `s` occupies once the terminal has eaten the escape sequences.
pub open spec fn visible(s: Seq<char>) -> nat
    decreases s.len(),
{
    if s.len() == 0 {
        0
    } else if s[0] == '\u{1b}' {
        let n = escape_length(s);
        if 0 < n <= s.len() {
            visible(s.skip(n))
        } else {
            0
        }
    } else {
        columns(s[0]) + visible(s.skip(1))
    }
}

/// The text that is left once the terminal has eaten the escape sequences.
pub open spec fn bare(s: Seq<char>) -> Seq<char>
    decreases s.len(),
{
    if s.len() == 0 {
        Seq::empty()
    } else if s[0] == '\u{1b}' {
        let n = escape_length(s);
        if 0 < n <= s.len() {
            bare(s.skip(n))
        } else {
            Seq::empty()
        }
    } else {
        seq![s[0]] + bare(s.skip(1))
    }
}

/// How much of `s` is the escape sequence it starts with.
pub fn escape_len(s: &[char]) -> (n: usize)
    requires
        s@.len() > 0,
    ensures
        n == escape_length(s@),
        0 < n <= s@.len(),
{
    if s.len() > 1 && s[1] == '[' {
        let mut i: usize = 2;
        while i < s.len() && !(s[i] >= '@' && s[i] <= '~')
            invariant
                2 <= i <= s.len(),
                final_at(s@, 2) == final_at(s@, i as int),
            decreases s.len() - i,
        {
            i += 1;
        }
        if i < s.len() {
            i + 1
        } else {
            s.len()
        }
    } else if s.len() > 1 && s[1] == ']' {
        proof {
            reveal_strlit("\x1b\\");
        }
        match find_chars(s, &chars_of("\x1b\\")) {
            None => s.len(),
            Some(i) => i + 2,
        }
    } else {
        1
    }
}

/// Columns `s` occupies once the terminal has eaten the escape sequences.
pub fn visible_width(s: &[char]) -> (w: u128)
    ensures
        w == visible(s@),
        w <= 3 * s@.len(),
{
    let mut w: u128 = 0;
    let mut i: usize = 0;
    assert(s@.skip(0) =~= s@);
    while i < s.len()
        invariant
            i <= s.len(),
            visible(s@) == w + visible(s@.skip(i as int)),
            w <= 3 * i,
        decreases s.len() - i,
    {
        let rest = tail_of(s, i);
        assert(rest@[0] == s@[i as int]);
        if s[i] == '\u{1b}' {
            let n = escape_len(rest);
            assert(rest@.skip(n as int) =~= s@.skip(i + n));
            i += n;
        } else {
            w += char_columns(s[i]) as u128;
            assert(rest@.skip(1) =~= s@.skip(i + 1));
            i += 1;
        }
    }
    assert(s@.skip(i as int) =~= Seq::empty());
    w
}

/// The last space in a line: where it stands, the columns before it, and
/// the style there.
pub ghost struct SpaceAt {
    pub at: int,
    pub before: nat,
    pub style: Seq<char>,
}

/// Text that is being broken into lines.
pub ghost struct Wrapping {
    pub lines: Seq<Seq<char>>,
    pub line: Seq<char>,
    /// The columns of `line`.
    pub columns: nat,
    /// The style at the end of `line`.
    pub style: Seq<char>,
    pub space: Option<SpaceAt>,
}

/// A line that is ended while a style holds.
pub open spec fn closed(line: Seq<char>, style: Seq<char>) -> Seq<char> {
    if style.len() > 0 {
        line + reset()
    } else {
        line
    }
}

impl Wrapping {
    /// The line ended here, the style taken over to the next.
    pub open spec fn broken(self) -> Wrapping {
        Wrapping {
            lines: self.lines.push(closed(self.line, self.style)),
            line: self.style,
            columns: 0,
            style: self.style,
            space: None,
        }
    }

    /// The line ended at its last space, which is dropped.
    pub open spec fn broken_at_space(self) -> Wrapping {
        let s = self.space->0;
        Wrapping {
            lines: self.lines.push(closed(self.line.take(s.at), s.style)),
            line: s.style + self.line.skip(s.at + 1),
            columns: (self.columns - (s.before + 1)) as nat,
            style: self.style,
            space: None,
        }
    }

    /// Room made for `w` more columns.
    pub open spec fn with_room(self, w: nat, width: nat) -> Wrapping {
        if self.columns > 0 && self.columns + w > width {
            if self.space is Some {
                let next = self.broken_at_space();
                if next.columns > 0 && next.columns + w > width {
                    next.broken()
                } else {
                    next
                }
            } else {
                self.broken()
            }
        } else {
            self
        }
    }

    /// An escape sequence added.
    pub open spec fn with_escape(self, esc: Seq<char>) -> Wrapping {
        Wrapping {
            line: self.line + esc,
            style: if esc == reset() {
                Seq::empty()
            } else if begins_with(esc, "\x1b["@) && ends_with(esc, "m"@) {
                self.style + esc
            } else {
                self.style
            },
            ..self
        }
    }

    /// A character added.
    pub open spec fn with_char(self, c: char, width: nat, at_spaces: bool) -> Wrapping {
        if c == ' ' && at_spaces && self.columns == 0 {
            self
        } else if c == ' ' && at_spaces && self.columns + 1 > width {
            // The line is full: this space is the break.
            self.broken()
        } else {
            let noted = if c == ' ' && at_spaces {
                Wrapping {
                    space: Some(
                        SpaceAt {
                            at: self.line.len() as int,
                            before: self.columns,
                            style: self.style,
                        },
                    ),
                    ..self
                }
            } else {
                self
            };
            let room = noted.with_room(columns(c), width);
            Wrapping { line: room.line.push(c), columns: room.columns + columns(c), ..room }
        }
    }

    /// The rest of a text added.
    pub open spec fn with_text(self, rest: Seq<char>, width: nat, at_spaces: bool) -> Wrapping
        decreases rest.len(),
    {
        if rest.len() == 0 {
            self
        } else if rest[0] == '\u{1b}' {
            let n = escape_length(rest);
            if 0 < n <= rest.len() {
                self.with_escape(rest.take(n)).with_text(rest.skip(n), width, at_spaces)
            } else {
                self
            }
        } else {
            self.with_char(rest[0], width, at_spaces).with_text(rest.skip(1), width, at_spaces)
        }
    }

    /// The lines, the last one left out if only a reopened style is in it.
    pub open spec fn finished(self) -> Seq<Seq<char>> {
        if self.lines.len() == 0 || visible(self.line) > 0 {
            self.lines.push(self.line)
        } else {
            self.lines
        }
    }
}

/// Nothing wrapped yet.
pub open spec fn unwrapped() -> Wrapping {
    Wrapping {
        lines: Seq::empty(),
        line: Seq::empty(),
        columns: 0,
        style: Seq::empty(),
        space: None,
    }
}

/// Styled text broken into lines of at most `width` columns, at spaces when
/// `at_spaces`, mid-word when there's no other way. A style that spans a
/// break is closed on the one line and reopened on the next.
pub open spec fn wrapped(s: Seq<char>, width: nat, at_spaces: bool) -> Seq<Seq<char>> {
    unwrapped().with_text(s, width, at_spaces).finished()
}

/// Text that is being broken into lines.
struct Wrap {
    lines: Vec<Vec<char>>,
    line: Vec<char>,
    columns: u128,
    style: Vec<char>,
    space: Option<(usize, u128, Vec<char>)>,
}

impl View for Wrap {
    type V = Wrapping;

    closed spec fn view(&self) -> Wrapping {
        Wrapping {
            lines: chars_views(self.lines@),
            line: self.line@,
            columns: self.columns as nat,
            style: self.style@,
            space: match self.space {
                None => None,
                Some((at, before, style)) => Some(
                    SpaceAt { at: at as int, before: before as nat, style: style@ },
                ),
            },
        }
    }
}

fn copy_of(v: &Vec<char>) -> (r: Vec<char>)
    ensures
        r@ == v@,
{
    let mut r: Vec<char> = Vec::new();
    add_chars(&mut r, v);
    assert(r@ =~= v@);
    r
}

impl Wrap {
    /// The space noted lies in the line, its own column counted.
    spec fn wf(&self) -> bool {
        self.space matches Some((at, before, _)) ==> at < self.line@.len() && before
            < self.columns
    }

    fn end_line(&mut self)
        ensures
            final(self)@ == old(self)@.broken(),
            final(self).wf(),
            final(self).columns == 0,
    {
        let ghost before = self@;
        let mut line = copy_of(&self.style);
        std::mem::swap(&mut line, &mut self.line);
        if self.style.len() > 0 {
            add_text(&mut line, "\x1b[0m");
        }
        self.lines.push(line);
        self.columns = 0;
        self.space = None;
        assert(self@.lines =~= before.broken().lines);
    }

    fn end_at_space(&mut self)
        requires
            old(self).wf(),
            old(self).space is Some,
        ensures
            final(self)@ == old(self)@.broken_at_space(),
            final(self).wf(),
            final(self).columns < old(self).columns,
    {
        let ghost before = self@;
        let mut taken: Option<(usize, u128, Vec<char>)> = None;
        std::mem::swap(&mut taken, &mut self.space);
        if let Some((at, columns, style)) = taken {
            let length = self.line.len();
            assert(at < length);
            let mut line: Vec<char> = Vec::new();
            add_chars(&mut line, head_of(&self.line, at));
            assert(line@ =~= before.line.take(at as int));
            let mut next = copy_of(&style);
            add_chars(&mut next, tail_of(&self.line, at + 1));
            if style.len() > 0 {
                add_text(&mut line, "\x1b[0m");
            }
            self.lines.push(line);
            self.line = next;
            self.columns = self.columns - (columns + 1);
            assert(self@.lines =~= before.broken_at_space().lines);
        }
    }

    fn make_room(&mut self, w: usize, width: usize)
        requires
            old(self).wf(),
            w <= 3,
            old(self).columns <= u128::MAX - 3,
        ensures
            final(self)@ == old(self)@.with_room(w as nat, width as nat),
            final(self).wf(),
            final(self).columns <= old(self).columns,
    {
        if self.columns > 0 && self.columns + w as u128 > width as u128 {
            if self.space.is_some() {
                self.end_at_space();
                if self.columns > 0 && self.columns + w as u128 > width as u128 {
                    self.end_line();
                }
            } else {
                self.end_line();
            }
        }
    }

    fn add_escape(&mut self, esc: &[char])
        requires
            old(self).wf(),
        ensures
            final(self)@ == old(self)@.with_escape(esc@),
            final(self).wf(),
            final(self).columns == old(self).columns,
    {
        let ghost before = self@;
        add_chars(&mut self.line, esc);
        if is_text(esc, "\x1b[0m") {
            self.style = Vec::new();
            assert(self.style@ =~= Seq::empty());
        } else {
            proof {
                reveal_strlit("m");
            }
            assert(ends_with(esc@, "m"@) <==> esc@.len() > 0 && esc@.last() == 'm') by {
                if esc@.len() > 0 {
                    let t = esc@.skip(esc@.len() - 1);
                    assert(t.len() == 1 && t[0] == esc@.last());
                    if esc@.last() == 'm' {
                        assert(t =~= "m"@);
                    }
                }
            }
            if starts(esc, "\x1b[") && esc.len() > 0 && esc[esc.len() - 1] == 'm' {
                add_chars(&mut self.style, esc);
            }
        }
        assert(self@ == before.with_escape(esc@));
    }

    fn add_char(&mut self, c: char, width: usize, at_spaces: bool)
        requires
            old(self).wf(),
            old(self).columns <= u128::MAX - 6,
        ensures
            final(self)@ == old(self)@.with_char(c, width as nat, at_spaces),
            final(self).wf(),
            final(self).columns <= old(self).columns + 3,
    {
        let w = char_columns(c);
        if c == ' ' && at_spaces {
            if self.columns == 0 {
                return;
            }
            if self.columns + 1 > width as u128 {
                self.end_line();
                return;
            }
            let style = copy_of(&self.style);
            self.space = Some((self.line.len(), self.columns, style));
            // There is room for the space itself.
            assert(self@.with_room(w as nat, width as nat) == self@);
        } else {
            self.make_room(w, width);
        }
        self.line.push(c);
        self.columns = self.columns + w as u128;
    }
}

/// Break styled text into lines of at most `width` columns, at spaces when
/// `at_spaces`, mid-word when there's no other way. A style that spans a
/// break is closed on the one line and reopened on the next.
pub fn wrap(s: &[char], width: usize, at_spaces: bool) -> (r: Vec<Vec<char>>)
    ensures
        chars_views(r@) == wrapped(s@, width as nat, at_spaces),
{
    let mut w = Wrap {
        lines: Vec::new(),
        line: Vec::new(),
        columns: 0,
        style: Vec::new(),
        space: None,
    };
    proof {
        assert(w@.lines =~= Seq::empty());
        assert(w@.line =~= Seq::empty());
        assert(w@.style =~= Seq::empty());
        assert(w@ == unwrapped());
        assert(s@.skip(0) =~= s@);
    }
    let mut i: usize = 0;
    while i < s.len()
        invariant
            i <= s.len(),
            w.wf(),
            w.columns <= 3 * i,
            unwrapped().with_text(s@, width as nat, at_spaces) == w@.with_text(
                s@.skip(i as int),
                width as nat,
                at_spaces,
            ),
        decreases s.len() - i,
    {
        let rest = tail_of(s, i);
        assert(rest@[0] == s@[i as int]);
        if s[i] == '\u{1b}' {
            let n = escape_len(rest);
            w.add_escape(head_of(rest, n));
            assert(rest@.skip(n as int) =~= s@.skip(i + n));
            i += n;
        } else {
            w.add_char(s[i], width, at_spaces);
            assert(rest@.skip(1) =~= s@.skip(i + 1));
            i += 1;
        }
    }
    assert(s@.skip(i as int) =~= Seq::empty());
    let ghost done = w@;
    if w.lines.len() == 0 || visible_width(&w.line) > 0 {
        let mut line: Vec<char> = Vec::new();
        std::mem::swap(&mut line, &mut w.line);
        w.lines.push(line);
    }
    assert(chars_views(w.lines@) =~= done.finished());
    w.lines
}

} // verus!
