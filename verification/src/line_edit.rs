//! A one-line text field with a cursor, for the small inputs that live in
//! footers and overlays. Owns the editing keys so each input doesn't have to.
use vstd::prelude::*;

use crate::keymap::keystroke::{Keystroke, Modifiers};
use crate::text::{chars_of, same, slice_of, string_of};

verus! {

/// A line of text and the cursor in it.
#[derive(Debug, Clone, PartialEq)]
pub struct LineEdit {
    pub text: String,
    /// In chars, not bytes.
    pub cursor: usize,
}

/// A line as a whole: what stands before the cursor and what after it.
#[verifier::ext_equal]
pub ghost struct Line {
    pub before: Seq<char>,
    pub after: Seq<char>,
}

impl Line {
    /// The text of the line.
    pub open spec fn text(self) -> Seq<char> {
        self.before + self.after
    }

    /// The line with the cursor at its start.
    pub open spec fn home(self) -> Line {
        Line { before: Seq::empty(), after: self.text() }
    }

    /// The line with the cursor at its end.
    pub open spec fn end(self) -> Line {
        Line { before: self.text(), after: Seq::empty() }
    }

    /// The line with the cursor one character to the left.
    pub open spec fn left(self) -> Line {
        if self.before.len() == 0 {
            self
        } else {
            Line { before: self.before.drop_last(), after: seq![self.before.last()] + self.after }
        }
    }

    /// The line with the cursor one character to the right.
    pub open spec fn right(self) -> Line {
        if self.after.len() == 0 {
            self
        } else {
            Line { before: self.before.push(self.after[0]), after: self.after.skip(1) }
        }
    }

    /// The line without the character before the cursor.
    pub open spec fn erased(self) -> Line {
        if self.before.len() == 0 {
            self
        } else {
            Line { before: self.before.drop_last(), after: self.after }
        }
    }

    /// The line without the character after the cursor.
    pub open spec fn cut(self) -> Line {
        if self.after.len() == 0 {
            self
        } else {
            Line { before: self.before, after: self.after.skip(1) }
        }
    }

    /// The line with a text typed at the cursor.
    pub open spec fn typed(self, text: Seq<char>) -> Line {
        Line { before: self.before + text, after: self.after }
    }
}

/// What an editing key makes of a line, or `None` for any other key.
pub open spec fn edited(
    line: Line,
    key: Seq<char>,
    m: Modifiers,
    typed: Option<Seq<char>>,
) -> Option<Line> {
    if key == "left"@ {
        Some(
            if m.platform {
                line.home()
            } else {
                line.left()
            },
        )
    } else if key == "right"@ {
        Some(
            if m.platform {
                line.end()
            } else {
                line.right()
            },
        )
    } else if key == "home"@ || (key == "a"@ && m.control) {
        Some(line.home())
    } else if key == "end"@ || (key == "e"@ && m.control) {
        Some(line.end())
    } else if key == "backspace"@ {
        Some(line.erased())
    } else if key == "delete"@ {
        Some(line.cut())
    } else if typed is Some && !m.platform && !m.control && !m.function {
        Some(line.typed(typed->0))
    } else {
        None
    }
}

/// The text that a key press composes.
pub open spec fn composed(ks: Keystroke) -> Option<Seq<char>> {
    match ks.key_char {
        None => None,
        Some(t) => Some(t@),
    }
}

impl View for LineEdit {
    type V = Line;

    open spec fn view(&self) -> Line {
        Line {
            before: self.text@.take(self.cursor as int),
            after: self.text@.skip(self.cursor as int),
        }
    }
}

impl LineEdit {
    /// The cursor lies within the text.
    pub open spec fn wf(&self) -> bool {
        self.cursor <= self.text@.len()
    }

    /// Start with `text` and the cursor at its end.
    pub fn new(text: String) -> (r: Self)
        ensures
            r.wf(),
            r.text@ == text@,
            r@ == (Line { before: text@, after: Seq::empty() }),
    {
        let cursor = chars_of(text.as_str()).len();
        let r = Self { text, cursor };
        assert(r@ =~= (Line { before: text@, after: Seq::empty() }));
        r
    }

    /// Start with `text` and the cursor at its start, for prefilled paths
    /// that most often get a directory typed in front.
    pub fn at_start(text: String) -> (r: Self)
        ensures
            r.wf(),
            r.text@ == text@,
            r@ == (Line { before: Seq::empty(), after: text@ }),
    {
        let r = Self { text, cursor: 0 };
        assert(r@ =~= (Line { before: Seq::empty(), after: text@ }));
        r
    }

    /// Apply an editing key. Returns whether it was one; anything else
    /// (enter, escape) is the caller's.
    pub fn handle(&mut self, ks: &Keystroke) -> (r: bool)
        requires
            old(self).wf(),
        ensures
            final(self).wf(),
            final(self).text@ == final(self)@.text(),
            match edited(old(self)@, ks.key@, ks.modifiers, composed(*ks)) {
                None => !r && *final(self) == *old(self),
                Some(line) => r && final(self)@ == line,
            },
    {
        let m = &ks.modifiers;
        let chars = chars_of(self.text.as_str());
        let len = chars.len();
        let key = ks.key.as_str();
        let ghost line = self@;
        assert(line.text() =~= self.text@);
        if same(key, "left") {
            if m.platform {
                self.cursor = 0;
                assert(self@ =~= line.home());
            } else {
                if self.cursor > 0 {
                    self.cursor = self.cursor - 1;
                }
                assert(self@ =~= line.left());
            }
        } else if same(key, "right") {
            if m.platform {
                self.cursor = len;
                assert(self@ =~= line.end());
            } else {
                if self.cursor < len {
                    self.cursor = self.cursor + 1;
                }
                assert(self@ =~= line.right());
            }
        } else if same(key, "home") || (same(key, "a") && m.control) {
            self.cursor = 0;
            assert(self@ =~= line.home());
        } else if same(key, "end") || (same(key, "e") && m.control) {
            self.cursor = len;
            assert(self@ =~= line.end());
        } else if same(key, "backspace") {
            if self.cursor > 0 {
                let mut rest = slice_of(&chars, 0, self.cursor - 1);
                let mut tail = slice_of(&chars, self.cursor, len);
                rest.append(&mut tail);
                self.text = string_of(&rest);
                self.cursor = self.cursor - 1;
            }
            assert(self@ =~= line.erased());
        } else if same(key, "delete") {
            if self.cursor < len {
                let mut rest = slice_of(&chars, 0, self.cursor);
                let mut tail = slice_of(&chars, self.cursor + 1, len);
                rest.append(&mut tail);
                self.text = string_of(&rest);
            }
            assert(self@ =~= line.cut());
        } else {
            if m.platform || m.control || m.function {
                assert(self.text@ =~= self@.text());
                return false;
            }
            match &ks.key_char {
                None => {
                    assert(self.text@ =~= self@.text());
                    return false;
                },
                Some(c) => {
                    let mut typed = chars_of(c.as_str());
                    let mut rest = slice_of(&chars, 0, self.cursor);
                    let mut tail = slice_of(&chars, self.cursor, len);
                    rest.append(&mut typed);
                    let at = rest.len();
                    rest.append(&mut tail);
                    self.text = string_of(&rest);
                    self.cursor = at;
                    assert(self@ =~= line.typed(c@));
                },
            }
        }
        assert(self.text@ =~= self@.text());
        true
    }

    /// The text either side of the cursor, so a caller can draw a real
    /// caret between them (a glyph would take a whole monospace cell).
    pub fn split(&self) -> (r: (String, String))
        requires
            self.wf(),
        ensures
            r.0@ == self@.before,
            r.1@ == self@.after,
    {
        let chars = chars_of(self.text.as_str());
        let before = slice_of(&chars, 0, self.cursor);
        let after = slice_of(&chars, self.cursor, chars.len());
        assert(before@ =~= self@.before);
        assert(after@ =~= self@.after);
        (string_of(&before), string_of(&after))
    }
}

/// Erasing what was typed gives the line back.
pub proof fn lemma_backspace_undoes_typing(line: Line, c: char)
    ensures
        line.typed(seq![c]).erased() == line,
{
    assert(line.typed(seq![c]).erased() =~= line);
}

/// Moving the cursor leaves the text as it is.
pub proof fn lemma_moves_keep_text(line: Line)
    ensures
        line.home().text() == line.text(),
        line.end().text() == line.text(),
        line.left().text() == line.text(),
        line.right().text() == line.text(),
{
    assert(line.home().text() =~= line.text());
    assert(line.end().text() =~= line.text());
    assert(line.left().text() =~= line.text());
    assert(line.right().text() =~= line.text());
}

/// The names of the editing keys, spelled out.
proof fn lemma_spellings()
    ensures
        "left"@.len() == 4 && "left"@ =~= seq!['l', 'e', 'f', 't'],
        "right"@.len() == 5 && "right"@ =~= seq!['r', 'i', 'g', 'h', 't'],
        "home"@.len() == 4 && "home"@ =~= seq!['h', 'o', 'm', 'e'],
        "end"@.len() == 3 && "end"@ =~= seq!['e', 'n', 'd'],
        "backspace"@.len() == 9 && "backspace"@ =~= seq!['b', 'a', 'c', 'k', 's', 'p', 'a', 'c', 'e'],
        "delete"@.len() == 6 && "delete"@ =~= seq!['d', 'e', 'l', 'e', 't', 'e'],
        "a"@.len() == 1 && "a"@ =~= seq!['a'],
        "e"@.len() == 1 && "e"@ =~= seq!['e'],
{
    reveal_strlit("left");
    reveal_strlit("right");
    reveal_strlit("home");
    reveal_strlit("end");
    reveal_strlit("backspace");
    reveal_strlit("delete");
    reveal_strlit("a");
    reveal_strlit("e");
}

/// The arrows move the cursor over one character, and not past the ends.
pub proof fn lemma_arrows(b: Seq<char>, c: char, a: Seq<char>, m: Modifiers, typed: Option<Seq<char>>)
    requires
        !m.platform,
    ensures
        edited(Line { before: b.push(c), after: a }, "left"@, m, typed) == Some(
            Line { before: b, after: seq![c] + a },
        ),
        edited(Line { before: b, after: seq![c] + a }, "right"@, m, typed) == Some(
            Line { before: b.push(c), after: a },
        ),
        edited(Line { before: Seq::empty(), after: a }, "left"@, m, typed) == Some(
            Line { before: Seq::empty(), after: a },
        ),
        edited(Line { before: b, after: Seq::empty() }, "right"@, m, typed) == Some(
            Line { before: b, after: Seq::empty() },
        ),
{
    lemma_spellings();
    assert(b.push(c).drop_last() =~= b);
    assert((seq![c] + a).skip(1) =~= a);
    assert("left"@.len() != "right"@.len());
}

/// Home, control with `a`, and left with the platform key go to the start;
/// end, control with `e`, and right with the platform key go to the end.
pub proof fn lemma_far_moves(line: Line, m: Modifiers, typed: Option<Seq<char>>)
    ensures
        ({
            let text = line.before + line.after;
            let start = Some(Line { before: Seq::empty(), after: text });
            let end = Some(Line { before: text, after: Seq::empty() });
            &&& edited(line, "home"@, m, typed) == start
            &&& edited(line, "end"@, m, typed) == end
            &&& m.platform ==> edited(line, "left"@, m, typed) == start
            &&& m.platform ==> edited(line, "right"@, m, typed) == end
            &&& m.control ==> edited(line, "a"@, m, typed) == start
            &&& m.control ==> edited(line, "e"@, m, typed) == end
        }),
{
    lemma_spellings();
    assert("left"@[0] == 'l' && "home"@[0] == 'h');
    assert("a"@[0] == 'a' && "e"@[0] == 'e');
    assert("left"@.len() != "right"@.len() && "left"@.len() != "end"@.len());
    assert("end"@.len() != "home"@.len() && "end"@.len() != "right"@.len());
    assert("right"@.len() != "home"@.len());
}

/// Backspace takes the character before the cursor away, delete the one
/// behind it; where there is none, nothing changes.
pub proof fn lemma_taking_away(
    b: Seq<char>,
    c: char,
    a: Seq<char>,
    m: Modifiers,
    typed: Option<Seq<char>>,
)
    ensures
        edited(Line { before: b.push(c), after: a }, "backspace"@, m, typed) == Some(
            Line { before: b, after: a },
        ),
        edited(Line { before: b, after: seq![c] + a }, "delete"@, m, typed) == Some(
            Line { before: b, after: a },
        ),
        edited(Line { before: Seq::empty(), after: a }, "backspace"@, m, typed) == Some(
            Line { before: Seq::empty(), after: a },
        ),
        edited(Line { before: b, after: Seq::empty() }, "delete"@, m, typed) == Some(
            Line { before: b, after: Seq::empty() },
        ),
{
    lemma_spellings();
    assert(b.push(c).drop_last() =~= b);
    assert((seq![c] + a).skip(1) =~= a);
    assert("backspace"@.len() == 9 && "delete"@.len() == 6);
}

/// Any other key puts what it types before the cursor, unless control, the
/// platform key or the function key is held; then it is not for the line.
pub proof fn lemma_typing(line: Line, key: Seq<char>, m: Modifiers, text: Seq<char>)
    requires
        key != "left"@,
        key != "right"@,
        key != "home"@,
        key != "end"@,
        key != "backspace"@,
        key != "delete"@,
    ensures
        !m.control && !m.platform && !m.function ==> edited(line, key, m, Some(text)) == Some(
            Line { before: line.before + text, after: line.after },
        ),
        m.control && key != "a"@ && key != "e"@ ==> edited(line, key, m, Some(text)) is None,
        m.platform && !m.control ==> edited(line, key, m, Some(text)) is None,
        m.function && !m.control ==> edited(line, key, m, Some(text)) is None,
        !m.control ==> edited(line, key, m, None) is None,
{
}

} // verus!
