//! What wrapping keeps: no line is too long, and no text is lost.
use vstd::prelude::*;

use crate::markdown::ansi::{
    bare, closed, columns, escape_length, final_at, reset, unwrapped, visible, wrapped, Wrapping,
};
use crate::markdown::highlight::{
    look, look_codes, painted, piece_text, run_text, runs, runs_text, PieceRow, Run,
};
use crate::markdown::table::{
    bars, border_line, cell, cell_text, gap, lead, lemma_shrunk, line_text, room, shrunk, total,
    wrapped_row, Align,
};
use crate::markdown::{
    beyond, box_foot, box_line, box_top, code_rows, edge_of, inner_of, label_of, widest_row,
};
use crate::text::{begins_with, decimal, find_seq, join, lemma_find_seq, repeated, strip_end};

verus! {

/// Whether a text starts with an escape sequence that ends inside it.
pub open spec fn terminated(s: Seq<char>) -> bool {
    s.len() > 1 && ((s[1] == '[' && final_at(s, 2) < s.len()) || (s[1] == ']' && find_seq(
        s,
        "\x1b\\"@,
    ) is Some))
}

/// Whether every escape sequence of a text is whole, as in styled text.
pub open spec fn tidy(s: Seq<char>) -> bool
    decreases s.len(),
{
    if s.len() == 0 {
        true
    } else if s[0] == '\u{1b}' {
        let n = escape_length(s);
        terminated(s) && if 0 < n <= s.len() {
            tidy(s.skip(n))
        } else {
            false
        }
    } else {
        tidy(s.skip(1))
    }
}

/// Whether no character of a text is wider than a line.
pub open spec fn narrow(s: Seq<char>, width: nat) -> bool {
    forall|i: int| 0 <= i < bare(s).len() ==> columns(#[trigger] bare(s)[i]) <= width
}

/// Whether every character of a text can be seen.
pub open spec fn solid(s: Seq<char>) -> bool {
    forall|i: int| 0 <= i < bare(s).len() ==> columns(#[trigger] bare(s)[i]) > 0
}

/// A text without its spaces.
pub open spec fn unspaced(s: Seq<char>) -> Seq<char>
    decreases s.len(),
{
    if s.len() == 0 {
        Seq::empty()
    } else if s.last() == ' ' {
        unspaced(s.drop_last())
    } else {
        unspaced(s.drop_last()).push(s.last())
    }
}

/// What the reader sees of some lines, spaces aside.
pub open spec fn ink(lines: Seq<Seq<char>>) -> Seq<char>
    decreases lines.len(),
{
    if lines.len() == 0 {
        Seq::empty()
    } else {
        ink(lines.drop_last()) + unspaced(bare(lines.last()))
    }
}

proof fn lemma_final_at(s: Seq<char>, from: int)
    requires
        0 <= from <= s.len(),
    ensures
        from <= final_at(s, from) <= s.len(),
    decreases s.len() - from,
{
    if from < s.len() && !('@' <= s[from] <= '~') {
        lemma_final_at(s, from + 1);
    }
}

/// Where a sequence ends does not depend on what follows it.
proof fn lemma_final_prefix(s: Seq<char>, t: Seq<char>, from: int)
    requires
        0 <= from <= s.len(),
        final_at(s, from) < s.len(),
    ensures
        final_at(s + t, from) == final_at(s, from),
    decreases s.len() - from,
{
    if !('@' <= s[from] <= '~') {
        lemma_final_at(s, from + 1);
        lemma_final_prefix(s, t, from + 1);
    }
}

proof fn lemma_find_prefix(s: Seq<char>, t: Seq<char>, p: Seq<char>)
    requires
        find_seq(s, p) is Some,
    ensures
        find_seq(s + t, p) == find_seq(s, p),
    decreases s.len(),
{
    lemma_find_seq(s, p);
    if begins_with(s, p) {
        assert((s + t).take(p.len() as int) =~= s.take(p.len() as int));
    } else {
        lemma_find_seq(s.skip(1), p);
        assert(!begins_with(s + t, p)) by {
            let n = find_seq(s.skip(1), p)->0;
            assert(n + p.len() <= s.skip(1).len());
            if begins_with(s + t, p) {
                assert((s + t).take(p.len() as int) =~= s.take(p.len() as int));
            }
        }
        assert((s + t).skip(1) =~= s.skip(1) + t);
        lemma_find_prefix(s.skip(1), t, p);
    }
}

proof fn lemma_terminated(s: Seq<char>)
    requires
        terminated(s),
    ensures
        2 <= escape_length(s) <= s.len(),
{
    reveal_strlit("\x1b\\");
    if s[1] == '[' {
        lemma_final_at(s, 2);
    } else {
        lemma_find_seq(s, "\x1b\\"@);
    }
}

proof fn lemma_escape_prefix(s: Seq<char>, t: Seq<char>)
    requires
        terminated(s),
    ensures
        terminated(s + t),
        escape_length(s + t) == escape_length(s),
{
    assert((s + t)[1] == s[1]);
    if s[1] == '[' {
        lemma_final_at(s, 2);
        lemma_final_prefix(s, t, 2);
    } else {
        lemma_find_prefix(s, t, "\x1b\\"@);
    }
}

/// An escape sequence cut out of a text is one in itself.
pub proof fn lemma_escape_alone(s: Seq<char>)
    requires
        terminated(s),
        s[0] == '\u{1b}',
    ensures
        tidy(s.take(escape_length(s))),
        visible(s.take(escape_length(s))) == 0,
        bare(s.take(escape_length(s))) == Seq::<char>::empty(),
{
    lemma_terminated(s);
    let n = escape_length(s);
    let e = s.take(n);
    assert(e[0] == s[0] && e[1] == s[1]);
    if s[1] == '[' {
        lemma_final_at(s, 2);
        lemma_final_take(s, 2, n);
    } else {
        reveal_strlit("\x1b\\");
        lemma_find_seq(s, "\x1b\\"@);
        lemma_find_take(s, "\x1b\\"@);
    }
    assert(escape_length(e) == n);
    assert(e.skip(n) =~= Seq::empty());
    assert(tidy(e.skip(n)));
    assert(visible(e.skip(n)) == 0);
    assert(bare(e.skip(n)) =~= Seq::empty());
}

proof fn lemma_final_take(s: Seq<char>, from: int, n: int)
    requires
        0 <= from <= s.len(),
        final_at(s, from) < s.len(),
        n == final_at(s, from) + 1,
    ensures
        final_at(s.take(n), from) == final_at(s, from),
    decreases s.len() - from,
{
    lemma_final_at(s, from);
    if !('@' <= s[from] <= '~') {
        lemma_final_at(s, from + 1);
        lemma_final_take(s, from + 1, n);
    }
}

proof fn lemma_find_take(s: Seq<char>, p: Seq<char>)
    requires
        find_seq(s, p) is Some,
    ensures
        find_seq(s.take((find_seq(s, p)->0 + p.len()) as int), p) == find_seq(s, p),
    decreases s.len(),
{
    lemma_find_seq(s, p);
    let i = find_seq(s, p)->0;
    let e = s.take((i + p.len()) as int);
    if begins_with(s, p) {
        assert(e.take(p.len() as int) =~= s.take(p.len() as int));
    } else {
        assert(!begins_with(e, p)) by {
            if begins_with(e, p) {
                assert(e.take(p.len() as int) =~= s.take(p.len() as int));
            }
        }
        lemma_find_take(s.skip(1), p);
        assert(e.skip(1) =~= s.skip(1).take(i - 1 + p.len()));
    }
}

/// Styled texts put together show one after the other.
pub proof fn lemma_join(a: Seq<char>, b: Seq<char>)
    requires
        tidy(a),
    ensures
        visible(a + b) == visible(a) + visible(b),
        bare(a + b) == bare(a) + bare(b),
        tidy(b) ==> tidy(a + b),
    decreases a.len(),
{
    let s = a + b;
    if a.len() == 0 {
        assert(s =~= b);
        assert(bare(a) + bare(b) =~= bare(b));
    } else {
        assert(s[0] == a[0]);
        if a[0] == '\u{1b}' {
            let n = escape_length(a);
            lemma_terminated(a);
            lemma_escape_prefix(a, b);
            assert(s.skip(n) =~= a.skip(n) + b);
            lemma_join(a.skip(n), b);
        } else {
            assert(s.skip(1) =~= a.skip(1) + b);
            lemma_join(a.skip(1), b);
            assert(bare(s) =~= bare(a) + bare(b));
        }
    }
}

proof fn lemma_one(c: char)
    requires
        c != '\u{1b}',
    ensures
        tidy(seq![c]),
        visible(seq![c]) == columns(c),
        bare(seq![c]) == seq![c],
{
    let s = seq![c];
    assert(s.skip(1) =~= Seq::empty());
    assert(bare(s.skip(1)) =~= Seq::empty());
    assert(visible(s.skip(1)) == 0);
    assert(tidy(s.skip(1)));
    assert(bare(s) =~= seq![c]);
}

pub proof fn lemma_reset()
    ensures
        tidy(reset()),
        visible(reset()) == 0,
        bare(reset()) == Seq::<char>::empty(),
{
    reveal_strlit("\x1b[0m");
    let s = reset();
    assert(final_at(s, 3) == 3);
    assert(final_at(s, 2) == 3);
    assert(terminated(s));
    assert(escape_length(s) == 4);
    assert(s.take(4) =~= s);
    lemma_escape_alone(s);
}

proof fn lemma_closed(line: Seq<char>, style: Seq<char>)
    requires
        tidy(line),
    ensures
        visible(closed(line, style)) == visible(line),
        bare(closed(line, style)) == bare(line),
        tidy(closed(line, style)),
{
    lemma_reset();
    lemma_join(line, reset());
    assert(bare(line) + bare(reset()) =~= bare(line));
}

proof fn lemma_unspaced_join(a: Seq<char>, b: Seq<char>)
    ensures
        unspaced(a + b) == unspaced(a) + unspaced(b),
    decreases b.len(),
{
    if b.len() == 0 {
        assert(a + b =~= a);
        assert(unspaced(a) + unspaced(b) =~= unspaced(a));
    } else {
        assert((a + b).drop_last() =~= a + b.drop_last());
        lemma_unspaced_join(a, b.drop_last());
        assert(unspaced(a + b) =~= unspaced(a) + unspaced(b));
    }
}

proof fn lemma_ink_push(lines: Seq<Seq<char>>, line: Seq<char>)
    ensures
        ink(lines.push(line)) == ink(lines) + unspaced(bare(line)),
{
    assert(lines.push(line).drop_last() =~= lines);
}

/// Whether the wrapping so far is sound: what is counted is what shows, no
/// line is longer than `width`, and every character on the line can be seen.
spec fn sound(w: Wrapping, width: nat, firm: bool) -> bool {
    &&& tidy(w.line)
    &&& tidy(w.style)
    &&& visible(w.style) == 0
    &&& bare(w.style) == Seq::<char>::empty()
    &&& visible(w.line) == w.columns
    &&& w.columns <= width
    &&& firm ==> solid(w.line)
    &&& forall|i: int|
        0 <= i < w.lines.len() ==> visible(#[trigger] w.lines[i]) <= width && tidy(w.lines[i])
    &&& w.space matches Some(sp) ==> {
        &&& 0 <= sp.at < w.line.len()
        &&& w.line[sp.at] == ' '
        &&& tidy(w.line.take(sp.at))
        &&& tidy(w.line.skip(sp.at + 1))
        &&& tidy(sp.style)
        &&& visible(sp.style) == 0
        &&& bare(sp.style) == Seq::<char>::empty()
        &&& visible(w.line.take(sp.at)) == sp.before
    }
}

/// What has been taken in so far, spaces aside.
spec fn taken(w: Wrapping) -> Seq<char> {
    ink(w.lines) + unspaced(bare(w.line))
}

proof fn lemma_broken(w: Wrapping, width: nat, firm: bool)
    requires
        sound(w, width, firm),
    ensures
        sound(w.broken(), width, firm),
        w.broken().columns == 0,
        taken(w.broken()) == taken(w),
{
    let next = w.broken();
    lemma_closed(w.line, w.style);
    lemma_ink_push(w.lines, closed(w.line, w.style));
    assert(taken(next) =~= taken(w)) by {
        assert(unspaced(bare(next.line)) =~= Seq::empty());
    }
    assert forall|i: int| 0 <= i < next.lines.len() implies visible(#[trigger] next.lines[i])
        <= width && tidy(next.lines[i]) by {
        if i < w.lines.len() {
            assert(next.lines[i] == w.lines[i]);
        }
    }
}

proof fn lemma_space_parts(w: Wrapping, width: nat, firm: bool)
    requires
        sound(w, width, firm),
        w.space is Some,
    ensures
        ({
            let sp = w.space->0;
            let head = w.line.take(sp.at);
            let tail = w.line.skip(sp.at + 1);
            &&& visible(w.line) == visible(head) + 1 + visible(tail)
            &&& bare(w.line) == bare(head) + seq![' '] + bare(tail)
        }),
{
    let sp = w.space->0;
    let head = w.line.take(sp.at);
    let tail = w.line.skip(sp.at + 1);
    assert(w.line =~= head + (seq![' '] + tail));
    lemma_one(' ');
    lemma_join(seq![' '], tail);
    lemma_join(head, seq![' '] + tail);
    assert(bare(w.line) =~= bare(head) + seq![' '] + bare(tail));
}

proof fn lemma_broken_at_space(w: Wrapping, width: nat, firm: bool)
    requires
        sound(w, width, firm),
        w.space is Some,
    ensures
        sound(w.broken_at_space(), width, firm),
        w.broken_at_space().columns < w.columns,
        taken(w.broken_at_space()) == taken(w),
{
    let sp = w.space->0;
    let next = w.broken_at_space();
    let head = w.line.take(sp.at);
    let tail = w.line.skip(sp.at + 1);
    lemma_space_parts(w, width, firm);
    lemma_closed(head, sp.style);
    lemma_join(sp.style, tail);
    assert(bare(next.line) =~= bare(tail));
    lemma_ink_push(w.lines, closed(head, sp.style));
    lemma_unspaced_join(bare(head) + seq![' '], bare(tail));
    lemma_unspaced_join(bare(head), seq![' ']);
    assert(unspaced(seq![' ']) =~= Seq::empty()) by {
        assert(seq![' '].drop_last() =~= Seq::<char>::empty());
        assert(unspaced(seq![' '].drop_last()) =~= Seq::<char>::empty());
    }
    assert(taken(next) =~= taken(w));
    assert forall|i: int| 0 <= i < next.lines.len() implies visible(#[trigger] next.lines[i])
        <= width && tidy(next.lines[i]) by {
        if i < w.lines.len() {
            assert(next.lines[i] == w.lines[i]);
        }
    }
    if firm {
        let n = bare(head).len() + 1;
        assert forall|i: int| 0 <= i < bare(next.line).len() implies columns(
            #[trigger] bare(next.line)[i],
        ) > 0 by {
            assert(bare(w.line)[n + i] == bare(tail)[i]);
        }
    }
}

proof fn lemma_with_room(w: Wrapping, n: nat, width: nat, firm: bool)
    requires
        sound(w, width, firm),
        n <= width,
    ensures
        sound(w.with_room(n, width), width, firm),
        w.with_room(n, width).columns + n <= width,
        taken(w.with_room(n, width)) == taken(w),
{
    if w.columns > 0 && w.columns + n > width {
        if w.space is Some {
            lemma_broken_at_space(w, width, firm);
            let next = w.broken_at_space();
            if next.columns > 0 && next.columns + n > width {
                lemma_broken(next, width, firm);
            }
        } else {
            lemma_broken(w, width, firm);
        }
    }
}

proof fn lemma_with_escape(w: Wrapping, rest: Seq<char>, width: nat, firm: bool)
    requires
        sound(w, width, firm),
        rest.len() > 0,
        rest[0] == '\u{1b}',
        terminated(rest),
    ensures
        sound(w.with_escape(rest.take(escape_length(rest))), width, firm),
        taken(w.with_escape(rest.take(escape_length(rest)))) == taken(w),
{
    lemma_terminated(rest);
    let e = rest.take(escape_length(rest));
    lemma_escape_alone(rest);
    let next = w.with_escape(e);
    lemma_join(w.line, e);
    assert(bare(next.line) =~= bare(w.line));
    lemma_join(w.style, e);
    assert(bare(w.style + e) =~= Seq::empty());
    lemma_spaced_on(w, e, width, firm);
}

/// The space noted stays noted as the line grows.
proof fn lemma_spaced_on(w: Wrapping, more: Seq<char>, width: nat, firm: bool)
    requires
        sound(w, width, firm),
        tidy(more),
    ensures
        w.space matches Some(sp) ==> {
            let line = w.line + more;
            &&& line[sp.at] == ' '
            &&& tidy(line.take(sp.at))
            &&& tidy(line.skip(sp.at + 1))
            &&& visible(line.take(sp.at)) == sp.before
        },
{
    if let Some(sp) = w.space {
        let line = w.line + more;
        assert(line.take(sp.at) =~= w.line.take(sp.at));
        assert(line.skip(sp.at + 1) =~= w.line.skip(sp.at + 1) + more);
        lemma_join(w.line.skip(sp.at + 1), more);
    }
}

/// A character put at the end of a line that has room for it.
proof fn lemma_put(w: Wrapping, c: char, width: nat, firm: bool)
    requires
        sound(w, width, firm),
        c != '\u{1b}',
        firm ==> columns(c) > 0,
        w.columns + columns(c) <= width,
    ensures
        ({
            let next = Wrapping {
                line: w.line.push(c),
                columns: w.columns + columns(c),
                ..w
            };
            sound(next, width, firm) && taken(next) == taken(w) + unspaced(seq![c])
        }),
{
    let next = Wrapping { line: w.line.push(c), columns: w.columns + columns(c), ..w };
    lemma_one(c);
    lemma_join(w.line, seq![c]);
    assert(w.line.push(c) =~= w.line + seq![c]);
    lemma_spaced_on(w, seq![c], width, firm);
    lemma_unspaced_join(bare(w.line), seq![c]);
    assert(taken(next) =~= taken(w) + unspaced(seq![c]));
    if firm {
        assert forall|i: int| 0 <= i < bare(next.line).len() implies columns(
            #[trigger] bare(next.line)[i],
        ) > 0 by {
            if i < bare(w.line).len() {
                assert(bare(next.line)[i] == bare(w.line)[i]);
            }
        }
    }
}

proof fn lemma_with_char(w: Wrapping, c: char, width: nat, at_spaces: bool, firm: bool)
    requires
        sound(w, width, firm),
        c != '\u{1b}',
        columns(c) <= width,
        firm ==> columns(c) > 0,
    ensures
        sound(w.with_char(c, width, at_spaces), width, firm),
        taken(w.with_char(c, width, at_spaces)) == taken(w) + unspaced(seq![c]),
{
    assert(seq![c].drop_last() =~= Seq::<char>::empty());
    assert(unspaced(seq![c].drop_last()) =~= Seq::<char>::empty());
    if c == ' ' {
        assert(unspaced(seq![c]) =~= Seq::<char>::empty());
        assert(taken(w) + unspaced(seq![c]) =~= taken(w));
    }
    if c == ' ' && at_spaces && w.columns == 0 {
    } else if c == ' ' && at_spaces && w.columns + 1 > width {
        lemma_broken(w, width, firm);
    } else if c == ' ' && at_spaces {
        // The space is noted where it is put.
        let next = w.with_char(c, width, at_spaces);
        let plain = Wrapping { line: w.line.push(c), columns: w.columns + columns(c), ..w };
        lemma_put(w, c, width, firm);
        assert(next.line == plain.line && next.columns == plain.columns && next.lines
            == plain.lines && next.style == plain.style);
        assert(next.line.take(w.line.len() as int) =~= w.line);
        assert(next.line.skip(w.line.len() as int + 1) =~= Seq::empty());
    } else {
        lemma_with_room(w, columns(c), width, firm);
        let room = w.with_room(columns(c), width);
        lemma_put(room, c, width, firm);
    }
}

proof fn lemma_with_text(w: Wrapping, rest: Seq<char>, width: nat, at_spaces: bool, firm: bool)
    requires
        sound(w, width, firm),
        tidy(rest),
        narrow(rest, width),
        firm ==> solid(rest),
    ensures
        sound(w.with_text(rest, width, at_spaces), width, firm),
        taken(w.with_text(rest, width, at_spaces)) == taken(w) + unspaced(bare(rest)),
    decreases rest.len(),
{
    if rest.len() == 0 {
        assert(taken(w) + unspaced(bare(rest)) =~= taken(w));
    } else if rest[0] == '\u{1b}' {
        let n = escape_length(rest);
        lemma_terminated(rest);
        lemma_with_escape(w, rest, width, firm);
        assert(bare(rest) == bare(rest.skip(n)));
        lemma_with_text(w.with_escape(rest.take(n)), rest.skip(n), width, at_spaces, firm);
    } else {
        let tail = rest.skip(1);
        let c = rest[0];
        assert(bare(rest) == seq![c] + bare(tail));
        assert(bare(rest)[0] == c);
        assert forall|i: int| 0 <= i < bare(tail).len() implies #[trigger] bare(tail)[i]
            == bare(rest)[i + 1] by {}
        assert(narrow(tail, width));
        assert(firm ==> solid(tail));
        lemma_with_char(w, c, width, at_spaces, firm);
        let next = w.with_char(c, width, at_spaces);
        lemma_with_text(next, tail, width, at_spaces, firm);
        lemma_unspaced_join(seq![c], bare(tail));
        assert(taken(w) + unspaced(seq![c]) + unspaced(bare(tail)) =~= taken(w) + (unspaced(
            seq![c],
        ) + unspaced(bare(tail))));
    }
}

proof fn lemma_unwrapped(width: nat, firm: bool)
    ensures
        sound(unwrapped(), width, firm),
        taken(unwrapped()) == Seq::<char>::empty(),
{
    let w = unwrapped();
    assert(bare(w.line) =~= Seq::empty());
    assert(unspaced(bare(w.line)) =~= Seq::empty());
    assert(taken(w) =~= Seq::empty());
}

/// No line is longer than asked for: styled text whose characters each fit
/// the width is broken into lines of at most that many columns, which are
/// styled text again.
pub proof fn lemma_lines_fit(s: Seq<char>, width: nat, at_spaces: bool)
    requires
        tidy(s),
        narrow(s, width),
    ensures
        forall|i: int|
            0 <= i < wrapped(s, width, at_spaces).len() ==> visible(
                #[trigger] wrapped(s, width, at_spaces)[i],
            ) <= width && tidy(wrapped(s, width, at_spaces)[i]),
{
    lemma_unwrapped(width, false);
    lemma_with_text(unwrapped(), s, width, at_spaces, false);
    let w = unwrapped().with_text(s, width, at_spaces);
    assert forall|i: int| 0 <= i < w.finished().len() implies visible(#[trigger] w.finished()[i])
        <= width && tidy(w.finished()[i]) by {
        if i < w.lines.len() {
            assert(w.finished()[i] == w.lines[i]);
        }
    }
}

proof fn lemma_nothing_seen(s: Seq<char>)
    requires
        tidy(s),
        solid(s),
        visible(s) == 0,
    ensures
        bare(s) == Seq::<char>::empty(),
    decreases s.len(),
{
    if s.len() > 0 {
        if s[0] == '\u{1b}' {
            lemma_terminated(s);
            let rest = s.skip(escape_length(s));
            assert(bare(s) == bare(rest));
            assert(solid(rest)) by {
                assert forall|i: int| 0 <= i < bare(rest).len() implies columns(
                    #[trigger] bare(rest)[i],
                ) > 0 by {
                    assert(bare(s)[i] == bare(rest)[i]);
                }
            }
            lemma_nothing_seen(rest);
        } else {
            assert(bare(s)[0] == s[0]);
        }
    } else {
        assert(bare(s) =~= Seq::empty());
    }
}

/// Wrapping loses nothing but spaces: the lines together show what the text
/// shows. Characters without a column of their own are left aside, since a
/// last line that holds nothing else is dropped.
pub proof fn lemma_nothing_lost(s: Seq<char>, width: nat, at_spaces: bool)
    requires
        tidy(s),
        narrow(s, width),
        solid(s),
    ensures
        ink(wrapped(s, width, at_spaces)) == unspaced(bare(s)),
{
    lemma_unwrapped(width, true);
    lemma_with_text(unwrapped(), s, width, at_spaces, true);
    let w = unwrapped().with_text(s, width, at_spaces);
    assert(Seq::<char>::empty() + unspaced(bare(s)) =~= unspaced(bare(s)));
    lemma_ink_push(w.lines, w.line);
    if w.lines.len() > 0 && visible(w.line) == 0 {
        lemma_nothing_seen(w.line);
        assert(unspaced(bare(w.line)) =~= Seq::empty());
        assert(taken(w) =~= ink(w.lines));
    }
}

/// What the reader sees of some lines.
pub open spec fn said(lines: Seq<Seq<char>>) -> Seq<char>
    decreases lines.len(),
{
    if lines.len() == 0 {
        Seq::empty()
    } else {
        said(lines.drop_last()) + bare(lines.last())
    }
}

proof fn lemma_said_push(lines: Seq<Seq<char>>, line: Seq<char>)
    ensures
        said(lines.push(line)) == said(lines) + bare(line),
{
    assert(lines.push(line).drop_last() =~= lines);
}

proof fn lemma_hard_text(w: Wrapping, rest: Seq<char>, width: nat, firm: bool)
    requires
        sound(w, width, firm),
        w.space is None,
        tidy(rest),
        narrow(rest, width),
        firm ==> solid(rest),
    ensures
        ({
            let next = w.with_text(rest, width, false);
            said(next.lines) + bare(next.line) == said(w.lines) + bare(w.line) + bare(rest)
        }),
    decreases rest.len(),
{
    let before = said(w.lines) + bare(w.line);
    if rest.len() == 0 {
        assert(before + bare(rest) =~= before);
    } else if rest[0] == '\u{1b}' {
        let n = escape_length(rest);
        lemma_terminated(rest);
        let e = rest.take(n);
        lemma_with_escape(w, rest, width, firm);
        lemma_escape_alone(rest);
        lemma_join(w.line, e);
        assert(bare(w.with_escape(e).line) =~= bare(w.line));
        assert(bare(rest) == bare(rest.skip(n)));
        lemma_hard_text(w.with_escape(e), rest.skip(n), width, firm);
    } else {
        let tail = rest.skip(1);
        let c = rest[0];
        assert(bare(rest) == seq![c] + bare(tail));
        assert(bare(rest)[0] == c);
        assert forall|i: int| 0 <= i < bare(tail).len() implies #[trigger] bare(tail)[i]
            == bare(rest)[i + 1] by {}
        assert(narrow(tail, width));
        assert(firm ==> solid(tail));
        lemma_with_char(w, c, width, false, firm);
        let room = w.with_room(columns(c), width);
        lemma_with_room(w, columns(c), width, firm);
        if room != w {
            lemma_closed(w.line, w.style);
            lemma_said_push(w.lines, closed(w.line, w.style));
            assert(said(room.lines) + bare(room.line) =~= before);
        }
        let next = w.with_char(c, width, false);
        lemma_one(c);
        lemma_join(room.line, seq![c]);
        assert(next.line =~= room.line + seq![c]);
        lemma_hard_text(next, tail, width, firm);
        assert(said(next.lines) + bare(next.line) + bare(tail) =~= before + bare(rest));
    }
}

/// Hard wrapping, as code is wrapped, loses nothing at all: the lines end to
/// end show exactly what the text shows, spaces and all. Characters without
/// a column of their own are left aside, since a last line that holds nothing
/// else is dropped.
pub proof fn lemma_hard_wrap_exact(s: Seq<char>, width: nat)
    requires
        tidy(s),
        narrow(s, width),
        solid(s),
    ensures
        said(wrapped(s, width, false)) == bare(s),
{
    lemma_unwrapped(width, true);
    lemma_with_text(unwrapped(), s, width, false, true);
    lemma_hard_text(unwrapped(), s, width, true);
    let w = unwrapped().with_text(s, width, false);
    assert(said(w.lines) + bare(w.line) =~= bare(s));
    lemma_said_push(w.lines, w.line);
    if w.lines.len() > 0 && visible(w.line) == 0 {
        lemma_nothing_seen(w.line);
        assert(said(w.lines) + bare(w.line) =~= said(w.lines));
    }
}

// --- Boxes ---

proof fn lemma_repeated(c: char, n: nat)
    requires
        c != '\u{1b}',
        columns(c) == 1,
    ensures
        tidy(repeated(c, n)),
        visible(repeated(c, n)) == n,
    decreases n,
{
    let s = repeated(c, n);
    if n > 0 {
        let rest = repeated(c, (n - 1) as nat);
        lemma_repeated(c, (n - 1) as nat);
        assert(s.skip(1) =~= rest);
        assert(s[0] == c);
    }
}

proof fn lemma_dim()
    ensures
        tidy("\x1b[2m"@),
        visible("\x1b[2m"@) == 0,
        tidy("\x1b[1m"@),
        visible("\x1b[1m"@) == 0,
{
    reveal_strlit("\x1b[2m");
    reveal_strlit("\x1b[1m");
    let s = "\x1b[2m"@;
    assert(final_at(s, 3) == 3);
    assert(final_at(s, 2) == 3);
    assert(escape_length(s) == 4);
    assert(s.take(4) =~= s);
    lemma_escape_alone(s);
    let t = "\x1b[1m"@;
    assert(final_at(t, 3) == 3);
    assert(final_at(t, 2) == 3);
    assert(escape_length(t) == 4);
    assert(t.take(4) =~= t);
    lemma_escape_alone(t);
}

/// The bars beside a row.
proof fn lemma_bars()
    ensures
        tidy("\x1b[2m│\x1b[0m "@),
        visible("\x1b[2m│\x1b[0m "@) == 2,
        tidy(" \x1b[2m│\x1b[0m"@),
        visible(" \x1b[2m│\x1b[0m"@) == 2,
        tidy("\x1b[2m│\x1b[0m"@),
        visible("\x1b[2m│\x1b[0m"@) == 1,
{
    reveal_strlit("\x1b[2m│\x1b[0m ");
    reveal_strlit(" \x1b[2m│\x1b[0m");
    reveal_strlit("\x1b[2m│\x1b[0m");
    reveal_strlit("\x1b[2m");
    reveal_strlit("\x1b[0m");
    lemma_dim();
    lemma_reset();
    lemma_one('│');
    lemma_one(' ');
    let bar = "\x1b[2m"@ + seq!['│'] + reset();
    lemma_join("\x1b[2m"@, seq!['│']);
    lemma_join("\x1b[2m"@ + seq!['│'], reset());
    assert("\x1b[2m│\x1b[0m"@ =~= bar);
    lemma_join(bar, seq![' ']);
    assert("\x1b[2m│\x1b[0m "@ =~= bar + seq![' ']);
    lemma_join(seq![' '], bar);
    assert(" \x1b[2m│\x1b[0m"@ =~= seq![' '] + bar);
}

/// Every row of a box is as wide as the box: the right edge holds.
proof fn lemma_box_line(row: Seq<char>, inner: nat)
    requires
        tidy(row),
        visible(row) <= inner,
    ensures
        visible(box_line(row, inner)) == inner + 4,
{
    let pad = repeated(' ', beyond(inner, visible(row)));
    let a = "\x1b[2m│\x1b[0m "@;
    let b = " \x1b[2m│\x1b[0m"@;
    lemma_bars();
    lemma_repeated(' ', beyond(inner, visible(row)));
    lemma_join(a, row);
    lemma_join(a + row, pad);
    lemma_join(a + row + pad, b);
}

proof fn lemma_box_foot(inner: nat)
    ensures
        visible(box_foot(inner)) == inner + 4,
{
    reveal_strlit("\x1b[2m╰");
    reveal_strlit("╯\x1b[0m");
    reveal_strlit("\x1b[2m");
    reveal_strlit("\x1b[0m");
    lemma_dim();
    lemma_reset();
    lemma_one('╰');
    lemma_one('╯');
    lemma_join("\x1b[2m"@, seq!['╰']);
    assert("\x1b[2m╰"@ =~= "\x1b[2m"@ + seq!['╰']);
    lemma_join(seq!['╯'], reset());
    assert("╯\x1b[0m"@ =~= seq!['╯'] + reset());
    let bar = repeated('─', inner + 2);
    lemma_repeated('─', inner + 2);
    lemma_join("\x1b[2m╰"@, bar);
    lemma_join("\x1b[2m╰"@ + bar, "╯\x1b[0m"@);
}

proof fn lemma_found_at_end(x: Seq<char>)
    requires
        unslashed(x),
    ensures
        find_seq(x + "\x1b\\"@, "\x1b\\"@) == Some(x.len()),
    decreases x.len(),
{
    reveal_strlit("\x1b\\");
    let p = "\x1b\\"@;
    let s = x + p;
    if x.len() == 0 {
        assert(s.take(2) =~= p);
    } else {
        if begins_with(s, p) {
            assert(s.take(2)[1] == p[1]);
            assert(s[1] == '\\');
            assert(x.len() > 1 ==> x[1] == '\\');
        }
        assert(s.skip(1) =~= x.skip(1) + p);
        lemma_found_at_end(x.skip(1));
    }
}

/// Whether a text holds no backslash.
spec fn unslashed(s: Seq<char>) -> bool {
    forall|i: int| 0 <= i < s.len() ==> #[trigger] s[i] != '\\'
}

/// A hyperlink's sequence is one escape sequence.
proof fn lemma_osc(x: Seq<char>)
    requires
        x.len() > 1,
        x[0] == '\u{1b}',
        x[1] == ']',
        unslashed(x),
    ensures
        tidy(x + "\x1b\\"@),
        visible(x + "\x1b\\"@) == 0,
{
    reveal_strlit("\x1b\\");
    let s = x + "\x1b\\"@;
    lemma_found_at_end(x);
    assert(s[0] == '\u{1b}' && s[1] == ']');
    lemma_escape_alone(s);
    assert(s.take(s.len() as int) =~= s);
}

proof fn lemma_decimal_unslashed(n: nat)
    ensures
        unslashed(decimal(n)),
    decreases n,
{
    if n >= 10 {
        lemma_decimal_unslashed(n / 10);
    }
}

proof fn lemma_copy_label()
    ensures
        tidy(" ⧉ copy "@),
{
    reveal_strlit(" ⧉ copy ");
    lemma_plain(" ⧉ copy "@);
}

/// The end of a box's top edge, after its dashes.
proof fn lemma_copy_link(index: nat)
    ensures
        ({
            let s = "\x1b[0m\x1b]8;;oxide-copy:"@ + decimal(index)
                + "\x1b\\ ⧉ copy \x1b]8;;\x1b\\\x1b[2m─╮\x1b[0m"@;
            tidy(s) && visible(s) == visible(" ⧉ copy "@) + 2
        }),
{
    reveal_strlit("\x1b[0m\x1b]8;;oxide-copy:");
    reveal_strlit("\x1b\\ ⧉ copy \x1b]8;;\x1b\\\x1b[2m─╮\x1b[0m");
    reveal_strlit("\x1b]8;;oxide-copy:");
    reveal_strlit("\x1b]8;;");
    reveal_strlit("\x1b\\");
    reveal_strlit(" ⧉ copy ");
    reveal_strlit("\x1b[2m");
    reveal_strlit("\x1b[0m");
    let st = "\x1b\\"@;
    let name = "\x1b]8;;oxide-copy:"@ + decimal(index);
    lemma_decimal_unslashed(index);
    assert forall|i: int| 0 <= i < name.len() implies #[trigger] name[i] != '\\' by {
        let n = "\x1b]8;;oxide-copy:"@.len() as int;
        if i >= n {
            assert(name[i] == decimal(index)[i - n]);
        }
    }
    lemma_osc(name);
    lemma_osc("\x1b]8;;"@);
    lemma_reset();
    lemma_dim();
    lemma_copy_label();
    lemma_one('─');
    lemma_one('╮');
    let a = reset();
    let b = a + (name + st);
    lemma_join(a, name + st);
    let c = b + " ⧉ copy "@;
    lemma_join(b, " ⧉ copy "@);
    let d = c + ("\x1b]8;;"@ + st);
    lemma_join(c, "\x1b]8;;"@ + st);
    let e = d + "\x1b[2m"@;
    lemma_join(d, "\x1b[2m"@);
    let f = e + seq!['─'];
    lemma_join(e, seq!['─']);
    let g = f + seq!['╮'];
    lemma_join(f, seq!['╮']);
    lemma_join(g, reset());
    assert("\x1b[0m\x1b]8;;oxide-copy:"@ =~= a + "\x1b]8;;oxide-copy:"@);
    assert("\x1b\\ ⧉ copy \x1b]8;;\x1b\\\x1b[2m─╮\x1b[0m"@ =~= st + " ⧉ copy "@ + "\x1b]8;;"@
        + st + "\x1b[2m"@ + seq!['─'] + seq!['╮'] + reset());
    assert("\x1b[0m\x1b]8;;oxide-copy:"@ + decimal(index)
        + "\x1b\\ ⧉ copy \x1b]8;;\x1b\\\x1b[2m─╮\x1b[0m"@ =~= g + reset());
}

/// The top edge of a box is as wide as the box, where its labels fit.
proof fn lemma_box_top(lang: Seq<char>, inner: nat, index: nat)
    requires
        tidy(lang),
        edge_of(lang) <= inner,
    ensures
        visible(box_top(lang, inner, index)) == inner + 4,
{
    reveal_strlit("\x1b[2m╭─\x1b[0m");
    reveal_strlit("\x1b[2m");
    reveal_strlit("\x1b[0m");
    reveal_strlit(" ");
    lemma_dim();
    lemma_reset();
    lemma_one('╭');
    lemma_one('─');
    lemma_one(' ');
    let corner = "\x1b[2m╭─\x1b[0m"@;
    lemma_join("\x1b[2m"@, seq!['╭']);
    lemma_join("\x1b[2m"@ + seq!['╭'], seq!['─']);
    lemma_join("\x1b[2m"@ + seq!['╭'] + seq!['─'], reset());
    assert(corner =~= "\x1b[2m"@ + seq!['╭'] + seq!['─'] + reset());
    let label = label_of(lang);
    assert(" "@ =~= seq![' ']);
    lemma_join(" "@, lang);
    lemma_join(" "@ + lang, " "@);
    assert(tidy(label));
    let n = beyond(inner, edge_of(lang));
    let bar = repeated('─', n);
    lemma_repeated('─', n);
    lemma_copy_link(index);
    let end = "\x1b[0m\x1b]8;;oxide-copy:"@ + decimal(index)
        + "\x1b\\ ⧉ copy \x1b]8;;\x1b\\\x1b[2m─╮\x1b[0m"@;
    lemma_join(corner, label);
    lemma_join(corner + label, "\x1b[2m"@);
    lemma_join(corner + label + "\x1b[2m"@, bar);
    lemma_join(corner + label + "\x1b[2m"@ + bar, end);
    assert(box_top(lang, inner, index) =~= corner + label + "\x1b[2m"@ + bar + end);
}

/// Whether every line is styled text whose characters each fit the width.
pub open spec fn fitting(lines: Seq<Seq<char>>, width: nat) -> bool {
    forall|i: int|
        0 <= i < lines.len() ==> tidy(#[trigger] lines[i]) && narrow(lines[i], width)
}

proof fn lemma_code_rows(lines: Seq<Seq<char>>, width: nat)
    requires
        fitting(lines, width),
    ensures
        forall|i: int|
            0 <= i < code_rows(lines, width).len() ==> visible(
                #[trigger] code_rows(lines, width)[i],
            ) <= width && tidy(code_rows(lines, width)[i]),
    decreases lines.len(),
{
    if lines.len() > 0 {
        let head = lines.drop_last();
        assert(fitting(head, width)) by {
            assert forall|i: int| 0 <= i < head.len() implies tidy(#[trigger] head[i]) && narrow(
                head[i],
                width,
            ) by {
                assert(head[i] == lines[i]);
            }
        }
        lemma_code_rows(head, width);
        assert(lines[lines.len() - 1] == lines.last());
        lemma_lines_fit(lines.last(), width, false);
        let rows = code_rows(lines, width);
        let n = code_rows(head, width).len();
        assert forall|i: int| 0 <= i < rows.len() implies visible(#[trigger] rows[i]) <= width
            && tidy(rows[i]) by {
            if i < n {
                assert(rows[i] == code_rows(head, width)[i]);
            } else {
                assert(rows[i] == wrapped(lines.last(), width, false)[i - n]);
            }
        }
    }
}

proof fn lemma_widest(rows: Seq<Seq<char>>)
    ensures
        forall|i: int| 0 <= i < rows.len() ==> visible(#[trigger] rows[i]) <= widest_row(rows),
    decreases rows.len(),
{
    if rows.len() > 0 {
        lemma_widest(rows.drop_last());
        assert forall|i: int| 0 <= i < rows.len() implies visible(#[trigger] rows[i]) <= widest_row(
            rows,
        ) by {
            if i < rows.len() - 1 {
                assert(rows.drop_last()[i] == rows[i]);
            }
        }
    }
}

/// The right edge of a code box holds: whatever the code, every row and the
/// bottom edge are equally wide, and no wider than the tab. So is the top
/// edge, unless the language's name leaves no room for the copy link.
pub proof fn lemma_box_holds(lang: Seq<char>, shown: Seq<Seq<char>>, index: nat, width: nat)
    requires
        4 <= width,
        fitting(shown, (width - 4) as nat),
    ensures
        ({
            let room = (width - 4) as nat;
            let rows = code_rows(shown, room);
            let inner = inner_of(lang, rows, room);
            &&& inner + 4 <= width
            &&& visible(box_foot(inner)) == inner + 4
            &&& forall|i: int|
                0 <= i < rows.len() ==> visible(box_line(#[trigger] rows[i], inner)) == inner + 4
            &&& tidy(lang) && edge_of(lang) <= room ==> visible(box_top(lang, inner, index))
                == inner + 4
        }),
{
    let room = (width - 4) as nat;
    let rows = code_rows(shown, room);
    let inner = inner_of(lang, rows, room);
    lemma_code_rows(shown, room);
    lemma_widest(rows);
    lemma_box_foot(inner);
    assert forall|i: int| 0 <= i < rows.len() implies visible(box_line(#[trigger] rows[i], inner))
        == inner + 4 by {
        lemma_box_line(rows[i], inner);
    }
    if tidy(lang) && edge_of(lang) <= room {
        lemma_box_top(lang, inner, index);
    }
}

// --- Code in colour ---

/// Whether a text is a single line.
pub open spec fn feedless(s: Seq<char>) -> bool {
    forall|i: int| 0 <= i < s.len() ==> #[trigger] s[i] != '\n'
}

/// Whether a text is a single line without escape sequences.
pub open spec fn plain(s: Seq<char>) -> bool {
    forall|i: int| 0 <= i < s.len() ==> #[trigger] s[i] != '\u{1b}' && s[i] != '\n'
}

/// Whether a line is styled text that shows exactly `text`.
pub open spec fn shows(line: Seq<char>, text: Seq<char>) -> bool {
    tidy(line) && bare(line) == text && feedless(line)
}

/// Whether a text is a single line and, where `firm`, without escape
/// sequences.
spec fn linear(s: Seq<char>, firm: bool) -> bool {
    forall|i: int|
        0 <= i < s.len() ==> #[trigger] s[i] != '\n' && (firm ==> s[i] != '\u{1b}')
}

/// Whether a text can stand between the ends of an SGR sequence.
spec fn sgr(s: Seq<char>) -> bool {
    forall|i: int| 0 <= i < s.len() ==> '0' <= #[trigger] s[i] <= ';'
}

pub proof fn lemma_plain(s: Seq<char>)
    requires
        plain(s),
    ensures
        shows(s, s),
    decreases s.len(),
{
    if s.len() > 0 {
        lemma_plain(s.skip(1));
        assert(seq![s[0]] + s.skip(1) =~= s);
    } else {
        assert(bare(s) =~= s);
    }
}

pub proof fn lemma_shows_join(a: Seq<char>, b: Seq<char>, x: Seq<char>, y: Seq<char>)
    requires
        shows(a, x),
        shows(b, y),
    ensures
        shows(a + b, x + y),
{
    lemma_join(a, b);
}

proof fn lemma_decimal_sgr(n: nat)
    ensures
        sgr(decimal(n)),
    decreases n,
{
    if n >= 10 {
        lemma_decimal_sgr(n / 10);
    }
}

proof fn lemma_join_sgr(v: Seq<Seq<char>>)
    requires
        forall|i: int| 0 <= i < v.len() ==> sgr(#[trigger] v[i]),
    ensures
        sgr(join(v, ";"@)),
    decreases v.len(),
{
    reveal_strlit(";");
    if v.len() > 1 {
        assert forall|i: int| 0 <= i < v.drop_last().len() implies sgr(
            #[trigger] v.drop_last()[i],
        ) by {
            assert(sgr(v[i]));
        }
        lemma_join_sgr(v.drop_last());
        assert(sgr(v[v.len() - 1]));
    } else if v.len() == 1 {
        assert(sgr(v[0]));
    }
}

proof fn lemma_look(p: PieceRow)
    ensures
        sgr(look(p)),
{
    reveal_strlit("1");
    reveal_strlit("2");
    reveal_strlit("3");
    reveal_strlit("4");
    let v = look_codes(p.slot, p.font);
    assert forall|i: int| 0 <= i < v.len() implies sgr(#[trigger] v[i]) by {
        lemma_decimal_sgr((30 + p.slot) as nat);
        lemma_decimal_sgr((82 + p.slot) as nat);
    }
    lemma_join_sgr(v);
}

proof fn lemma_final_sgr(s: Seq<char>, from: int)
    requires
        2 <= from < s.len(),
        forall|i: int| 2 <= i < s.len() - 1 ==> '0' <= #[trigger] s[i] <= ';',
        s.last() == 'm',
    ensures
        final_at(s, from) == s.len() - 1,
    decreases s.len() - from,
{
    if from < s.len() - 1 {
        assert('0' <= s[from] <= ';');
        lemma_final_sgr(s, from + 1);
    }
}

proof fn lemma_run(r: Run, firm: bool)
    requires
        sgr(r.codes),
        linear(r.text, firm),
    ensures
        feedless(run_text(r)),
        firm ==> shows(run_text(r), r.text),
{
    reveal_strlit("\x1b[");
    reveal_strlit("m");
    reveal_strlit("\x1b[0m");
    if firm {
        lemma_plain(r.text);
    }
    if r.codes.len() > 0 && firm {
        let e = "\x1b["@ + r.codes + "m"@;
        assert forall|i: int| 2 <= i < e.len() - 1 implies '0' <= #[trigger] e[i] <= ';' by {
            assert(e[i] == r.codes[i - 2]);
        }
        lemma_final_sgr(e, 2);
        assert(e[0] == '\u{1b}' && e[1] == '[');
        lemma_escape_alone(e);
        assert(e.take(e.len() as int) =~= e);
        lemma_reset();
        let none = Seq::<char>::empty();
        assert(shows(e, none));
        assert(shows(reset(), none));
        lemma_shows_join(e, r.text, none, r.text);
        lemma_shows_join(e + r.text, reset(), none + r.text, none);
        assert(none + r.text + none =~= r.text);
    }
}

/// The text of some runs, end to end.
spec fn runs_said(v: Seq<Run>) -> Seq<char>
    decreases v.len(),
{
    if v.len() == 0 {
        Seq::empty()
    } else {
        runs_said(v.drop_last()) + v.last().text
    }
}

spec fn good_runs(v: Seq<Run>, firm: bool) -> bool {
    forall|i: int| 0 <= i < v.len() ==> sgr((#[trigger] v[i]).codes) && linear(v[i].text, firm)
}

proof fn lemma_runs_text(v: Seq<Run>, firm: bool)
    requires
        good_runs(v, firm),
    ensures
        feedless(runs_text(v)),
        firm ==> shows(runs_text(v), runs_said(v)),
    decreases v.len(),
{
    if v.len() > 0 {
        assert(good_runs(v.drop_last(), firm)) by {
            assert forall|i: int| 0 <= i < v.drop_last().len() implies sgr(
                (#[trigger] v.drop_last()[i]).codes,
            ) && linear(v.drop_last()[i].text, firm) by {
                assert(sgr(v[i].codes) && linear(v[i].text, firm));
            }
        }
        lemma_runs_text(v.drop_last(), firm);
        assert(sgr(v[v.len() - 1].codes) && linear(v[v.len() - 1].text, firm));
        lemma_run(v.last(), firm);
        if firm {
            lemma_shows_join(
                runs_text(v.drop_last()),
                run_text(v.last()),
                runs_said(v.drop_last()),
                v.last().text,
            );
        }
    } else {
        lemma_plain(Seq::<char>::empty());
    }
}

/// The text of the pieces of a line without the line feeds at their ends.
spec fn unfed(line: Seq<PieceRow>) -> Seq<char>
    decreases line.len(),
{
    if line.len() == 0 {
        Seq::empty()
    } else {
        unfed(line.drop_last()) + strip_end(line.last().text, '\n')
    }
}

proof fn lemma_runs(line: Seq<PieceRow>, firm: bool)
    requires
        linear(unfed(line), firm),
    ensures
        good_runs(runs(line), firm),
        runs_said(runs(line)) == unfed(line),
    decreases line.len(),
{
    if line.len() > 0 {
        let head = line.drop_last();
        let p = line.last();
        let t = strip_end(p.text, '\n');
        let all = unfed(line);
        assert(linear(unfed(head), firm)) by {
            assert forall|i: int| 0 <= i < unfed(head).len() implies #[trigger] unfed(head)[i]
                != '\n' && (firm ==> unfed(head)[i] != '\u{1b}') by {
                assert(all[i] == unfed(head)[i]);
            }
        }
        assert(linear(t, firm)) by {
            let n = unfed(head).len();
            assert forall|i: int| 0 <= i < t.len() implies #[trigger] t[i] != '\n' && (firm ==> t[i]
                != '\u{1b}') by {
                assert(all[n + i] == t[i]);
            }
        }
        lemma_runs(head, firm);
        lemma_look(p);
        let before = runs(head);
        let after = runs(line);
        if before.len() > 0 && before.last().codes == look(p) {
            let last = before[before.len() - 1];
            assert(sgr(last.codes) && linear(last.text, firm));
            assert(after.drop_last() =~= before.drop_last());
            assert(runs_said(after) =~= all);
            assert forall|i: int| 0 <= i < after.len() implies sgr((#[trigger] after[i]).codes)
                && linear(after[i].text, firm) by {
                if i < before.len() - 1 {
                    assert(after[i] == before[i]);
                } else {
                    assert forall|k: int| 0 <= k < after[i].text.len() implies #[trigger]
                        after[i].text[k] != '\n' && (firm ==> after[i].text[k] != '\u{1b}') by {
                        if k < last.text.len() {
                            assert(after[i].text[k] == last.text[k]);
                        } else {
                            assert(after[i].text[k] == t[k - last.text.len()]);
                        }
                    }
                }
            }
        } else {
            assert(after.drop_last() =~= before);
            assert forall|i: int| 0 <= i < after.len() implies sgr((#[trigger] after[i]).codes)
                && linear(after[i].text, firm) by {
                if i < before.len() {
                    assert(after[i] == before[i]);
                }
            }
        }
    }
}

proof fn lemma_unfed_same(line: Seq<PieceRow>)
    requires
        forall|i: int| 0 <= i < piece_text(line).len() ==> #[trigger] piece_text(line)[i] != '\n',
    ensures
        unfed(line) == piece_text(line),
    decreases line.len(),
{
    if line.len() > 0 {
        let head = piece_text(line.drop_last());
        let t = line.last().text;
        let all = piece_text(line);
        assert forall|i: int| 0 <= i < head.len() implies #[trigger] head[i] != '\n' by {
            assert(all[i] == head[i]);
        }
        lemma_unfed_same(line.drop_last());
        if t.len() > 0 {
            assert(all[all.len() - 1] == t.last());
        }
    }
}

proof fn lemma_unfed(line: Seq<PieceRow>, text: Seq<char>)
    requires
        piece_text(line) == text + "\n"@,
        feedless(text),
    ensures
        unfed(line) == text,
    decreases line.len(),
{
    reveal_strlit("\n");
    let all = text + "\n"@;
    assert(all.len() > 0);
    let head = piece_text(line.drop_last());
    let t = line.last().text;
    if t.len() == 0 {
        assert(head + t =~= head);
        lemma_unfed(line.drop_last(), text);
        assert(unfed(line) =~= text);
    } else {
        assert forall|i: int| 0 <= i < head.len() implies #[trigger] head[i] != '\n' by {
            assert(all[i] == head[i]);
            assert(all[i] == text[i]);
        }
        lemma_unfed_same(line.drop_last());
        assert(t.last() == all[all.len() - 1]);
        let w = t.drop_last();
        if w.len() > 0 {
            assert(w.last() == all[head.len() + w.len() - 1]);
            assert(w.last() == text[head.len() + w.len() - 1]);
        }
        assert(strip_end(t, '\n') == strip_end(w, '\n'));
        assert(strip_end(w, '\n') == w);
        assert forall|i: int| 0 <= i < text.len() implies #[trigger] (head + w)[i] == text[i] by {
            assert(all[i] == text[i]);
        }
        assert(head + w =~= text);
    }
}

/// Colour changes nothing but the colour: whatever pieces a line of code is
/// cut into and however they look, the painted line is styled text that shows
/// exactly the line. (A line that holds escape sequences of its own is still one
/// line.)
pub proof fn lemma_painted(line: Seq<PieceRow>, text: Seq<char>)
    requires
        piece_text(line) == text + "\n"@,
        feedless(text),
    ensures
        feedless(painted(line)),
        plain(text) ==> shows(painted(line), text),
{
    lemma_unfed(line, text);
    lemma_runs(line, plain(text));
    lemma_runs_text(runs(line), plain(text));
}

/// The right edge of a box holds for code in colour just as for plain code:
/// lines that show lines of code fit where those do.
pub proof fn lemma_painted_fits(shown: Seq<Seq<char>>, code: Seq<Seq<char>>, width: nat)
    requires
        shown.len() == code.len(),
        forall|i: int| 0 <= i < code.len() ==> plain(#[trigger] code[i]),
        forall|i: int| 0 <= i < code.len() ==> shows(#[trigger] shown[i], code[i]),
    ensures
        fitting(shown, width) <==> fitting(code, width),
{
    assert forall|i: int| 0 <= i < code.len() implies tidy(#[trigger] code[i]) && bare(code[i])
        == code[i] by {
        lemma_plain(code[i]);
    }
    assert forall|i: int| 0 <= i < code.len() implies (narrow(#[trigger] shown[i], width)
        <==> narrow(code[i], width)) by {
        assert(shows(shown[i], code[i]));
    }
    if fitting(shown, width) {
        assert forall|i: int| 0 <= i < code.len() implies tidy(#[trigger] code[i]) && narrow(
            code[i],
            width,
        ) by {
            assert(narrow(shown[i], width));
        }
    }
}

// --- Tables ---

/// A table's line has its columns, two spaces in each, and the bars.
pub open spec fn table_columns(w: Seq<nat>) -> nat {
    total(w) + 3 * w.len() + 1
}

proof fn lemma_bars_between(w: Seq<nat>, mid: char)
    requires
        mid != '\u{1b}',
        columns(mid) == 1,
        w.len() > 0,
    ensures
        tidy(bars(w, seq![mid])),
        visible(bars(w, seq![mid])) + 2 == table_columns(w),
    decreases w.len(),
{
    if w.len() == 1 {
        lemma_repeated('─', w[0] + 2);
        assert(w.drop_last() =~= Seq::empty());
        assert(total(w.drop_last()) == 0);
        assert(total(w) == w[0]);
    } else {
        let rest = w.drop_last();
        lemma_bars_between(rest, mid);
        lemma_one(mid);
        lemma_repeated('─', w.last() + 2);
        lemma_join(bars(rest, seq![mid]), seq![mid]);
        lemma_join(bars(rest, seq![mid]) + seq![mid], repeated('─', w.last() + 2));
    }
}

proof fn lemma_border_line(w: Seq<nat>, left: char, mid: char, right: char)
    requires
        w.len() > 0,
        0x2500 <= left as int && (left as int) < 0x2580,
        0x2500 <= mid as int && (mid as int) < 0x2580,
        0x2500 <= right as int && (right as int) < 0x2580,
    ensures
        visible(border_line(w, seq![left], seq![mid], seq![right])) == table_columns(w),
{
    lemma_dim();
    lemma_reset();
    lemma_one(left);
    lemma_one(right);
    lemma_bars_between(w, mid);
    let a = "\x1b[2m"@;
    let b = bars(w, seq![mid]);
    lemma_join(a, seq![left]);
    lemma_join(a + seq![left], b);
    lemma_join(a + seq![left] + b, seq![right]);
    lemma_join(a + seq![left] + b + seq![right], reset());
}

proof fn lemma_cell_text(text: Seq<char>, w: nat, align: Align, header: bool)
    requires
        tidy(text),
        visible(text) <= w,
    ensures
        tidy(cell_text(text, w, align, header)),
        visible(cell_text(text, w, align, header)) == w + 3,
{
    let g = gap(text, w);
    let l = lead(align, g);
    assert(l <= g);
    let r = (g - l) as nat;
    let bold = if header {
        "\x1b[1m"@
    } else {
        ""@
    };
    reveal_strlit("");
    reveal_strlit(" ");
    assert(""@ =~= Seq::<char>::empty());
    assert(" "@ =~= seq![' ']);
    lemma_dim();
    lemma_reset();
    lemma_bars();
    lemma_one(' ');
    lemma_repeated(' ', l);
    lemma_repeated(' ', r);
    let a = " "@ + repeated(' ', l);
    lemma_join(" "@, repeated(' ', l));
    lemma_join(a, bold);
    lemma_join(a + bold, text);
    lemma_join(a + bold + text, reset());
    lemma_join(a + bold + text + reset(), repeated(' ', r));
    lemma_join(a + bold + text + reset() + repeated(' ', r), " \x1b[2m│\x1b[0m"@);
}

proof fn lemma_line_text(
    row: Seq<Seq<Seq<char>>>,
    l: int,
    w: Seq<nat>,
    aligns: Seq<Align>,
    header: bool,
    n: nat,
)
    requires
        n <= w.len(),
        row.len() == w.len(),
        forall|c: int|
            0 <= c < w.len() ==> tidy(cell(#[trigger] row[c], l)) && visible(cell(row[c], l))
                <= w[c],
    ensures
        tidy(line_text(row, l, w, aligns, header, n)),
        visible(line_text(row, l, w, aligns, header, n)) == table_columns(w.take(n as int)),
    decreases n,
{
    lemma_bars();
    if n == 0 {
        assert(w.take(0) =~= Seq::empty());
        assert(total(w.take(0)) == 0);
    } else {
        let k = n - 1;
        lemma_line_text(row, l, w, aligns, header, k as nat);
        assert(tidy(cell(row[k], l)));
        lemma_cell_text(cell(row[k], l), w[k], aligns[k], header);
        lemma_join(
            line_text(row, l, w, aligns, header, k as nat),
            cell_text(cell(row[k], l), w[k], aligns[k], header),
        );
        assert(w.take(n as int).drop_last() =~= w.take(k));
        assert(w.take(n as int).last() == w[k]);
    }
}

/// Whether a row's cells are styled text whose characters each fit their
/// columns.
pub open spec fn cells_fit(row: Seq<Seq<char>>, w: Seq<nat>) -> bool {
    row.len() == w.len() && forall|c: int|
        0 <= c < w.len() ==> tidy(#[trigger] row[c]) && narrow(row[c], w[c])
}

/// The columns of a table line up: every border and every line of every row
/// is equally wide, and no wider than the tab.
pub proof fn lemma_table_holds(
    row: Seq<Seq<char>>,
    natural: Seq<nat>,
    aligns: Seq<Align>,
    header: bool,
    width: nat,
    l: int,
)
    requires
        natural.len() > 0,
        3 * natural.len() + 1 <= width,
        cells_fit(row, shrunk(natural, room(width, natural.len()))),
        0 <= l,
    ensures
        ({
            let w = shrunk(natural, room(width, natural.len()));
            &&& table_columns(w) <= width
            &&& visible(border_line(w, "┌"@, "┬"@, "┐"@)) == table_columns(w)
            &&& visible(border_line(w, "├"@, "┼"@, "┤"@)) == table_columns(w)
            &&& visible(border_line(w, "└"@, "┴"@, "┘"@)) == table_columns(w)
            &&& visible(line_text(wrapped_row(row, w), l, w, aligns, header, w.len()))
                == table_columns(w)
        }),
{
    let w = shrunk(natural, room(width, natural.len()));
    lemma_shrunk(natural, room(width, natural.len()));
    reveal_strlit("┌");
    reveal_strlit("┬");
    reveal_strlit("┐");
    reveal_strlit("├");
    reveal_strlit("┼");
    reveal_strlit("┤");
    reveal_strlit("└");
    reveal_strlit("┴");
    reveal_strlit("┘");
    assert("┌"@ =~= seq!['┌'] && "┬"@ =~= seq!['┬'] && "┐"@ =~= seq!['┐']);
    assert("├"@ =~= seq!['├'] && "┼"@ =~= seq!['┼'] && "┤"@ =~= seq!['┤']);
    assert("└"@ =~= seq!['└'] && "┴"@ =~= seq!['┴'] && "┘"@ =~= seq!['┘']);
    lemma_border_line(w, '┌', '┬', '┐');
    lemma_border_line(w, '├', '┼', '┤');
    lemma_border_line(w, '└', '┴', '┘');
    let wrapped_cells = wrapped_row(row, w);
    assert forall|c: int| 0 <= c < w.len() implies tidy(cell(#[trigger] wrapped_cells[c], l))
        && visible(cell(wrapped_cells[c], l)) <= w[c] by {
        assert(tidy(row[c]));
        lemma_lines_fit(row[c], w[c], true);
        assert(wrapped_cells[c] == wrapped(row[c], w[c], true));
        if l >= wrapped_cells[c].len() {
            assert(cell(wrapped_cells[c], l).len() == 0);
        }
    }
    lemma_line_text(wrapped_cells, l, w, aligns, header, w.len());
    assert(w.take(w.len() as int) =~= w);
}

// --- What wrapping leaves alone ---

proof fn lemma_fits_on(w: Wrapping, rest: Seq<char>, width: nat)
    requires
        w.lines.len() == 0,
        w.space is None,
        tidy(rest),
        w.columns + visible(rest) <= width,
    ensures
        ({
            let next = w.with_text(rest, width, false);
            next.lines.len() == 0 && next.line == w.line + rest
        }),
    decreases rest.len(),
{
    if rest.len() == 0 {
        assert(w.line + rest =~= w.line);
    } else if rest[0] == '\u{1b}' {
        let n = escape_length(rest);
        lemma_terminated(rest);
        lemma_fits_on(w.with_escape(rest.take(n)), rest.skip(n), width);
        assert(w.line + rest.take(n) + rest.skip(n) =~= w.line + rest);
    } else {
        lemma_fits_on(w.with_char(rest[0], width, false), rest.skip(1), width);
        assert(w.line.push(rest[0]) + rest.skip(1) =~= w.line + rest);
    }
}

/// A text that fits is not broken: it is one line, as it was.
pub proof fn lemma_short_lines_stay(s: Seq<char>, width: nat)
    requires
        tidy(s),
        visible(s) <= width,
    ensures
        wrapped(s, width, false) == seq![s],
{
    lemma_fits_on(unwrapped(), s, width);
    let w = unwrapped().with_text(s, width, false);
    assert(unwrapped().line + s =~= s);
    assert(w.lines =~= Seq::empty());
    assert(w.finished() =~= seq![s]);
}

} // verus!
