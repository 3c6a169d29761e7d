//! What the lines of a rendered document keep: no blank line comes first, and
//! no two blank lines stand together.
use vstd::prelude::*;

use crate::markdown::ansi::{
    closed, columns, escape_length, unwrapped, visible, wrapped, SpaceAt, Wrapping,
};
use crate::markdown::html::converted;
use crate::markdown::inline::{
    image_text, lemma_link_close, lemma_link_shrinks, link_at, link_close, link_note, styled,
};
use crate::markdown::table::{
    bars, body_text, border, border_line, cell, cell_text, column_widths, cut_cells, gap, height,
    lead, lemma_shrunk, line_text, natural_width, plain_row, plain_rows, room, row_cells, row_text,
    styled_rows, table_text, tallest, without_trailing, wrapped_row, Align,
};
use crate::markdown::wrapping::feedless;
use crate::markdown::{
    beyond, block_cells, blocks, box_foot, box_line, box_rows, box_top, boxed, bullet_text,
    closes_fence, code_line, code_rows, edge_of, heading_text, inner_of, is_bullet, is_heading,
    is_rule, label_of, lemma_rows_end, line_rendered, once_broken, opens_fence, placed, reading,
    table_rows, untabbed, with_code, without_closing, Block, Reading,
};
use crate::text::{
    begins_with, decimal, ends_with, find_char, find_seq, first_word, join, lemma_find_seq,
    lemma_trim_start_len, lemma_word_len, lines, repeated, replaced, run_of, split_on, trim,
    trim_end, trim_start, whitespace, without_return,
};

verus! {

/// Whether a text is one or more lines, none of them blank.
pub open spec fn filled(s: Seq<char>) -> bool {
    &&& s.len() > 0
    &&& s[0] != '\n'
    &&& s.last() == '\n'
    &&& forall|i: int| 0 <= i < s.len() - 1 ==> !(#[trigger] s[i] == '\n' && s[i + 1] == '\n')
}

/// Whether no blank line leads a text and no two stand together in it.
pub open spec fn spaced(s: Seq<char>) -> bool {
    &&& s.len() > 0 ==> s[0] != '\n' && s.last() == '\n'
    &&& forall|i: int|
        0 <= i < s.len() - 2 ==> !(#[trigger] s[i] == '\n' && s[i + 1] == '\n' && s[i + 2] == '\n')
}

proof fn lemma_filled_line(s: Seq<char>)
    requires
        feedless(s),
        s.len() > 0,
    ensures
        filled(s + "\n"@),
{
    reveal_strlit("\n");
    let t = s + "\n"@;
    assert forall|i: int| 0 <= i < t.len() - 1 implies !(#[trigger] t[i] == '\n' && t[i + 1]
        == '\n') by {
        assert(t[i] == s[i]);
    }
    assert(t[0] == s[0]);
}

proof fn lemma_filled_join(a: Seq<char>, b: Seq<char>)
    requires
        filled(a),
        filled(b),
    ensures
        filled(a + b),
{
    let s = a + b;
    assert forall|i: int| 0 <= i < s.len() - 1 implies !(#[trigger] s[i] == '\n' && s[i + 1]
        == '\n') by {
        if i < a.len() - 1 {
            assert(s[i] == a[i] && s[i + 1] == a[i + 1]);
        } else if i == a.len() - 1 {
            assert(s[i + 1] == b[0]);
        } else {
            assert(s[i] == b[i - a.len()] && s[i + 1] == b[i - a.len() + 1]);
        }
    }
}

/// More lines after a text that is spaced.
pub proof fn lemma_spaced_filled(a: Seq<char>, b: Seq<char>)
    requires
        spaced(a),
        filled(b),
    ensures
        spaced(a + b),
{
    let s = a + b;
    let n = a.len() as int;
    assert forall|i: int| 0 <= i < s.len() - 2 implies !(#[trigger] s[i] == '\n' && s[i + 1]
        == '\n' && s[i + 2] == '\n') by {
        if i + 2 < n {
            assert(s[i] == a[i] && s[i + 1] == a[i + 1] && s[i + 2] == a[i + 2]);
        } else if i + 2 == n {
            assert(s[i + 2] == b[0]);
        } else if i + 1 == n {
            assert(s[i + 1] == b[0]);
        } else {
            assert(s[i] == b[i - n] && s[i + 1] == b[i - n + 1]);
        }
    }
    assert(s.last() == b.last());
    if n > 0 {
        assert(s[0] == a[0]);
    } else {
        assert(s[0] == b[0]);
    }
}

/// A blank line after a text that does not end in one.
pub proof fn lemma_spaced_blank(a: Seq<char>)
    requires
        spaced(a),
        a.len() > 0,
        !ends_with(a, "\n\n"@),
    ensures
        spaced(a + "\n"@),
{
    reveal_strlit("\n");
    reveal_strlit("\n\n");
    let s = a + "\n"@;
    let n = a.len() as int;
    assert forall|i: int| 0 <= i < s.len() - 2 implies !(#[trigger] s[i] == '\n' && s[i + 1]
        == '\n' && s[i + 2] == '\n') by {
        if i + 2 < n {
            assert(s[i] == a[i] && s[i + 1] == a[i + 1] && s[i + 2] == a[i + 2]);
        } else {
            assert(s[i] == a[n - 2] && s[i + 1] == a[n - 1]);
            if a[n - 2] == '\n' && a[n - 1] == '\n' {
                assert(a.skip(n - 2) =~= "\n\n"@);
            }
        }
    }
}

proof fn lemma_find_clear(s: Seq<char>, c: char)
    ensures
        find_char(s, c) <= s.len(),
        forall|i: int| 0 <= i < find_char(s, c) ==> #[trigger] s[i] != c,
    decreases s.len(),
{
    if s.len() > 0 && s[0] != c {
        lemma_find_clear(s.skip(1), c);
        assert forall|i: int| 0 <= i < find_char(s, c) implies #[trigger] s[i] != c by {
            if i > 0 {
                assert(s.skip(1)[i - 1] == s[i]);
            }
        }
    }
}

/// The lines that a text is split into hold no line feed.
proof fn lemma_split_feedless(s: Seq<char>)
    ensures
        forall|i: int| 0 <= i < split_on(s, '\n').len() ==> feedless(#[trigger] split_on(s, '\n')[i]),
    decreases s.len(),
{
    lemma_find_clear(s, '\n');
    let n = find_char(s, '\n') as int;
    let v = split_on(s, '\n');
    if n < s.len() {
        lemma_split_feedless(s.skip(n + 1));
        assert forall|i: int| 0 <= i < v.len() implies feedless(#[trigger] v[i]) by {
            if i > 0 {
                assert(v[i] == split_on(s.skip(n + 1), '\n')[i - 1]);
            } else {
                assert(v[0] == s.take(n));
            }
        }
    } else {
        assert(v[0] == s);
        assert(feedless(s));
    }
}

/// The lines of a text hold no line feed.
proof fn lemma_lines_feedless(s: Seq<char>)
    ensures
        forall|i: int| 0 <= i < lines(s).len() ==> feedless(#[trigger] lines(s)[i]),
    decreases s.len(),
{
    lemma_find_clear(s, '\n');
    let n = find_char(s, '\n') as int;
    let v = lines(s);
    if s.len() == 0 {
    } else if n < s.len() {
        lemma_lines_feedless(s.skip(n + 1));
        assert forall|i: int| 0 <= i < v.len() implies feedless(#[trigger] v[i]) by {
            if i > 0 {
                assert(v[i] == lines(s.skip(n + 1))[i - 1]);
            } else {
                assert(v[0] == without_return(s.take(n)));
            }
        }
    } else {
        assert(v[0] == s);
        assert(feedless(s));
    }
}

proof fn lemma_trim_start_feedless(s: Seq<char>)
    requires
        feedless(s),
    ensures
        feedless(trim_start(s)),
    decreases s.len(),
{
    if s.len() > 0 && whitespace(s[0]) {
        lemma_trim_start_feedless(s.skip(1));
    }
}

proof fn lemma_trim_end_feedless(s: Seq<char>)
    requires
        feedless(s),
    ensures
        feedless(trim_end(s)),
    decreases s.len(),
{
    if s.len() > 0 && whitespace(s.last()) {
        lemma_trim_end_feedless(s.drop_last());
    }
}

proof fn lemma_trim_feedless(s: Seq<char>)
    requires
        feedless(s),
    ensures
        feedless(trim(s)),
{
    lemma_trim_start_feedless(s);
    lemma_trim_end_feedless(trim_start(s));
}

proof fn lemma_word_feedless(s: Seq<char>)
    requires
        feedless(s),
    ensures
        feedless(first_word(s)),
{
    lemma_trim_start_feedless(s);
    lemma_word_len(trim_start(s));
}

proof fn lemma_literals()
    ensures
        feedless("\x1b[0m"@),
        feedless("\x1b[1m"@),
        feedless("\x1b[2m"@),
        feedless("\x1b[3m"@),
        feedless("\x1b[4m"@),
        feedless("\x1b[36m"@),
        "\x1b[0m"@.len() == 4,
        "\x1b[1m"@.len() == 4,
        "\x1b[2m"@.len() == 4,
        "\x1b[3m"@.len() == 4,
        "\x1b[4m"@.len() == 4,
        "\x1b[36m"@.len() == 5,
{
    reveal_strlit("\x1b[0m");
    reveal_strlit("\x1b[1m");
    reveal_strlit("\x1b[2m");
    reveal_strlit("\x1b[3m");
    reveal_strlit("\x1b[4m");
    reveal_strlit("\x1b[36m");
}

proof fn lemma_link_feedless(s: Seq<char>)
    requires
        feedless(s),
        link_at(s) is Some,
    ensures
        feedless((link_at(s)->0).text),
        feedless((link_at(s)->0).tail),
        feedless(link_note(link_at(s)->0)),
{
    lemma_link_close(s, 0, 0);
    let l = link_at(s)->0;
    let i = link_close(s, 0, 0)->0;
    let inner = s.skip(i + 1).skip(1);
    lemma_find_clear(inner, ')');
    assert(feedless(inner));
    assert(feedless(l.target));
    lemma_word_feedless(l.target);
    reveal_strlit(" \x1b[2m(");
    reveal_strlit(")\x1b[0m");
}

/// Styling keeps a line one line, and leaves something of it.
proof fn lemma_styled_feedless(s: Seq<char>)
    requires
        feedless(s),
    ensures
        feedless(styled(s)),
        s.len() > 0 ==> styled(s).len() > 0,
    decreases s.len(),
{
    if s.len() > 0 {
        lemma_literals();
        let after = s.skip(1);
        let inner = s.skip(2);
        let tick = find_char(after, '`') as int;
        let star = find_char(after, '*') as int;
        lemma_find_seq(inner, "**"@);
        reveal_strlit("**");
        lemma_link_shrinks(s);
        lemma_link_shrinks(after);
        if s[0] == '`' && tick < after.len() {
            lemma_styled_feedless(after.skip(tick + 1));
        } else if begins_with(s, "**"@) && find_seq(inner, "**"@) is Some {
            let end = (find_seq(inner, "**"@)->0) as int;
            lemma_styled_feedless(inner.take(end));
            lemma_styled_feedless(inner.skip(end + 2));
        } else if s[0] == '*' && after.len() > 0 && after[0] != ' ' && after[0] != '*' && star
            < after.len() {
            lemma_styled_feedless(after.skip(star + 1));
        } else if s[0] == '!' && link_at(after) is Some {
            lemma_link_feedless(after);
            let l = link_at(after)->0;
            lemma_styled_feedless(l.tail);
            reveal_strlit("\x1b[3m[image");
            reveal_strlit("");
            reveal_strlit(": ");
            reveal_strlit("]\x1b[0m");
            assert(feedless(image_text(l.text)));
        } else if link_at(s) is Some {
            lemma_link_feedless(s);
            let l = link_at(s)->0;
            lemma_styled_feedless(l.text);
            lemma_styled_feedless(l.tail);
        } else {
            lemma_styled_feedless(after);
        }
    }
}

/// Whether a wrapping is made of single lines.
spec fn lineal(w: Wrapping) -> bool {
    &&& forall|i: int| 0 <= i < w.lines.len() ==> feedless(#[trigger] w.lines[i])
    &&& feedless(w.line)
    &&& feedless(w.style)
    &&& w.space matches Some(sp) ==> 0 <= sp.at < w.line.len() && feedless(sp.style)
}

proof fn lemma_lineal_push(w: Wrapping, line: Seq<char>, style: Seq<char>)
    requires
        lineal(w),
        feedless(line),
    ensures
        forall|i: int|
            0 <= i < w.lines.push(closed(line, style)).len() ==> feedless(
                #[trigger] w.lines.push(closed(line, style))[i],
            ),
{
    lemma_literals();
    let v = w.lines.push(closed(line, style));
    assert(feedless(closed(line, style)));
    assert forall|i: int| 0 <= i < v.len() implies feedless(#[trigger] v[i]) by {
        if i < w.lines.len() {
            assert(v[i] == w.lines[i]);
        }
    }
}

proof fn lemma_lineal_room(w: Wrapping, n: nat, width: nat)
    requires
        lineal(w),
    ensures
        lineal(w.with_room(n, width)),
{
    lemma_lineal_push(w, w.line, w.style);
    if let Some(sp) = w.space {
        lemma_lineal_push(w, w.line.take(sp.at), sp.style);
        let next = w.broken_at_space();
        assert(lineal(next));
        lemma_lineal_push(next, next.line, next.style);
    }
}

proof fn lemma_lineal_text(w: Wrapping, rest: Seq<char>, width: nat, at_spaces: bool)
    requires
        lineal(w),
        feedless(rest),
    ensures
        lineal(w.with_text(rest, width, at_spaces)),
    decreases rest.len(),
{
    if rest.len() > 0 {
        if rest[0] == '\u{1b}' {
            let n = escape_length(rest);
            if 0 < n <= rest.len() {
                let next = w.with_escape(rest.take(n));
                assert(lineal(next));
                lemma_lineal_text(next, rest.skip(n), width, at_spaces);
            }
        } else {
            let c = rest[0];
            let next = w.with_char(c, width, at_spaces);
            lemma_lineal_push(w, w.line, w.style);
            let noted = Wrapping {
                space: Some(
                    SpaceAt { at: w.line.len() as int, before: w.columns, style: w.style },
                ),
                ..w
            };
            if c == ' ' && at_spaces {
                assert(noted.columns + 1 <= width ==> columns(c) == 1);
            } else {
                lemma_lineal_room(w, columns(c), width);
            }
            assert(lineal(next));
            lemma_lineal_text(next, rest.skip(1), width, at_spaces);
        }
    }
}

/// Wrapping breaks a line into lines that hold no line feed.
proof fn lemma_wrapped_feedless(s: Seq<char>, width: nat, at_spaces: bool)
    requires
        feedless(s),
    ensures
        forall|i: int|
            0 <= i < wrapped(s, width, at_spaces).len() ==> feedless(
                #[trigger] wrapped(s, width, at_spaces)[i],
            ),
{
    lemma_lineal_text(unwrapped(), s, width, at_spaces);
    let w = unwrapped().with_text(s, width, at_spaces);
    assert forall|i: int| 0 <= i < w.finished().len() implies feedless(
        #[trigger] w.finished()[i],
    ) by {
        if i < w.lines.len() {
            assert(w.finished()[i] == w.lines[i]);
        }
    }
}

// --- Lines of text ---

proof fn lemma_heading_feedless(s: Seq<char>)
    requires
        feedless(s),
    ensures
        feedless(without_closing(s)),
    decreases s.len(),
{
    if s.len() > 0 && (s.last() == ' ' || s.last() == '#') {
        lemma_heading_feedless(s.drop_last());
    }
}

proof fn lemma_bullet_feedless(item: Seq<char>)
    requires
        feedless(item),
    ensures
        feedless(bullet_text(item)),
        bullet_text(item).len() > 0,
{
    reveal_strlit("[ ] ");
    reveal_strlit("[x] ");
    reveal_strlit("[X] ");
    reveal_strlit("  ☐ ");
    reveal_strlit("  ☑ ");
    reveal_strlit("  • ");
    lemma_styled_feedless(item);
    if item.len() >= 4 {
        lemma_styled_feedless(item.skip(4));
    }
}

/// A line of text that is not blank is rendered as one line that is not
/// empty.
proof fn lemma_line_rendered(line: Seq<char>)
    requires
        feedless(line),
        line.len() > 0,
    ensures
        feedless(line_rendered(line)),
        line_rendered(line).len() > 0,
{
    lemma_literals();
    lemma_trim_start_len(line);
    lemma_trim_start_feedless(line);
    let t = trim_start(line);
    let indent = line.take(line.len() - t.len());
    assert(feedless(indent));
    if is_rule(t) {
        assert(feedless(repeated('─', 40)));
    } else if is_heading(t) {
        reveal_strlit("\x1b[1m\x1b[4m");
        reveal_strlit("\x1b[1m\x1b[36m");
        reveal_strlit("\x1b[1m\x1b[33m");
        lemma_heading_feedless(t.skip(run_of(t, '#') as int + 1));
        lemma_styled_feedless(heading_text(t));
    } else if is_bullet(t) {
        reveal_strlit("- ");
        reveal_strlit("* ");
        reveal_strlit("+ ");
        lemma_bullet_feedless(t.skip(2));
    } else if t.len() > 0 && t[0] == '>' {
        reveal_strlit("\x1b[2m│\x1b[0m ");
        lemma_trim_start_feedless(t.skip(1));
        lemma_styled_feedless(trim_start(t.skip(1)));
    } else {
        lemma_styled_feedless(line);
    }
}

/// A line of text that is not blank takes a line that is not blank.
pub proof fn lemma_placed(line: Seq<char>, centered: bool, width: nat)
    requires
        feedless(line),
        trim(line).len() > 0,
    ensures
        filled(placed(line, centered, width)),
{
    lemma_trim_feedless(line);
    if centered {
        lemma_line_rendered(trim(line));
        let text = line_rendered(trim(line));
        let pad = repeated(' ', beyond(width, visible(text)) / 2);
        assert(feedless(pad));
        lemma_filled_line(pad + text);
    } else {
        assert(line.len() > 0) by {
            if line.len() == 0 {
                assert(trim_start(line) == line);
                assert(trim(line).len() == 0);
            }
        }
        lemma_line_rendered(line);
        lemma_filled_line(line_rendered(line));
    }
}

// --- Code ---

proof fn lemma_decimal_feedless(n: nat)
    ensures
        feedless(decimal(n)),
    decreases n,
{
    if n >= 10 {
        lemma_decimal_feedless(n / 10);
    }
}

/// Whether every one of some texts is a single line.
pub open spec fn all_feedless(v: Seq<Seq<char>>) -> bool {
    forall|i: int| 0 <= i < v.len() ==> feedless(#[trigger] v[i])
}

proof fn lemma_code_rows(lines: Seq<Seq<char>>, width: nat)
    requires
        all_feedless(lines),
    ensures
        all_feedless(code_rows(lines, width)),
    decreases lines.len(),
{
    if lines.len() > 0 {
        let head = lines.drop_last();
        assert forall|i: int| 0 <= i < head.len() implies feedless(#[trigger] head[i]) by {
            assert(head[i] == lines[i]);
        }
        lemma_code_rows(head, width);
        assert(feedless(lines[lines.len() - 1]));
        lemma_wrapped_feedless(lines.last(), width, false);
        let rows = code_rows(lines, width);
        let n = code_rows(head, width).len();
        assert forall|i: int| 0 <= i < rows.len() implies feedless(#[trigger] rows[i]) by {
            if i < n {
                assert(rows[i] == code_rows(head, width)[i]);
            } else {
                assert(rows[i] == wrapped(lines.last(), width, false)[i - n]);
            }
        }
    }
}

proof fn lemma_box_rows(rows: Seq<Seq<char>>, inner: nat)
    requires
        all_feedless(rows),
        rows.len() > 0,
    ensures
        filled(box_rows(rows, inner)),
    decreases rows.len(),
{
    reveal_strlit("\x1b[2m│\x1b[0m ");
    reveal_strlit(" \x1b[2m│\x1b[0m");
    let head = rows.drop_last();
    let row = rows.last();
    assert(feedless(rows[rows.len() - 1]));
    let pad = repeated(' ', beyond(inner, visible(row)));
    assert(feedless(pad));
    let line = box_line(row, inner);
    lemma_filled_line(line);
    assert(box_rows(rows, inner) =~= box_rows(head, inner) + (line + "\n"@));
    if head.len() > 0 {
        assert forall|i: int| 0 <= i < head.len() implies feedless(#[trigger] head[i]) by {
            assert(head[i] == rows[i]);
        }
        lemma_box_rows(head, inner);
        lemma_filled_join(box_rows(head, inner), line + "\n"@);
    } else {
        assert(box_rows(rows, inner) =~= line + "\n"@);
    }
}

/// A box around single lines has no blank line in it.
proof fn lemma_boxed(lang: Seq<char>, shown: Seq<Seq<char>>, index: nat, width: nat)
    requires
        feedless(lang),
        all_feedless(shown),
    ensures
        filled(boxed(lang, shown, index, width)),
{
    let room = (width - 4) as nat;
    let rows = code_rows(shown, room);
    let inner = inner_of(lang, rows, room);
    lemma_code_rows(shown, room);
    lemma_literals();
    lemma_decimal_feedless(index);
    reveal_strlit(" ");
    reveal_strlit("\x1b[2m╭─\x1b[0m");
    reveal_strlit("\x1b[0m\x1b]8;;oxide-copy:");
    reveal_strlit("\x1b\\ ⧉ copy \x1b]8;;\x1b\\\x1b[2m─╮\x1b[0m");
    reveal_strlit("\x1b[2m╰");
    reveal_strlit("╯\x1b[0m");
    let top = box_top(lang, inner, index);
    assert(feedless(label_of(lang)));
    assert(feedless(repeated('─', beyond(inner, edge_of(lang)))));
    lemma_filled_line(top);
    let foot = box_foot(inner);
    assert(feedless(repeated('─', inner + 2)));
    lemma_filled_line(foot);
    let all = boxed(lang, shown, index, width);
    if rows.len() > 0 {
        lemma_box_rows(rows, inner);
        lemma_filled_join(top + "\n"@, box_rows(rows, inner));
        lemma_filled_join(top + "\n"@ + box_rows(rows, inner), foot + "\n"@);
        assert(all =~= top + "\n"@ + box_rows(rows, inner) + (foot + "\n"@));
    } else {
        lemma_filled_join(top + "\n"@, foot + "\n"@);
        assert(all =~= top + "\n"@ + (foot + "\n"@));
    }
}

proof fn lemma_replaced_feedless(s: Seq<char>, c: char, by: Seq<char>)
    requires
        feedless(s),
        feedless(by),
    ensures
        feedless(replaced(s, c, by)),
    decreases s.len(),
{
    if s.len() > 0 {
        lemma_replaced_feedless(s.drop_last(), c, by);
    }
}

/// Code is drawn line by line.
pub proof fn lemma_untabbed(lines: Seq<Seq<char>>)
    requires
        all_feedless(lines),
    ensures
        all_feedless(untabbed(lines)),
{
    reveal_strlit("    ");
    let v = untabbed(lines);
    assert forall|i: int| 0 <= i < v.len() implies feedless(#[trigger] v[i]) by {
        assert(feedless(lines[i]));
        lemma_replaced_feedless(lines[i], '\t', "    "@);
    }
}

// --- Tables ---

proof fn lemma_bars_feedless(w: Seq<nat>, mid: Seq<char>)
    requires
        feedless(mid),
    ensures
        feedless(bars(w, mid)),
    decreases w.len(),
{
    if w.len() > 1 {
        lemma_bars_feedless(w.drop_last(), mid);
        assert(feedless(repeated('─', w.last() + 2)));
    } else if w.len() == 1 {
        assert(feedless(repeated('─', w[0] + 2)));
    }
}

proof fn lemma_border(w: Seq<nat>, left: Seq<char>, mid: Seq<char>, right: Seq<char>)
    requires
        feedless(left),
        feedless(mid),
        feedless(right),
    ensures
        filled(border(w, left, mid, right)),
{
    lemma_literals();
    lemma_bars_feedless(w, mid);
    lemma_filled_line(border_line(w, left, mid, right));
}

proof fn lemma_cell_feedless(text: Seq<char>, w: nat, align: Align, header: bool)
    requires
        feedless(text),
    ensures
        feedless(cell_text(text, w, align, header)),
{
    lemma_literals();
    reveal_strlit(" ");
    reveal_strlit("");
    reveal_strlit(" \x1b[2m│\x1b[0m");
    let g = gap(text, w);
    assert(feedless(repeated(' ', lead(align, g))));
    assert(feedless(repeated(' ', (g - lead(align, g)) as nat)));
}

proof fn lemma_line_feedless(
    row: Seq<Seq<Seq<char>>>,
    l: int,
    w: Seq<nat>,
    aligns: Seq<Align>,
    header: bool,
    n: nat,
)
    requires
        0 <= l,
        n <= row.len(),
        forall|c: int| 0 <= c < row.len() ==> all_feedless(#[trigger] row[c]),
    ensures
        feedless(line_text(row, l, w, aligns, header, n)),
        line_text(row, l, w, aligns, header, n).len() > 0,
    decreases n,
{
    reveal_strlit("\x1b[2m│\x1b[0m");
    if n > 0 {
        lemma_line_feedless(row, l, w, aligns, header, (n - 1) as nat);
        assert(all_feedless(row[n - 1]));
        let text = cell(row[n - 1], l);
        assert(feedless(text));
        lemma_cell_feedless(text, w[n - 1], aligns[n - 1], header);
    }
}

proof fn lemma_row_filled(
    row: Seq<Seq<Seq<char>>>,
    w: Seq<nat>,
    aligns: Seq<Align>,
    header: bool,
    n: nat,
)
    requires
        n > 0,
        w.len() <= row.len(),
        forall|c: int| 0 <= c < row.len() ==> all_feedless(#[trigger] row[c]),
    ensures
        filled(row_text(row, w, aligns, header, n)),
    decreases n,
{
    let line = line_text(row, n - 1, w, aligns, header, w.len());
    lemma_line_feedless(row, n - 1, w, aligns, header, w.len());
    lemma_filled_line(line);
    let before = row_text(row, w, aligns, header, (n - 1) as nat);
    assert(row_text(row, w, aligns, header, n) =~= before + (line + "\n"@));
    if n > 1 {
        lemma_row_filled(row, w, aligns, header, (n - 1) as nat);
        lemma_filled_join(before, line + "\n"@);
    } else {
        assert(before + (line + "\n"@) =~= line + "\n"@);
    }
}

proof fn lemma_tallest(row: Seq<Seq<Seq<char>>>)
    requires
        row.len() > 0,
        forall|c: int| 0 <= c < row.len() ==> (#[trigger] row[c]).len() > 0,
    ensures
        tallest(row) > 0,
{
    assert(row[row.len() - 1].len() > 0);
}

proof fn lemma_body_filled(
    rows: Seq<Seq<Seq<char>>>,
    w: Seq<nat>,
    aligns: Seq<Align>,
    n: nat,
)
    requires
        0 < n <= rows.len(),
        forall|r: int|
            0 <= r < rows.len() ==> all_feedless(#[trigger] rows[r]) && rows[r].len() == w.len(),
    ensures
        filled(body_text(rows, w, aligns, n)),
    decreases n,
{
    let row = wrapped_row(rows[n - 1], w);
    assert(all_feedless(rows[n - 1]) && rows[n - 1].len() == w.len());
    assert forall|c: int| 0 <= c < row.len() implies all_feedless(#[trigger] row[c])
        && row[c].len() > 0 by {
        assert(feedless(rows[n - 1][c]));
        lemma_wrapped_feedless(rows[n - 1][c], w[c], true);
    }
    if row.len() > 0 {
        lemma_tallest(row);
    }
    lemma_row_filled(row, w, aligns, n == 1, height(row));
    let text = row_text(row, w, aligns, n == 1, height(row));
    reveal_strlit("");
    if n > 1 {
        lemma_body_filled(rows, w, aligns, (n - 1) as nat);
        let before = body_text(rows, w, aligns, (n - 1) as nat);
        if n == 2 {
            reveal_strlit("├");
            reveal_strlit("┼");
            reveal_strlit("┤");
            let rule = border(w, "├"@, "┼"@, "┤"@);
            lemma_border(w, "├"@, "┼"@, "┤"@);
            lemma_filled_join(before, rule);
            lemma_filled_join(before + rule, text);
        } else {
            assert(before + ""@ =~= before);
            lemma_filled_join(before, text);
        }
    } else {
        assert(body_text(rows, w, aligns, 0) =~= Seq::empty());
        assert(body_text(rows, w, aligns, n) =~= text);
    }
}

proof fn lemma_join_feedless(v: Seq<Seq<char>>, sep: Seq<char>)
    requires
        all_feedless(v),
        feedless(sep),
    ensures
        feedless(join(v, sep)),
        v.len() > 1 ==> join(v, sep).len() >= sep.len(),
    decreases v.len(),
{
    if v.len() > 1 {
        let head = v.drop_last();
        assert forall|i: int| 0 <= i < head.len() implies feedless(#[trigger] head[i]) by {
            assert(head[i] == v[i]);
        }
        lemma_join_feedless(head, sep);
        assert(feedless(v[v.len() - 1]));
    } else if v.len() == 1 {
        assert(feedless(v[0]));
    }
}

proof fn lemma_plain_filled(rows: Seq<Seq<Seq<char>>>, n: nat)
    requires
        0 < n <= rows.len(),
        forall|r: int|
            0 <= r < rows.len() ==> all_feedless(#[trigger] rows[r]) && rows[r].len() > 1,
    ensures
        filled(plain_rows(rows, n)),
    decreases n,
{
    reveal_strlit(" \x1b[2m│\x1b[0m ");
    let row = rows[n - 1];
    assert(all_feedless(row) && row.len() > 1);
    lemma_join_feedless(row, " \x1b[2m│\x1b[0m "@);
    lemma_filled_line(join(row, " \x1b[2m│\x1b[0m "@));
    let before = plain_rows(rows, (n - 1) as nat);
    if n > 1 {
        lemma_plain_filled(rows, (n - 1) as nat);
        lemma_filled_join(before, plain_row(row));
    } else {
        assert(before + plain_row(row) =~= plain_row(row));
    }
}

/// A table has no blank line in it.
proof fn lemma_table_filled(rows: Seq<Seq<Seq<char>>>, aligns: Seq<Align>, width: nat)
    requires
        20 <= width,
        rows.len() > 0,
        forall|r: int| 0 <= r < rows.len() ==> all_feedless(#[trigger] rows[r]),
    ensures
        filled(table_text(rows, aligns, width)),
{
    let n = aligns.len();
    let shown = styled_rows(rows, n);
    assert forall|r: int| 0 <= r < shown.len() implies all_feedless(#[trigger] shown[r])
        && shown[r].len() == n by {
        assert(all_feedless(rows[r]));
        assert forall|c: int| 0 <= c < n implies feedless(#[trigger] shown[r][c]) by {
            lemma_styled_feedless(cell(rows[r], c));
        }
    }
    if room(width, n) < 3 * n {
        lemma_plain_filled(shown, shown.len());
    } else {
        let natural = Seq::new(n, |c: int| natural_width(shown, c));
        lemma_shrunk(natural, room(width, n));
        let w = column_widths(shown, n, width);
        assert(w.len() == n);
        reveal_strlit("┌");
        reveal_strlit("┬");
        reveal_strlit("┐");
        reveal_strlit("└");
        reveal_strlit("┴");
        reveal_strlit("┘");
        let top = border(w, "┌"@, "┬"@, "┐"@);
        let body = body_text(shown, w, aligns, shown.len());
        let foot = border(w, "└"@, "┴"@, "┘"@);
        lemma_border(w, "┌"@, "┬"@, "┐"@);
        lemma_body_filled(shown, w, aligns, shown.len());
        lemma_border(w, "└"@, "┴"@, "┘"@);
        lemma_filled_join(top, body);
        lemma_filled_join(top + body, foot);
    }
}

proof fn lemma_cut_feedless(
    done: Seq<Seq<char>>,
    cur: Seq<char>,
    rest: Seq<char>,
    in_code: bool,
)
    requires
        all_feedless(done),
        feedless(cur),
        feedless(rest),
    ensures
        all_feedless(cut_cells(done, cur, rest, in_code)),
    decreases rest.len(),
{
    if rest.len() == 0 {
    } else if rest[0] == '\\' && rest.len() > 1 && rest[1] == '|' {
        lemma_cut_feedless(done, cur.push('|'), rest.skip(2), in_code);
    } else if rest[0] == '|' && !in_code {
        lemma_cut_feedless(done.push(cur), Seq::empty(), rest.skip(1), in_code);
    } else {
        lemma_cut_feedless(
            done,
            cur.push(rest[0]),
            rest.skip(1),
            in_code != (rest[0] == '`'),
        );
    }
}

/// The cells of a line hold no line feed.
proof fn lemma_cells_feedless(line: Seq<char>)
    requires
        feedless(line),
    ensures
        all_feedless(row_cells(line)),
{
    lemma_trim_feedless(line);
    let t = trim(line);
    let body = if t.len() > 0 && t[0] == '|' {
        t.skip(1)
    } else {
        t
    };
    lemma_cut_feedless(Seq::empty(), Seq::empty(), body, false);
    let cut = without_trailing(cut_cells(Seq::empty(), Seq::empty(), body, false));
    let v = row_cells(line);
    assert forall|i: int| 0 <= i < v.len() implies feedless(#[trigger] v[i]) by {
        assert(cut[i] == cut_cells(Seq::empty(), Seq::empty(), body, false)[i]);
        lemma_trim_feedless(cut[i]);
    }
}

// --- Documents ---

/// Whether the lines of a block hold no line feed.
pub open spec fn block_feedless(b: Block) -> bool {
    match b {
        Block::Text { line, .. } => feedless(line),
        Block::Code { lang, lines } => feedless(lang) && all_feedless(lines),
    }
}

pub open spec fn blocks_feedless(v: Seq<Block>) -> bool {
    forall|i: int| 0 <= i < v.len() ==> block_feedless(#[trigger] v[i])
}

proof fn lemma_line_read(r: Reading, line: Seq<char>)
    requires
        blocks_feedless(r.blocks),
        feedless(line),
    ensures
        blocks_feedless(r.with_line(line).blocks),
{
    let next = r.with_line(line).blocks;
    let trimmed = trim_start(line);
    lemma_trim_start_feedless(line);
    match r.fence {
        Some(f) => {
            if !closes_fence(line, f) && r.blocks.len() > 0 {
                lemma_run_of(line, ' ');
                let code = code_line(line, f.indent);
                assert(feedless(code));
                let last = r.blocks[r.blocks.len() - 1];
                assert(block_feedless(last));
                assert(block_feedless(with_code(last, code)));
                assert forall|i: int| 0 <= i < next.len() implies block_feedless(
                    #[trigger] next[i],
                ) by {
                    if i < r.blocks.len() - 1 {
                        assert(next[i] == r.blocks[i]);
                    }
                }
            }
        },
        None => {
            if opens_fence(trimmed) {
                let n = run_of(trimmed, trimmed[0]) as int;
                lemma_run_of(trimmed, trimmed[0]);
                lemma_trim_feedless(trimmed.skip(n));
                assert forall|i: int| 0 <= i < next.len() implies block_feedless(
                    #[trigger] next[i],
                ) by {
                    if i < r.blocks.len() {
                        assert(next[i] == r.blocks[i]);
                    }
                }
            } else {
                let out = once_broken(converted(r.html, line).out);
                lemma_split_feedless(out);
                let n = r.blocks.len() as int;
                assert forall|i: int| 0 <= i < next.len() implies block_feedless(
                    #[trigger] next[i],
                ) by {
                    if i < n {
                        assert(next[i] == r.blocks[i]);
                    } else {
                        assert(feedless(split_on(out, '\n')[i - n]));
                    }
                }
            }
        },
    }
}

proof fn lemma_run_of(s: Seq<char>, c: char)
    ensures
        run_of(s, c) <= s.len(),
    decreases s.len(),
{
    if s.len() > 0 && s[0] == c {
        lemma_run_of(s.skip(1), c);
    }
}

proof fn lemma_reading_feedless(v: Seq<Seq<char>>)
    requires
        all_feedless(v),
    ensures
        blocks_feedless(reading(v).blocks),
    decreases v.len(),
{
    if v.len() > 0 {
        let head = v.drop_last();
        assert forall|i: int| 0 <= i < head.len() implies feedless(#[trigger] head[i]) by {
            assert(head[i] == v[i]);
        }
        lemma_reading_feedless(head);
        assert(feedless(v[v.len() - 1]));
        lemma_line_read(reading(head), v.last());
    }
}

/// The lines of a document's blocks hold no line feed.
pub proof fn lemma_blocks_feedless(md: Seq<char>)
    ensures
        blocks_feedless(blocks(md)),
{
    lemma_lines_feedless(md);
    lemma_reading_feedless(lines(md));
}

/// A table of a document has no blank line in it.
pub proof fn lemma_table_at(v: Seq<Block>, i: int, aligns: Seq<Align>, width: nat)
    requires
        20 <= width,
        blocks_feedless(v),
        0 <= i,
        i + 2 <= v.len(),
    ensures
        filled(table_text(table_rows(v, i), aligns, width)),
{
    lemma_rows_end(v, i + 2);
    let rows = table_rows(v, i);
    assert forall|r: int| 0 <= r < rows.len() implies all_feedless(#[trigger] rows[r]) by {
        let b = if r == 0 {
            v[i]
        } else {
            v[i + 1 + r]
        };
        assert(block_feedless(b));
        assert(rows[r] == block_cells(b));
        match b {
            Block::Text { line, .. } => {
                lemma_cells_feedless(line);
            },
            _ => {},
        }
    }
    lemma_table_filled(rows, aligns, width);
}

/// A code box of a document has no blank line in it.
pub proof fn lemma_code_filled(
    info: Seq<char>,
    shown: Seq<Seq<char>>,
    index: nat,
    width: nat,
)
    requires
        feedless(info),
        all_feedless(shown),
    ensures
        filled(boxed(first_word(info), shown, index, width)),
{
    lemma_word_feedless(info);
    lemma_boxed(first_word(info), shown, index, width);
}

} // verus!
