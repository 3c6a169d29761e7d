//! Tables, laid out to the tab's width.
use vstd::prelude::*;

use crate::markdown::ansi::{reset, visible, visible_width, wrap, wrapped};
use crate::markdown::inline::styled;
use crate::text::{
    add_chars, add_repeated, add_text, chars_views, has_char, repeated, strip_end, strip_end_of,
    strip_start, strip_start_of, tail_of, trim, trim_chars,
};

verus! {

/// How a column's text is set.
#[derive(Debug, Clone, Copy, PartialEq, Eq, Structural)]
pub enum Align {
    Left,
    Center,
    Right,
}

/// The cells of a row, cut at each `|` except escaped ones and those in code
/// spans. `cur` is the cell being read.
pub open spec fn cut_cells(
    done: Seq<Seq<char>>,
    cur: Seq<char>,
    rest: Seq<char>,
    in_code: bool,
) -> Seq<Seq<char>>
    decreases rest.len(),
{
    if rest.len() == 0 {
        done.push(cur)
    } else if rest[0] == '\\' && rest.len() > 1 && rest[1] == '|' {
        cut_cells(done, cur.push('|'), rest.skip(2), in_code)
    } else if rest[0] == '|' && !in_code {
        cut_cells(done.push(cur), Seq::empty(), rest.skip(1), in_code)
    } else {
        cut_cells(done, cur.push(rest[0]), rest.skip(1), in_code != (rest[0] == '`'))
    }
}

/// Cells without the one after a trailing pipe, which isn't one.
pub open spec fn without_trailing(cells: Seq<Seq<char>>) -> Seq<Seq<char>> {
    if cells.len() > 1 && trim(cells.last()).len() == 0 {
        cells.drop_last()
    } else {
        cells
    }
}

/// The cells of a table row, trimmed.
pub open spec fn row_cells(line: Seq<char>) -> Seq<Seq<char>> {
    let t = trim(line);
    let body = if t.len() > 0 && t[0] == '|' {
        t.skip(1)
    } else {
        t
    };
    without_trailing(cut_cells(Seq::empty(), Seq::empty(), body, false)).map_values(
        |c: Seq<char>| trim(c),
    )
}

/// Split a table row on `|`, except escaped ones and those in code spans.
pub fn cells(line: &[char]) -> (r: Vec<Vec<char>>)
    ensures
        chars_views(r@) == row_cells(line@),
{
    let t = trim_chars(line);
    let body = if t.len() > 0 && t[0] == '|' {
        tail_of(&t, 1)
    } else {
        t.as_slice()
    };
    let ghost whole = cut_cells(Seq::empty(), Seq::empty(), body@, false);
    let mut done: Vec<Vec<char>> = Vec::new();
    let mut cur: Vec<char> = Vec::new();
    let mut in_code = false;
    let mut i: usize = 0;
    proof {
        assert(chars_views(done@) =~= Seq::empty());
        assert(cur@ =~= Seq::empty());
        assert(body@.skip(0) =~= body@);
    }
    while i < body.len()
        invariant
            i <= body.len(),
            whole == cut_cells(chars_views(done@), cur@, body@.skip(i as int), in_code),
        decreases body.len() - i,
    {
        let ghost rest = body@.skip(i as int);
        let ghost before = done@;
        proof {
            assert(rest[0] == body@[i as int]);
            assert(rest.skip(1) =~= body@.skip(i + 1));
            if i + 1 < body.len() {
                assert(rest[1] == body@[i + 1]);
                assert(rest.skip(2) =~= body@.skip(i + 2));
            }
        }
        let c = body[i];
        if c == '\\' && body.len() - i > 1 && body[i + 1] == '|' {
            cur.push('|');
            i += 2;
        } else if c == '|' && !in_code {
            let ghost was = cur@;
            let mut cell: Vec<char> = Vec::new();
            std::mem::swap(&mut cell, &mut cur);
            done.push(cell);
            assert(chars_views(done@) =~= chars_views(before).push(was));
            assert(cur@ =~= Seq::empty());
            i += 1;
        } else {
            in_code = in_code != (c == '`');
            cur.push(c);
            i += 1;
        }
    }
    assert(body@.skip(i as int) =~= Seq::empty());
    let ghost before = done@;
    let ghost was = cur@;
    done.push(cur);
    assert(chars_views(done@) =~= chars_views(before).push(was));
    let last = done.len() - 1;
    assert(chars_views(done@).last() == done@[last as int]@);
    if done.len() > 1 && trim_chars(&done[last]).len() == 0 {
        let ghost all = done@;
        done.pop();
        assert(chars_views(done@) =~= chars_views(all).drop_last());
    }
    let ghost kept = without_trailing(whole);
    assert(chars_views(done@) == kept);
    let mut out: Vec<Vec<char>> = Vec::new();
    let mut k: usize = 0;
    while k < done.len()
        invariant
            k == out.len() <= done.len(),
            forall|j: int| 0 <= j < k ==> (#[trigger] out@[j])@ == trim(done@[j]@),
        decreases done.len() - k,
    {
        out.push(trim_chars(&done[k]));
        k += 1;
    }
    assert(chars_views(out@) =~= kept.map_values(|c: Seq<char>| trim(c)));
    out
}

/// Whether a text is made of dashes, at least one.
pub open spec fn dashes(s: Seq<char>) -> bool {
    s.len() > 0 && forall|i: int| 0 <= i < s.len() ==> #[trigger] s[i] == '-'
}

/// The alignment that a cell of a delimiter row stands for.
pub open spec fn align_of(c: Seq<char>) -> Option<Align> {
    if dashes(strip_end(strip_start(c, ':'), ':')) {
        Some(
            if c[0] == ':' && c.last() == ':' {
                Align::Center
            } else if c.last() == ':' {
                Align::Right
            } else {
                Align::Left
            },
        )
    } else {
        None
    }
}

/// Column alignments if `line` is a table's `|:--|--:|` delimiter row.
pub open spec fn delimiter_row(line: Seq<char>) -> Option<Seq<Align>> {
    let list = row_cells(line);
    if line.contains('|') && (forall|i: int|
        0 <= i < list.len() ==> align_of(#[trigger] list[i]) is Some) {
        Some(list.map_values(|c: Seq<char>| align_of(c)->0))
    } else {
        None
    }
}

proof fn lemma_strip_start(s: Seq<char>, c: char)
    ensures
        strip_start(s, c).len() <= s.len(),
    decreases s.len(),
{
    if s.len() > 0 && s[0] == c {
        lemma_strip_start(s.skip(1), c);
    }
}

proof fn lemma_strip_end(s: Seq<char>, c: char)
    ensures
        strip_end(s, c).len() <= s.len(),
    decreases s.len(),
{
    if s.len() > 0 && s.last() == c {
        lemma_strip_end(s.drop_last(), c);
    }
}

fn cell_align(c: &Vec<char>) -> (r: Option<Align>)
    ensures
        r == align_of(c@),
{
    let inner = strip_end_of(&strip_start_of(c, ':'), ':');
    proof {
        lemma_strip_start(c@, ':');
        lemma_strip_end(strip_start(c@, ':'), ':');
    }
    if inner.len() == 0 {
        return None;
    }
    let mut i: usize = 0;
    while i < inner.len()
        invariant
            i <= inner.len(),
            forall|k: int| 0 <= k < i ==> #[trigger] inner@[k] == '-',
            inner@ == strip_end(strip_start(c@, ':'), ':'),
        decreases inner.len() - i,
    {
        if inner[i] != '-' {
            assert(inner@[i as int] != '-');
            return None;
        }
        i += 1;
    }
    let ends = c[c.len() - 1] == ':';
    Some(
        if c[0] == ':' && ends {
            Align::Center
        } else if ends {
            Align::Right
        } else {
            Align::Left
        },
    )
}

/// Column alignments if `line` is a table's `|:--|--:|` delimiter row.
pub fn table_aligns(line: &[char]) -> (r: Option<Vec<Align>>)
    ensures
        match r {
            None => delimiter_row(line@) is None,
            Some(a) => delimiter_row(line@) == Some(a@),
        },
{
    if !has_char(line, '|') {
        return None;
    }
    let list = cells(line);
    let ghost all = row_cells(line@);
    let mut out: Vec<Align> = Vec::new();
    let mut i: usize = 0;
    while i < list.len()
        invariant
            i == out.len() <= list.len(),
            all == chars_views(list@),
            all == row_cells(line@),
            forall|k: int|
                0 <= k < i ==> align_of(#[trigger] all[k]) == Some(out@[k]),
        decreases list.len() - i,
    {
        assert(all[i as int] == list@[i as int]@);
        match cell_align(&list[i]) {
            None => {
                return None;
            },
            Some(a) => {
                out.push(a);
            },
        }
        i += 1;
    }
    assert(out@ =~= all.map_values(|c: Seq<char>| align_of(c)->0));
    Some(out)
}

/// The cells of several rows.
pub open spec fn rows_view(v: Seq<Vec<Vec<char>>>) -> Seq<Seq<Seq<char>>> {
    v.map_values(|r: Vec<Vec<char>>| chars_views(r@))
}

/// The cell of a row in column `c`, empty where the row is too short.
pub open spec fn cell(row: Seq<Seq<char>>, c: int) -> Seq<char> {
    if c < row.len() {
        row[c]
    } else {
        Seq::empty()
    }
}

/// The rows with `n` styled cells each.
pub open spec fn styled_rows(rows: Seq<Seq<Seq<char>>>, n: nat) -> Seq<Seq<Seq<char>>> {
    rows.map_values(|r: Seq<Seq<char>>| Seq::new(n, |c: int| styled(cell(r, c))))
}

/// The columns left for text between the borders of `n` columns.
pub open spec fn room(width: nat, n: nat) -> nat {
    if width >= 3 * n + 1 {
        (width - (3 * n + 1)) as nat
    } else {
        0
    }
}

/// The widest cell of column `c`, one at least.
pub open spec fn natural_width(rows: Seq<Seq<Seq<char>>>, c: int) -> nat
    decreases rows.len(),
{
    if rows.len() == 0 {
        1
    } else {
        let w = visible(rows.last()[c]);
        let before = natural_width(rows.drop_last(), c);
        if w > before {
            w
        } else {
            before
        }
    }
}

/// The sum of some widths.
pub open spec fn total(w: Seq<nat>) -> nat
    decreases w.len(),
{
    if w.len() == 0 {
        0
    } else {
        total(w.drop_last()) + w.last()
    }
}

/// The widest of some columns, the last one of several.
pub open spec fn widest(w: Seq<nat>) -> int
    decreases w.len(),
{
    if w.len() <= 1 {
        0
    } else {
        let before = widest(w.drop_last());
        if w.last() >= w[before] {
            w.len() - 1
        } else {
            before
        }
    }
}

/// The widest column is one of the columns, and none is wider.
pub proof fn lemma_widest(w: Seq<nat>)
    requires
        w.len() > 0,
    ensures
        0 <= widest(w) < w.len(),
        forall|i: int| 0 <= i < w.len() ==> #[trigger] w[i] <= w[widest(w)],
    decreases w.len(),
{
    if w.len() > 1 {
        let front = w.drop_last();
        lemma_widest(front);
        assert forall|i: int| 0 <= i < w.len() implies #[trigger] w[i] <= w[widest(w)] by {
            if i < front.len() {
                assert(front[i] <= front[widest(front)]);
            }
        }
    }
}

/// Changing one width changes the sum by as much.
pub proof fn lemma_total_update(w: Seq<nat>, i: int, v: nat)
    requires
        0 <= i < w.len(),
    ensures
        total(w.update(i, v)) == total(w) - w[i] + v,
    decreases w.len(),
{
    if i == w.len() - 1 {
        assert(w.update(i, v).drop_last() =~= w.drop_last());
    } else {
        lemma_total_update(w.drop_last(), i, v);
        assert(w.update(i, v).drop_last() =~= w.drop_last().update(i, v));
    }
}

/// No width is greater than the sum.
pub proof fn lemma_total_bound(w: Seq<nat>)
    ensures
        forall|i: int| 0 <= i < w.len() ==> #[trigger] w[i] <= total(w),
    decreases w.len(),
{
    if w.len() > 0 {
        lemma_total_bound(w.drop_last());
        assert forall|i: int| 0 <= i < w.len() implies #[trigger] w[i] <= total(w) by {
            if i < w.len() - 1 {
                assert(w.drop_last()[i] <= total(w.drop_last()));
            }
        }
    }
}

proof fn lemma_total_zero(w: Seq<nat>)
    requires
        forall|i: int| 0 <= i < w.len() ==> #[trigger] w[i] == 0,
    ensures
        total(w) == 0,
    decreases w.len(),
{
    if w.len() > 0 {
        assert(w[w.len() - 1] == 0);
        assert forall|i: int| 0 <= i < w.len() - 1 implies #[trigger] w.drop_last()[i] == 0 by {
            assert(w.drop_last()[i] == w[i]);
        }
        lemma_total_zero(w.drop_last());
    }
}

proof fn lemma_widest_positive(w: Seq<nat>)
    requires
        total(w) > 0,
    ensures
        w.len() > 0,
        0 <= widest(w) < w.len(),
        w[widest(w)] > 0,
{
    if w.len() > 0 {
        lemma_widest(w);
        if w[widest(w)] == 0 {
            lemma_total_zero(w);
        }
    }
}

/// Widths that fit into `room`: the widest gives way, a column at a time.
pub open spec fn shrunk(w: Seq<nat>, room: nat) -> Seq<nat>
    decreases total(w),
{
    if total(w) <= room || !(0 <= widest(w) < w.len() && w[widest(w)] > 0) {
        w
    } else {
        let next = w.update(widest(w), (w[widest(w)] - 1) as nat);
        proof {
            lemma_total_update(w, widest(w), (w[widest(w)] - 1) as nat);
        }
        shrunk(next, room)
    }
}

/// Shrunk columns fit, as many as there were, and none has grown.
pub proof fn lemma_shrunk(w: Seq<nat>, room: nat)
    ensures
        shrunk(w, room).len() == w.len(),
        total(shrunk(w, room)) <= room,
        forall|i: int| 0 <= i < w.len() ==> #[trigger] shrunk(w, room)[i] <= w[i],
    decreases total(w),
{
    if total(w) > room {
        lemma_widest_positive(w);
        let next = w.update(widest(w), (w[widest(w)] - 1) as nat);
        lemma_total_update(w, widest(w), (w[widest(w)] - 1) as nat);
        lemma_shrunk(next, room);
        assert forall|i: int| 0 <= i < w.len() implies #[trigger] shrunk(w, room)[i] <= w[i] by {
            assert(shrunk(next, room)[i] <= next[i]);
        }
    }
}

/// The widths of the columns.
pub open spec fn column_widths(rows: Seq<Seq<Seq<char>>>, n: nat, width: nat) -> Seq<nat> {
    shrunk(Seq::new(n, |c: int| natural_width(rows, c)), room(width, n))
}

/// A horizontal border: bars as wide as the columns, `mid` between them.
pub open spec fn bars(w: Seq<nat>, mid: Seq<char>) -> Seq<char>
    decreases w.len(),
{
    if w.len() == 0 {
        Seq::empty()
    } else if w.len() == 1 {
        repeated('─', w[0] + 2)
    } else {
        bars(w.drop_last(), mid) + mid + repeated('─', w.last() + 2)
    }
}

/// A whole line of border.
pub open spec fn border_line(
    w: Seq<nat>,
    left: Seq<char>,
    mid: Seq<char>,
    right: Seq<char>,
) -> Seq<char> {
    "\x1b[2m"@ + left + bars(w, mid) + right + reset()
}

/// A whole line of border and its end.
pub open spec fn border(w: Seq<nat>, left: Seq<char>, mid: Seq<char>, right: Seq<char>) -> Seq<
    char,
> {
    border_line(w, left, mid, right) + "\n"@
}

/// A row's cells, each wrapped to its column.
pub open spec fn wrapped_row(row: Seq<Seq<char>>, w: Seq<nat>) -> Seq<Seq<Seq<char>>> {
    Seq::new(w.len(), |c: int| wrapped(row[c], w[c], true))
}

/// How many lines the tallest cell of a wrapped row takes.
pub open spec fn tallest(row: Seq<Seq<Seq<char>>>) -> nat
    decreases row.len(),
{
    if row.len() == 0 {
        0
    } else {
        let before = tallest(row.drop_last());
        if row.last().len() > before {
            row.last().len()
        } else {
            before
        }
    }
}

/// How many lines a wrapped row takes: a row without cells is still drawn.
pub open spec fn height(row: Seq<Seq<Seq<char>>>) -> nat {
    if row.len() == 0 {
        1
    } else {
        tallest(row)
    }
}

/// What a column's text lacks to its width.
pub open spec fn gap(text: Seq<char>, w: nat) -> nat {
    if visible(text) < w {
        (w - visible(text)) as nat
    } else {
        0
    }
}

/// The part of a gap that stands before the text.
pub open spec fn lead(align: Align, gap: nat) -> nat {
    match align {
        Align::Left => 0,
        Align::Right => gap,
        Align::Center => gap / 2,
    }
}

/// One cell's text in a line of the table, with the border after it.
pub open spec fn cell_text(text: Seq<char>, w: nat, align: Align, header: bool) -> Seq<char> {
    let g = gap(text, w);
    " "@ + repeated(' ', lead(align, g)) + (if header {
        "\x1b[1m"@
    } else {
        ""@
    }) + text + reset() + repeated(' ', (g - lead(align, g)) as nat) + " \x1b[2m│\x1b[0m"@
}

/// The first `n` cells of line `l` of a row.
pub open spec fn line_text(
    row: Seq<Seq<Seq<char>>>,
    l: int,
    w: Seq<nat>,
    aligns: Seq<Align>,
    header: bool,
    n: nat,
) -> Seq<char>
    decreases n,
{
    if n == 0 {
        "\x1b[2m│\x1b[0m"@
    } else {
        line_text(row, l, w, aligns, header, (n - 1) as nat) + cell_text(
            cell(row[n - 1], l),
            w[n - 1],
            aligns[n - 1],
            header,
        )
    }
}

/// The first `n` lines of a row.
pub open spec fn row_text(
    row: Seq<Seq<Seq<char>>>,
    w: Seq<nat>,
    aligns: Seq<Align>,
    header: bool,
    n: nat,
) -> Seq<char>
    decreases n,
{
    if n == 0 {
        Seq::empty()
    } else {
        row_text(row, w, aligns, header, (n - 1) as nat) + line_text(
            row,
            n - 1,
            w,
            aligns,
            header,
            w.len(),
        ) + "\n"@
    }
}

/// The first `n` rows, the header ruled off.
pub open spec fn body_text(
    rows: Seq<Seq<Seq<char>>>,
    w: Seq<nat>,
    aligns: Seq<Align>,
    n: nat,
) -> Seq<char>
    decreases n,
{
    if n == 0 {
        Seq::empty()
    } else {
        let row = wrapped_row(rows[n - 1], w);
        body_text(rows, w, aligns, (n - 1) as nat) + (if n == 2 {
            border(w, "├"@, "┼"@, "┤"@)
        } else {
            ""@
        }) + row_text(row, w, aligns, n == 1, height(row))
    }
}

/// A row's cells side by side, without a box.
pub open spec fn plain_row(row: Seq<Seq<char>>) -> Seq<char> {
    crate::text::join(row, " \x1b[2m│\x1b[0m "@) + "\n"@
}

/// The first `n` rows without a box.
pub open spec fn plain_rows(rows: Seq<Seq<Seq<char>>>, n: nat) -> Seq<char>
    decreases n,
{
    if n == 0 {
        Seq::empty()
    } else {
        plain_rows(rows, (n - 1) as nat) + plain_row(rows[n - 1])
    }
}

/// A table within `width`: columns start at their natural widths and the
/// widest give way, a column at a time, until the borders fit; cells wrap
/// inside their column. The first row is the header. Where there are too
/// many columns to draw, the cells are shown without the box.
pub open spec fn table_text(rows: Seq<Seq<Seq<char>>>, aligns: Seq<Align>, width: nat) -> Seq<
    char,
> {
    let n = aligns.len();
    let shown = styled_rows(rows, n);
    if room(width, n) < 3 * n {
        plain_rows(shown, shown.len())
    } else {
        let w = column_widths(shown, n, width);
        border(w, "┌"@, "┬"@, "┐"@) + body_text(shown, w, aligns, shown.len()) + border(
            w,
            "└"@,
            "┴"@,
            "┘"@,
        )
    }
}

/// The widths as numbers.
spec fn nats(w: Seq<u128>) -> Seq<nat> {
    w.map_values(|x: u128| x as nat)
}

spec fn sizes(w: Seq<usize>) -> Seq<nat> {
    w.map_values(|x: usize| x as nat)
}

fn style_cells(rows: &Vec<Vec<Vec<char>>>, n: usize) -> (r: Vec<Vec<Vec<char>>>)
    ensures
        rows_view(r@) == styled_rows(rows_view(rows@), n as nat),
{
    let mut out: Vec<Vec<Vec<char>>> = Vec::new();
    let mut i: usize = 0;
    while i < rows.len()
        invariant
            i == out.len() <= rows.len(),
            forall|k: int|
                0 <= k < i ==> chars_views(#[trigger] out@[k]@) == Seq::new(
                    n as nat,
                    |c: int| styled(cell(chars_views(rows@[k]@), c)),
                ),
        decreases rows.len() - i,
    {
        let row = &rows[i];
        let mut cells: Vec<Vec<char>> = Vec::new();
        let mut c: usize = 0;
        while c < n
            invariant
                c == cells.len() <= n,
                forall|k: int|
                    0 <= k < c ==> (#[trigger] cells@[k])@ == styled(cell(chars_views(row@), k)),
            decreases n - c,
        {
            if c < row.len() {
                cells.push(crate::markdown::inline::inline(&row[c]));
            } else {
                let none: Vec<char> = Vec::new();
                assert(none@ =~= Seq::empty());
                cells.push(crate::markdown::inline::inline(&none));
            }
            c += 1;
        }
        assert(chars_views(cells@) =~= Seq::new(
            n as nat,
            |c: int| styled(cell(chars_views(row@), c)),
        ));
        out.push(cells);
        i += 1;
    }
    assert(rows_view(out@) =~= styled_rows(rows_view(rows@), n as nat));
    out
}

fn measure(rows: &Vec<Vec<Vec<char>>>, c: usize) -> (w: u128)
    requires
        forall|i: int| 0 <= i < rows@.len() ==> c < (#[trigger] rows@[i])@.len(),
    ensures
        w == natural_width(rows_view(rows@), c as int),
{
    let ghost all = rows_view(rows@);
    let mut w: u128 = 1;
    let mut i: usize = 0;
    assert(all.take(0) =~= Seq::empty());
    while i < rows.len()
        invariant
            i <= rows.len(),
            all == rows_view(rows@),
            forall|i: int| 0 <= i < rows@.len() ==> c < (#[trigger] rows@[i])@.len(),
            w == natural_width(all.take(i as int), c as int),
        decreases rows.len() - i,
    {
        proof {
            assert(all.take(i + 1).drop_last() =~= all.take(i as int));
            assert(all.take(i + 1).last() == all[i as int]);
            assert(c < rows@[i as int]@.len());
            assert(all[i as int][c as int] == rows@[i as int]@[c as int]@);
        }
        let v = visible_width(&rows[i][c]);
        if v > w {
            w = v;
        }
        i += 1;
    }
    assert(all.take(i as int) =~= all);
    w
}

fn exceeds(w: &Vec<u128>, room: usize) -> (r: bool)
    ensures
        r == (total(nats(w@)) > room),
{
    let ghost all = nats(w@);
    let mut sum: u128 = 0;
    let mut i: usize = 0;
    assert(all.take(0) =~= Seq::empty());
    while i < w.len()
        invariant
            i <= w.len(),
            all == nats(w@),
            sum == total(all.take(i as int)),
            sum <= room,
        decreases w.len() - i,
    {
        proof {
            assert(all.take(i + 1).drop_last() =~= all.take(i as int));
            assert(all.take(i + 1).last() == w@[i as int]);
            lemma_total_prefix(all, i + 1);
        }
        if w[i] > room as u128 - sum {
            return true;
        }
        sum += w[i];
        i += 1;
    }
    assert(all.take(i as int) =~= all);
    false
}

proof fn lemma_total_prefix(w: Seq<nat>, n: int)
    requires
        0 <= n <= w.len(),
    ensures
        total(w.take(n)) <= total(w),
    decreases w.len(),
{
    if n == w.len() {
        assert(w.take(n) =~= w);
    } else {
        lemma_total_prefix(w.drop_last(), n);
        assert(w.drop_last().take(n) =~= w.take(n));
    }
}

fn find_widest(w: &Vec<u128>) -> (r: usize)
    requires
        w@.len() > 0,
    ensures
        r == widest(nats(w@)),
        r < w@.len(),
{
    let ghost all = nats(w@);
    let mut best: usize = 0;
    let mut i: usize = 1;
    while i < w.len()
        invariant
            1 <= i <= w.len(),
            all == nats(w@),
            best < i,
            best == widest(all.take(i as int)),
        decreases w.len() - i,
    {
        proof {
            let t = all.take(i + 1);
            assert(t.drop_last() =~= all.take(i as int));
            assert(t.last() == w@[i as int]);
            assert(t[best as int] == w@[best as int]);
        }
        if w[i] >= w[best] {
            best = i;
        }
        i += 1;
    }
    assert(all.take(i as int) =~= all);
    best
}

fn fit(rows: &Vec<Vec<Vec<char>>>, n: usize, width: usize) -> (r: Vec<usize>)
    requires
        forall|i: int| 0 <= i < rows@.len() ==> (#[trigger] rows@[i])@.len() == n,
    ensures
        sizes(r@) == column_widths(rows_view(rows@), n as nat, width as nat),
        total(sizes(r@)) <= width,
{
    let mut w: Vec<u128> = Vec::new();
    let mut c: usize = 0;
    while c < n
        invariant
            c == w.len() <= n,
            forall|i: int| 0 <= i < rows@.len() ==> (#[trigger] rows@[i])@.len() == n,
            forall|k: int|
                0 <= k < c ==> #[trigger] w@[k] == natural_width(rows_view(rows@), k),
        decreases n - c,
    {
        w.push(measure(rows, c));
        c += 1;
    }
    let ghost first = Seq::new(n as nat, |c: int| natural_width(rows_view(rows@), c));
    assert(nats(w@) =~= first);
    let borders: u128 = 3 * (n as u128) + 1;
    let space: usize = if (width as u128) >= borders {
        (width as u128 - borders) as usize
    } else {
        0
    };
    let mut over = exceeds(&w, space);
    while over
        invariant
            over == (total(nats(w@)) > space),
            w.len() == n,
            shrunk(first, space as nat) == shrunk(nats(w@), space as nat),
        decreases total(nats(w@)),
    {
        proof {
            lemma_widest_positive(nats(w@));
        }
        let k = find_widest(&w);
        let v = w[k];
        assert(v == nats(w@)[k as int]);
        let ghost before = nats(w@);
        w.set(k, v - 1);
        proof {
            assert(nats(w@) =~= before.update(k as int, (v - 1) as nat));
            lemma_total_update(before, k as int, (v - 1) as nat);
        }
        over = exceeds(&w, space);
    }
    proof {
        lemma_total_bound(nats(w@));
    }
    let mut out: Vec<usize> = Vec::new();
    let mut k: usize = 0;
    while k < n
        invariant
            k == out.len() <= n,
            w.len() == n,
            total(nats(w@)) <= space,
            forall|i: int| 0 <= i < nats(w@).len() ==> #[trigger] nats(w@)[i] <= total(nats(w@)),
            forall|i: int| 0 <= i < k ==> #[trigger] out@[i] == w@[i],
        decreases n - k,
    {
        assert(nats(w@)[k as int] <= total(nats(w@)));
        out.push(w[k] as usize);
        k += 1;
    }
    assert(sizes(out@) =~= nats(w@));
    out
}

fn add_border(out: &mut Vec<char>, w: &Vec<usize>, left: &str, mid: &str, right: &str)
    requires
        total(sizes(w@)) <= usize::MAX - 2,
    ensures
        final(out)@ == old(out)@ + border(sizes(w@), left@, mid@, right@),
{
    let ghost start = out@;
    let ghost all = sizes(w@);
    add_text(out, "\x1b[2m");
    add_text(out, left);
    let ghost lead = out@;
    let mut c: usize = 0;
    assert(all.take(0) =~= Seq::empty());
    assert(out@ =~= lead + bars(all.take(0), mid@));
    proof {
        lemma_total_bound(all);
    }
    while c < w.len()
        invariant
            c <= w.len(),
            all == sizes(w@),
            total(all) <= usize::MAX - 2,
            forall|i: int| 0 <= i < all.len() ==> #[trigger] all[i] <= total(all),
            out@ == lead + bars(all.take(c as int), mid@),
        decreases w.len() - c,
    {
        let ghost before = out@;
        proof {
            assert(all.take(c + 1).drop_last() =~= all.take(c as int));
            assert(all.take(c + 1).last() == all[c as int]);
            assert(all[c as int] <= total(all));
        }
        if c > 0 {
            add_text(out, mid);
        }
        add_repeated(out, '─', w[c] + 2);
        assert(out@ =~= lead + bars(all.take(c + 1), mid@));
        c += 1;
    }
    assert(all.take(c as int) =~= all);
    add_text(out, right);
    add_text(out, "\x1b[0m");
    add_text(out, "\n");
    assert(out@ =~= start + border(all, left@, mid@, right@));
}

fn add_cell(out: &mut Vec<char>, text: &[char], w: usize, align: Align, header: bool)
    ensures
        final(out)@ == old(out)@ + cell_text(text@, w as nat, align, header),
{
    let ghost start = out@;
    let v = visible_width(text);
    let gap: usize = if v < w as u128 {
        (w as u128 - v) as usize
    } else {
        0
    };
    let before: usize = match align {
        Align::Left => 0,
        Align::Right => gap,
        Align::Center => gap / 2,
    };
    add_text(out, " ");
    add_repeated(out, ' ', before);
    add_text(
        out,
        if header {
            "\x1b[1m"
        } else {
            ""
        },
    );
    add_chars(out, text);
    add_text(out, "\x1b[0m");
    add_repeated(out, ' ', gap - before);
    add_text(out, " \x1b[2m│\x1b[0m");
    assert(out@ =~= start + cell_text(text@, w as nat, align, header));
}

fn wrap_row(row: &Vec<Vec<char>>, w: &Vec<usize>) -> (r: Vec<Vec<Vec<char>>>)
    requires
        row@.len() == w@.len(),
    ensures
        rows_view(r@) == wrapped_row(chars_views(row@), sizes(w@)),
{
    let mut out: Vec<Vec<Vec<char>>> = Vec::new();
    let mut c: usize = 0;
    while c < w.len()
        invariant
            c == out.len() <= w.len(),
            row@.len() == w@.len(),
            forall|k: int|
                0 <= k < c ==> chars_views(#[trigger] out@[k]@) == wrapped(
                    row@[k]@,
                    w@[k] as nat,
                    true,
                ),
        decreases w.len() - c,
    {
        out.push(wrap(&row[c], w[c], true));
        c += 1;
    }
    assert(rows_view(out@) =~= wrapped_row(chars_views(row@), sizes(w@)));
    out
}

fn height_of(row: &Vec<Vec<Vec<char>>>) -> (h: usize)
    ensures
        h == height(rows_view(row@)),
{
    let ghost all = rows_view(row@);
    if row.len() == 0 {
        return 1;
    }
    let mut h: usize = 0;
    let mut c: usize = 0;
    assert(all.take(0) =~= Seq::empty());
    while c < row.len()
        invariant
            c <= row.len(),
            all == rows_view(row@),
            h == tallest(all.take(c as int)),
        decreases row.len() - c,
    {
        proof {
            assert(all.take(c + 1).drop_last() =~= all.take(c as int));
            assert(all.take(c + 1).last() == chars_views(row@[c as int]@));
        }
        if row[c].len() > h {
            h = row[c].len();
        }
        c += 1;
    }
    assert(all.take(c as int) =~= all);
    h
}

fn add_line(
    out: &mut Vec<char>,
    row: &Vec<Vec<Vec<char>>>,
    l: usize,
    w: &Vec<usize>,
    aligns: &Vec<Align>,
    header: bool,
)
    requires
        row@.len() == w@.len() == aligns@.len(),
    ensures
        final(out)@ == old(out)@ + line_text(
            rows_view(row@),
            l as int,
            sizes(w@),
            aligns@,
            header,
            w@.len(),
        ),
{
    let ghost start = out@;
    let ghost all = rows_view(row@);
    add_text(out, "\x1b[2m│\x1b[0m");
    let mut c: usize = 0;
    while c < w.len()
        invariant
            c <= w.len(),
            row@.len() == w@.len() == aligns@.len(),
            all == rows_view(row@),
            out@ == start + line_text(all, l as int, sizes(w@), aligns@, header, c as nat),
        decreases w.len() - c,
    {
        let ghost before = out@;
        assert(all[c as int] == chars_views(row@[c as int]@));
        if l < row[c].len() {
            assert(all[c as int][l as int] == row@[c as int]@[l as int]@);
            add_cell(out, &row[c][l], w[c], aligns[c], header);
        } else {
            let none: Vec<char> = Vec::new();
            assert(none@ =~= Seq::empty());
            add_cell(out, &none, w[c], aligns[c], header);
        }
        assert(out@ =~= start + line_text(all, l as int, sizes(w@), aligns@, header, (c + 1) as nat));
        c += 1;
    }
}

fn add_row(
    out: &mut Vec<char>,
    row: &Vec<Vec<Vec<char>>>,
    w: &Vec<usize>,
    aligns: &Vec<Align>,
    header: bool,
)
    requires
        row@.len() == w@.len() == aligns@.len(),
    ensures
        final(out)@ == old(out)@ + row_text(
            rows_view(row@),
            sizes(w@),
            aligns@,
            header,
            height(rows_view(row@)),
        ),
{
    let ghost start = out@;
    let ghost all = rows_view(row@);
    let h = height_of(row);
    let mut l: usize = 0;
    assert(out@ =~= start + row_text(all, sizes(w@), aligns@, header, 0));
    while l < h
        invariant
            l <= h,
            row@.len() == w@.len() == aligns@.len(),
            all == rows_view(row@),
            out@ == start + row_text(all, sizes(w@), aligns@, header, l as nat),
        decreases h - l,
    {
        add_line(out, row, l, w, aligns, header);
        add_text(out, "\n");
        assert(out@ =~= start + row_text(all, sizes(w@), aligns@, header, (l + 1) as nat));
        l += 1;
    }
}

fn add_plain_row(out: &mut Vec<char>, row: &Vec<Vec<char>>)
    ensures
        final(out)@ == old(out)@ + plain_row(chars_views(row@)),
{
    let ghost start = out@;
    let ghost all = chars_views(row@);
    let ghost sep = " \x1b[2m│\x1b[0m "@;
    let mut c: usize = 0;
    assert(all.take(0) =~= Seq::empty());
    assert(out@ =~= start + crate::text::join(all.take(0), sep));
    while c < row.len()
        invariant
            c <= row.len(),
            all == chars_views(row@),
            sep == " \x1b[2m│\x1b[0m "@,
            out@ == start + crate::text::join(all.take(c as int), sep),
        decreases row.len() - c,
    {
        proof {
            assert(all.take(c + 1).drop_last() =~= all.take(c as int));
            assert(all.take(c + 1).last() == row@[c as int]@);
        }
        if c > 0 {
            add_text(out, " \x1b[2m│\x1b[0m ");
        }
        add_chars(out, &row[c]);
        assert(out@ =~= start + crate::text::join(all.take(c + 1), sep));
        c += 1;
    }
    assert(all.take(c as int) =~= all);
    add_text(out, "\n");
    assert(out@ =~= start + plain_row(all));
}

/// Draw a table within `width`: columns start at their natural widths and
/// the widest give way, a column at a time, until the borders fit; cells
/// wrap inside their column. `rows[0]` is the header.
pub fn table(out: &mut Vec<char>, rows: &Vec<Vec<Vec<char>>>, aligns: &Vec<Align>, width: usize)
    ensures
        final(out)@ == old(out)@ + table_text(rows_view(rows@), aligns@, width as nat),
{
    let ghost start = out@;
    let n = aligns.len();
    let shown = style_cells(rows, n);
    let ghost all = styled_rows(rows_view(rows@), n as nat);
    assert forall|i: int| 0 <= i < shown@.len() implies (#[trigger] shown@[i])@.len() == n by {
        assert(rows_view(shown@).len() == all.len());
        assert(all[i].len() == n);
        assert(rows_view(shown@)[i] == chars_views(shown@[i]@));
    }
    let borders: u128 = 3 * (n as u128) + 1;
    let needed: u128 = borders + 3 * (n as u128);
    let drawn = n == 0 || (width as u128) >= needed;
    assert(drawn == !(room(width as nat, n as nat) < 3 * n));
    let mut r: usize = 0;
    if !drawn {
        // Too many columns to draw; show the cells, skip the box.
        assert(out@ =~= start + plain_rows(all, 0));
        while r < shown.len()
            invariant
                r <= shown.len(),
                rows_view(shown@) == all,
                out@ == start + plain_rows(all, r as nat),
            decreases shown.len() - r,
        {
            assert(all[r as int] == chars_views(shown@[r as int]@));
            add_plain_row(out, &shown[r]);
            assert(out@ =~= start + plain_rows(all, (r + 1) as nat));
            r += 1;
        }
        return;
    }
    let w = fit(&shown, n, width);
    proof {
        lemma_shrunk(
            Seq::new(n as nat, |c: int| natural_width(all, c)),
            room(width as nat, n as nat),
        );
        assert(sizes(w@).len() == n);
        assert(w@.len() == n);
        assert(total(sizes(w@)) <= room(width as nat, n as nat));
    }
    let ghost wn = sizes(w@);
    if n == 0 {
        assert(w@ =~= Seq::empty());
        assert(sizes(w@) =~= Seq::empty());
    }
    add_border(out, &w, "┌", "┬", "┐");
    let ghost top = out@;
    assert(out@ =~= top + body_text(all, wn, aligns@, 0));
    while r < shown.len()
        invariant
            r <= shown.len(),
            n == aligns@.len() == w@.len(),
            wn == sizes(w@),
            total(wn) <= usize::MAX - 2,
            rows_view(shown@) == all,
            forall|i: int| 0 <= i < shown@.len() ==> (#[trigger] shown@[i])@.len() == n,
            out@ == top + body_text(all, wn, aligns@, r as nat),
        decreases shown.len() - r,
    {
        let ghost before = out@;
        assert(all[r as int] == chars_views(shown@[r as int]@));
        let row = wrap_row(&shown[r], &w);
        assert(rows_view(row@).len() == n);
        if r == 1 {
            add_border(out, &w, "├", "┼", "┤");
        } else {
            add_text(out, "");
        }
        add_row(out, &row, &w, aligns, r == 0);
        assert(out@ =~= top + body_text(all, wn, aligns@, (r + 1) as nat));
        r += 1;
    }
    add_border(out, &w, "└", "┴", "┘");
    assert(out@ =~= start + table_text(rows_view(rows@), aligns@, width as nat));
}

// --- What rows and cells are ---

/// Whether a text holds nothing that could end a cell or keep it from
/// ending.
pub open spec fn cell_plain(s: Seq<char>) -> bool {
    forall|i: int| 0 <= i < s.len() ==> #[trigger] s[i] != '|' && s[i] != '\\' && s[i] != '`'
}

proof fn lemma_cell_goes_on(
    done: Seq<Seq<char>>,
    cur: Seq<char>,
    t: Seq<char>,
    rest: Seq<char>,
)
    requires
        cell_plain(t),
    ensures
        cut_cells(done, cur, t + rest, false) == cut_cells(done, cur + t, rest, false),
    decreases t.len(),
{
    let s = t + rest;
    if t.len() == 0 {
        assert(s =~= rest);
        assert(cur + t =~= cur);
    } else {
        assert(s[0] == t[0]);
        assert(s.skip(1) =~= t.skip(1) + rest);
        lemma_cell_goes_on(done, cur.push(t[0]), t.skip(1), rest);
        assert(cur.push(t[0]) + t.skip(1) =~= cur + t);
    }
}

/// A bar ends a cell and starts the next: what stands before it is the cell,
/// whole, and the rest of the row is read after it.
pub proof fn lemma_bars_cut_cells(done: Seq<Seq<char>>, t: Seq<char>, rest: Seq<char>)
    requires
        cell_plain(t),
    ensures
        cut_cells(done, Seq::empty(), t + seq!['|'] + rest, false) == cut_cells(
            done.push(t),
            Seq::empty(),
            rest,
            false,
        ),
        cut_cells(done, Seq::empty(), t, false) == done.push(t),
{
    let e = Seq::<char>::empty();
    lemma_cell_goes_on(done, e, t, seq!['|'] + rest);
    assert(t + (seq!['|'] + rest) =~= t + seq!['|'] + rest);
    assert(e + t =~= t);
    let s = seq!['|'] + rest;
    assert(s[0] == '|');
    assert(s.skip(1) =~= rest);
    lemma_cell_goes_on(done, e, t, e);
    assert(t + e =~= t);
}

/// A bar behind a backslash is a bar of the cell's text, and so is one
/// between backticks.
pub proof fn lemma_bars_in_cells(
    done: Seq<Seq<char>>,
    cur: Seq<char>,
    t: Seq<char>,
    rest: Seq<char>,
)
    requires
        forall|i: int| 0 <= i < t.len() ==> #[trigger] t[i] != '`' && t[i] != '\\',
    ensures
        cut_cells(done, cur, seq!['\\', '|'] + rest, false) == cut_cells(
            done,
            cur.push('|'),
            rest,
            false,
        ),
        cut_cells(done, cur, seq!['`'] + t + seq!['`'] + rest, false) == cut_cells(
            done,
            cur + seq!['`'] + t + seq!['`'],
            rest,
            false,
        ),
{
    let s = seq!['\\', '|'] + rest;
    assert(s[0] == '\\' && s[1] == '|');
    assert(s.skip(2) =~= rest);
    let u = seq!['`'] + t + seq!['`'] + rest;
    assert(u[0] == '`');
    assert(u.skip(1) =~= t + seq!['`'] + rest);
    lemma_code_in_cell(done, cur.push('`'), t, rest);
    assert(cur.push('`') + t + seq!['`'] =~= cur + seq!['`'] + t + seq!['`']);
}

proof fn lemma_code_in_cell(
    done: Seq<Seq<char>>,
    cur: Seq<char>,
    t: Seq<char>,
    rest: Seq<char>,
)
    requires
        forall|i: int| 0 <= i < t.len() ==> #[trigger] t[i] != '`' && t[i] != '\\',
    ensures
        cut_cells(done, cur, t + seq!['`'] + rest, true) == cut_cells(
            done,
            cur + t + seq!['`'],
            rest,
            false,
        ),
    decreases t.len(),
{
    let s = t + seq!['`'] + rest;
    if t.len() == 0 {
        assert(s[0] == '`');
        assert(s.skip(1) =~= rest);
        assert(cur.push('`') =~= cur + t + seq!['`']);
    } else {
        assert(s[0] == t[0]);
        assert(s.skip(1) =~= t.skip(1) + seq!['`'] + rest);
        lemma_code_in_cell(done, cur.push(t[0]), t.skip(1), rest);
        assert(cur.push(t[0]) + t.skip(1) + seq!['`'] =~= cur + t + seq!['`']);
    }
}

proof fn lemma_dashes_kept(d: Seq<char>)
    requires
        dashes(d),
    ensures
        strip_start(d, ':') == d,
        strip_end(d, ':') == d,
        strip_start(seq![':'] + d, ':') == d,
        strip_end(d + seq![':'], ':') == d,
{
    assert(d[0] == '-');
    assert(d[d.len() - 1] == '-');
    let a = seq![':'] + d;
    assert(a[0] == ':');
    assert(a.skip(1) =~= d);
    let b = d + seq![':'];
    assert(b.last() == ':');
    assert(b.drop_last() =~= d);
}

/// Dashes stand for a column to the left, with a colon behind them to the
/// right, and with colons on both sides for a centered one.
pub proof fn lemma_alignments(d: Seq<char>)
    requires
        dashes(d),
    ensures
        align_of(d) == Some(Align::Left),
        align_of(seq![':'] + d) == Some(Align::Left),
        align_of(d + seq![':']) == Some(Align::Right),
        align_of(seq![':'] + d + seq![':']) == Some(Align::Center),
{
    lemma_dashes_kept(d);
    let a = seq![':'] + d;
    assert(a.last() == d.last() && d.last() == '-') by {
        assert(d[d.len() - 1] == '-');
    }
    let b = d + seq![':'];
    assert(b[0] == '-');
    assert(strip_start(b, ':') == b);
    let c = seq![':'] + d + seq![':'];
    assert(c[0] == ':');
    assert(c.skip(1) =~= d + seq![':']);
    assert(strip_start(c, ':') == strip_start(b, ':'));
}

/// A cell's text stands at the left of its column, at the right, or in the
/// middle, as the column is aligned; whatever room is left is blank. A
/// header's text is bold.
pub proof fn lemma_cell_placement(text: Seq<char>, w: nat, header: bool)
    requires
        visible(text) <= w,
    ensures
        ({
            let room = (w - visible(text)) as nat;
            let shown = (if header {
                "\x1b[1m"@
            } else {
                ""@
            }) + text + reset();
            let edge = " \x1b[2m│\x1b[0m"@;
            &&& cell_text(text, w, Align::Left, header) == " "@ + shown + repeated(' ', room) + edge
            &&& cell_text(text, w, Align::Right, header) == " "@ + repeated(' ', room) + shown
                + edge
            &&& cell_text(text, w, Align::Center, header) == " "@ + repeated(' ', room / 2) + shown
                + repeated(' ', (room - room / 2) as nat) + edge
        }),
{
    let room = (w - visible(text)) as nat;
    let bold = if header {
        "\x1b[1m"@
    } else {
        ""@
    };
    let shown = bold + text + reset();
    let edge = " \x1b[2m│\x1b[0m"@;
    assert(gap(text, w) == room);
    assert(repeated(' ', 0) =~= Seq::empty());
    assert(cell_text(text, w, Align::Left, header) =~= " "@ + shown + repeated(' ', room) + edge);
    assert(cell_text(text, w, Align::Right, header) =~= " "@ + repeated(' ', room) + shown + edge);
    assert(cell_text(text, w, Align::Center, header) =~= " "@ + repeated(' ', room / 2) + shown
        + repeated(' ', (room - room / 2) as nat) + edge);
}

/// A column is as wide as its widest cell and no wider, but one column at
/// least.
pub proof fn lemma_natural_width(rows: Seq<Seq<Seq<char>>>, c: int)
    ensures
        natural_width(rows, c) >= 1,
        forall|i: int| 0 <= i < rows.len() ==> visible((#[trigger] rows[i])[c]) <= natural_width(
            rows,
            c,
        ),
        natural_width(rows, c) > 1 ==> exists|i: int|
            0 <= i < rows.len() && visible((#[trigger] rows[i])[c]) == natural_width(rows, c),
    decreases rows.len(),
{
    if rows.len() > 0 {
        let head = rows.drop_last();
        lemma_natural_width(head, c);
        assert forall|i: int| 0 <= i < rows.len() implies visible((#[trigger] rows[i])[c])
            <= natural_width(rows, c) by {
            if i < head.len() {
                assert(head[i] == rows[i]);
            }
        }
        if natural_width(rows, c) > 1 {
            if visible(rows.last()[c]) == natural_width(rows, c) {
                assert(rows[rows.len() - 1] == rows.last());
            } else {
                let i = choose|i: int|
                    0 <= i < head.len() && visible((#[trigger] head[i])[c]) == natural_width(
                        head,
                        c,
                    );
                assert(rows[i] == head[i]);
            }
        }
    }
}

/// Columns that fit are left as wide as they are.
pub proof fn lemma_fitting_columns_stay(w: Seq<nat>, room: nat)
    requires
        total(w) <= room,
    ensures
        shrunk(w, room) == w,
{
}

} // verus!
