//! What a frame of the terminal draws: the runs of background, selection and
//! text in each row, and the cursor. The application measures the cells and
//! paints.
use vstd::prelude::*;

use crate::config::schema::FontWeightName;
use crate::config::theme::Theme;
use crate::terminal::colors::{
    blend, blended, resolve, resolved, shade, shade_of, whole, CellColor, NamedColor, Shade,
    DIM_PERCENT, FINE,
};
use crate::text::{add_chars, trim_end, trim_end_chars};

verus! {

/// How a cell looks, besides its colours.
#[derive(Debug, Clone, Copy, PartialEq, Eq, Structural, Default)]
pub struct CellFlags {
    pub wide: bool,
    /// The second half of a wide character.
    pub spacer: bool,
    pub inverse: bool,
    pub bold: bool,
    pub italic: bool,
    pub dim: bool,
    pub hidden: bool,
    pub underline: bool,
    pub double_underline: bool,
    pub undercurl: bool,
    pub strikeout: bool,
}

/// One cell copied out of the grid while the term lock is held.
#[derive(Debug)]
pub struct CellSnap {
    pub c: char,
    /// Combining characters, if there are any.
    pub zerowidth: Option<Vec<char>>,
    pub fg: CellColor,
    pub bg: CellColor,
    pub flags: CellFlags,
}

/// A place in the grid: its line, and its column.
#[derive(Debug, Clone, Copy, PartialEq, Eq, Structural)]
pub struct GridPoint {
    pub line: i32,
    pub column: usize,
}

/// A selection, both of its ends included.
#[derive(Debug, Clone, Copy, PartialEq, Eq, Structural)]
pub struct SelectionRange {
    pub start: GridPoint,
    pub end: GridPoint,
    pub is_block: bool,
}

/// Whether a selection holds the cell in column `column` of line `line`.
pub open spec fn selects(range: SelectionRange, line: int, column: int) -> bool {
    if range.is_block {
        range.start.line <= line <= range.end.line && range.start.column <= column
            <= range.end.column
    } else {
        (line > range.start.line || (line == range.start.line && column >= range.start.column))
            && (line < range.end.line || (line == range.end.line && column <= range.end.column))
    }
}

/// Whether a selection holds a cell.
pub fn selection_contains(range: &SelectionRange, point: GridPoint) -> (r: bool)
    ensures
        r == selects(*range, point.line as int, point.column as int),
{
    if range.is_block {
        point.line >= range.start.line && point.line <= range.end.line && point.column
            >= range.start.column && point.column <= range.end.column
    } else {
        (point.line > range.start.line || (point.line == range.start.line && point.column
            >= range.start.column)) && (point.line < range.end.line || (point.line
            == range.end.line && point.column <= range.end.column))
    }
}

/// The screen row of a grid line, where it is on the screen.
pub fn screen_row(line: i32, display_offset: usize, screen_lines: usize) -> (r: Option<usize>)
    ensures
        match r {
            None => !(0 <= line + display_offset < screen_lines),
            Some(row) => row == line + display_offset && row < screen_lines,
        },
{
    let row: i128 = line as i128 + display_offset as i128;
    if row < 0 || row >= screen_lines as i128 {
        None
    } else {
        Some(row as usize)
    }
}

/// The columns that a cell takes up: the second half of a wide character
/// none, since its first half takes two.
pub open spec fn cell_columns(f: CellFlags) -> nat {
    if f.spacer {
        0
    } else if f.wide {
        2
    } else {
        1
    }
}

/// The columns that some cells take up.
pub open spec fn row_columns(row: Seq<CellSnap>) -> nat
    decreases row.len(),
{
    if row.len() == 0 {
        0
    } else {
        row_columns(row.drop_last()) + cell_columns(row.last().flags)
    }
}

/// A colour as far as two cells can be told apart by it.
pub open spec fn color_key(s: Shade) -> (int, int, int, int) {
    (s.r as int / FINE as int, s.g as int / FINE as int, s.b as int / FINE as int, s.a as int)
}

fn same_key(a: Shade, b: Shade) -> (r: bool)
    ensures
        r == (color_key(a) == color_key(b)),
{
    a.r / FINE == b.r / FINE && a.g / FINE == b.g / FINE && a.b / FINE == b.b / FINE && a.a == b.a
}

/// What stands behind a cell's text.
pub open spec fn cell_background(cell: CellSnap, theme: Theme) -> Shade {
    if cell.flags.inverse {
        resolved(cell.fg, theme)
    } else {
        resolved(cell.bg, theme)
    }
}

/// A run of columns in one colour.
#[derive(Debug, Clone, Copy, PartialEq, Eq, Structural)]
pub struct Span {
    pub start: usize,
    /// Exclusive.
    pub end: usize,
    pub color: Shade,
}

/// A run of columns.
pub ghost struct SpanRow {
    pub start: int,
    pub end: int,
    pub color: Shade,
}

impl View for Span {
    type V = SpanRow;

    open spec fn view(&self) -> SpanRow {
        SpanRow { start: self.start as int, end: self.end as int, color: self.color }
    }
}

pub open spec fn span_rows(v: Seq<Span>) -> Seq<SpanRow> {
    v.map_values(|s: Span| s@)
}

/// Runs with one more coloured stretch, joined to the last run if it goes on
/// there in the same colour.
pub open spec fn with_stretch(v: Seq<SpanRow>, start: int, end: int, color: Shade) -> Seq<SpanRow> {
    if v.len() > 0 && v.last().end == start && color_key(v.last().color) == color_key(color) {
        v.drop_last().push(SpanRow { end, ..v.last() })
    } else {
        v.push(SpanRow { start, end, color })
    }
}

/// The runs of background in a row, where it is not the theme's own.
pub open spec fn background_spans(row: Seq<CellSnap>, theme: Theme) -> Seq<SpanRow>
    decreases row.len(),
{
    if row.len() == 0 {
        Seq::empty()
    } else {
        let before = background_spans(row.drop_last(), theme);
        let cell = row.last();
        let col = row_columns(row.drop_last()) as int;
        let bg = cell_background(cell, theme);
        if cell.flags.spacer || color_key(bg) == color_key(shade_of(theme.background)) {
            before
        } else {
            with_stretch(before, col, col + cell_columns(cell.flags), bg)
        }
    }
}

/// Whether the cell at a column of a grid line is selected.
pub open spec fn is_selected(selection: Option<SelectionRange>, line: int, col: int) -> bool {
    selection matches Some(r) && selects(r, line, col)
}

/// The runs of selected cells in a row that shows grid line `line`.
pub open spec fn selection_spans(
    row: Seq<CellSnap>,
    selection: Option<SelectionRange>,
    line: int,
    color: Shade,
) -> Seq<SpanRow>
    decreases row.len(),
{
    if row.len() == 0 {
        Seq::empty()
    } else {
        let before = selection_spans(row.drop_last(), selection, line, color);
        let cell = row.last();
        let col = row_columns(row.drop_last()) as int;
        if cell.flags.spacer || !is_selected(selection, line, col) {
            before
        } else {
            with_stretch(before, col, col + cell_columns(cell.flags), color)
        }
    }
}

fn add_stretch(v: &mut Vec<Span>, start: usize, end: usize, color: Shade)
    ensures
        span_rows(final(v)@) == with_stretch(
            span_rows(old(v)@),
            start as int,
            end as int,
            color,
        ),
{
    let ghost before = span_rows(v@);
    if v.len() > 0 {
        let last = v[v.len() - 1];
        assert(before.last() == last@);
        if last.end == start && same_key(last.color, color) {
            let n = v.len() - 1;
            v.set(n, Span { start: last.start, end, color: last.color });
            assert(span_rows(v@) =~= with_stretch(before, start as int, end as int, color));
            return;
        }
    }
    v.push(Span { start, end, color });
    assert(span_rows(v@) =~= with_stretch(before, start as int, end as int, color));
}

/// The runs that a row is painted with, behind its text.
#[derive(Debug)]
pub struct RowSpans {
    pub background: Vec<Span>,
    pub selection: Vec<Span>,
}

/// Background + selection runs, coalescing adjacent same-color cells. The
/// row shows grid line `line`.
pub fn layout_row(row: &Vec<CellSnap>, theme: &Theme, selection: Option<SelectionRange>, line: i32) -> (r:
    RowSpans)
    requires
        whole(*theme),
        row@.len() <= usize::MAX / 2,
    ensures
        span_rows(r.background@) == background_spans(row@, *theme),
        span_rows(r.selection@) == selection_spans(
            row@,
            selection,
            line as int,
            shade_of(theme.selection_bg),
        ),
{
    let mut background: Vec<Span> = Vec::new();
    let mut selected: Vec<Span> = Vec::new();
    let default_bg = shade(theme.background);
    let selection_bg = shade(theme.selection_bg);
    let mut col: usize = 0;
    let mut i: usize = 0;
    proof {
        assert(row@.take(0) =~= Seq::empty());
        assert(span_rows(background@) =~= Seq::empty());
        assert(span_rows(selected@) =~= Seq::empty());
    }
    while i < row.len()
        invariant
            i <= row.len(),
            whole(*theme),
            row@.len() <= usize::MAX / 2,
            default_bg == shade_of(theme.background),
            selection_bg == shade_of(theme.selection_bg),
            col == row_columns(row@.take(i as int)),
            col <= 2 * i,
            span_rows(background@) == background_spans(row@.take(i as int), *theme),
            span_rows(selected@) == selection_spans(
                row@.take(i as int),
                selection,
                line as int,
                selection_bg,
            ),
        decreases row.len() - i,
    {
        let cell = &row[i];
        proof {
            assert(row@.take(i + 1).drop_last() =~= row@.take(i as int));
            assert(row@.take(i + 1).last() == row@[i as int]);
        }
        if !cell.flags.spacer {
            let width: usize = if cell.flags.wide {
                2
            } else {
                1
            };
            let bg = if cell.flags.inverse {
                resolve(cell.fg, theme)
            } else {
                resolve(cell.bg, theme)
            };
            if !same_key(bg, default_bg) {
                add_stretch(&mut background, col, col + width, bg);
            }
            let here = match selection {
                None => false,
                Some(range) => selection_contains(&range, GridPoint { line, column: col }),
            };
            if here {
                add_stretch(&mut selected, col, col + width, selection_bg);
            }
            col += width;
        }
        i += 1;
    }
    assert(row@.take(i as int) =~= row@);
    RowSpans { background, selection: selected }
}

/// Whether runs come in order, none of them empty or beyond column `end`.
pub open spec fn in_order(v: Seq<SpanRow>, end: int) -> bool {
    &&& forall|i: int| 0 <= i < v.len() ==> 0 <= (#[trigger] v[i]).start < v[i].end <= end
    &&& forall|i: int, j: int|
        0 <= i < j < v.len() ==> (#[trigger] v[i]).end <= (#[trigger] v[j]).start
}

proof fn lemma_stretch_in_order(v: Seq<SpanRow>, start: int, end: int, color: Shade)
    requires
        in_order(v, start),
        0 <= start < end,
    ensures
        in_order(with_stretch(v, start, end, color), end),
{
    let w = with_stretch(v, start, end, color);
    assert forall|i: int| 0 <= i < w.len() implies 0 <= (#[trigger] w[i]).start < w[i].end <= end by {
        if i < v.len() {
            assert(0 <= v[i].start < v[i].end <= start);
        }
    }
    assert forall|i: int, j: int| 0 <= i < j < w.len() implies (#[trigger] w[i]).end <= (
    #[trigger] w[j]).start by {
        assert(0 <= v[i].start < v[i].end <= start);
        if j < v.len() {
            assert(v[i].end <= v[j].start);
        }
    }
}

/// The runs of background lie side by side from left to right, each in a
/// colour of its own, within the row.
pub proof fn lemma_background_in_order(row: Seq<CellSnap>, theme: Theme)
    ensures
        in_order(background_spans(row, theme), row_columns(row) as int),
    decreases row.len(),
{
    if row.len() > 0 {
        lemma_background_in_order(row.drop_last(), theme);
        let before = background_spans(row.drop_last(), theme);
        let col = row_columns(row.drop_last()) as int;
        let end = row_columns(row) as int;
        assert forall|i: int| 0 <= i < before.len() implies 0 <= (#[trigger] before[i]).start
            < before[i].end <= end by {
            assert(before[i].end <= col);
        }
        if !row.last().flags.spacer {
            lemma_stretch_in_order(before, col, end, cell_background(row.last(), theme));
        }
    }
}

/// The runs of selected cells lie side by side from left to right within the
/// row.
pub proof fn lemma_selection_in_order(
    row: Seq<CellSnap>,
    selection: Option<SelectionRange>,
    line: int,
    color: Shade,
)
    ensures
        in_order(selection_spans(row, selection, line, color), row_columns(row) as int),
    decreases row.len(),
{
    if row.len() > 0 {
        lemma_selection_in_order(row.drop_last(), selection, line, color);
        let before = selection_spans(row.drop_last(), selection, line, color);
        let col = row_columns(row.drop_last()) as int;
        let end = row_columns(row) as int;
        assert forall|i: int| 0 <= i < before.len() implies 0 <= (#[trigger] before[i]).start
            < before[i].end <= end by {
            assert(before[i].end <= col);
        }
        if !row.last().flags.spacer {
            lemma_stretch_in_order(before, col, end, color);
        }
    }
}

/// Whether a run of `v` covers column `x`.
pub open spec fn covers(v: Seq<SpanRow>, x: int) -> bool {
    exists|i: int| 0 <= i < v.len() && (#[trigger] v[i]).start <= x < v[i].end
}

/// Whether the cell over column `x` is one that `f` picks.
pub open spec fn picked_at(row: Seq<CellSnap>, x: int, f: spec_fn(CellSnap, int) -> bool) -> bool
    decreases row.len(),
{
    if row.len() == 0 {
        false
    } else {
        let col = row_columns(row.drop_last()) as int;
        if !row.last().flags.spacer && col <= x < col + cell_columns(row.last().flags) {
            f(row.last(), col)
        } else {
            picked_at(row.drop_last(), x, f)
        }
    }
}

proof fn lemma_stretch_covers(v: Seq<SpanRow>, start: int, end: int, color: Shade, x: int)
    requires
        start < end,
        in_order(v, start),
    ensures
        covers(with_stretch(v, start, end, color), x) == (covers(v, x) || start <= x < end),
{
    let w = with_stretch(v, start, end, color);
    let joined = v.len() > 0 && v.last().end == start && color_key(v.last().color) == color_key(
        color,
    );
    if covers(w, x) {
        let i = choose|i: int| 0 <= i < w.len() && (#[trigger] w[i]).start <= x < w[i].end;
        if i < v.len() {
            assert(v[i].start == w[i].start);
        }
    }
    if covers(v, x) {
        let i = choose|i: int| 0 <= i < v.len() && (#[trigger] v[i]).start <= x < v[i].end;
        assert(w[i].start <= x < w[i].end);
    }
    if start <= x < end {
        let i = w.len() - 1;
        if joined {
            assert(v[i].start < v[i].end);
        }
        assert(w[i].start <= x < w[i].end);
    }
}

proof fn lemma_picked_within(row: Seq<CellSnap>, x: int, f: spec_fn(CellSnap, int) -> bool)
    ensures
        picked_at(row, x, f) ==> 0 <= x < row_columns(row),
    decreases row.len(),
{
    if row.len() > 0 {
        lemma_picked_within(row.drop_last(), x, f);
    }
}

/// A column is painted exactly where the cell over it is not in the theme's
/// own background.
pub proof fn lemma_background_covers(row: Seq<CellSnap>, theme: Theme, x: int)
    ensures
        covers(background_spans(row, theme), x) == picked_at(
            row,
            x,
            |c: CellSnap, col: int|
                color_key(cell_background(c, theme)) != color_key(shade_of(theme.background)),
        ),
    decreases row.len(),
{
    let f = |c: CellSnap, col: int|
        color_key(cell_background(c, theme)) != color_key(shade_of(theme.background));
    if row.len() > 0 {
        let front = row.drop_last();
        lemma_background_covers(front, theme, x);
        lemma_background_in_order(front, theme);
        lemma_picked_within(front, x, f);
        let col = row_columns(front) as int;
        let end = row_columns(row) as int;
        if !row.last().flags.spacer {
            lemma_stretch_covers(
                background_spans(front, theme),
                col,
                end,
                cell_background(row.last(), theme),
                x,
            );
        }
    }
}

/// A column is marked as selected exactly where the cell over it is.
pub proof fn lemma_selection_covers(
    row: Seq<CellSnap>,
    selection: Option<SelectionRange>,
    line: int,
    color: Shade,
    x: int,
)
    ensures
        covers(selection_spans(row, selection, line, color), x) == picked_at(
            row,
            x,
            |c: CellSnap, col: int| is_selected(selection, line, col),
        ),
    decreases row.len(),
{
    let f = |c: CellSnap, col: int| is_selected(selection, line, col);
    if row.len() > 0 {
        let front = row.drop_last();
        lemma_selection_covers(front, selection, line, color, x);
        lemma_selection_in_order(front, selection, line, color);
        lemma_picked_within(front, x, f);
        let col = row_columns(front) as int;
        let end = row_columns(row) as int;
        if !row.last().flags.spacer {
            lemma_stretch_covers(
                selection_spans(front, selection, line, color),
                col,
                end,
                color,
                x,
            );
        }
    }
}

/// Whether a cell shows nothing: a blank without a line through or below it.
pub open spec fn is_blank(cell: CellSnap) -> bool {
    let f = cell.flags;
    cell.c == ' ' && cell.zerowidth is None && !(f.inverse || f.underline || f.double_underline
        || f.undercurl || f.strikeout)
}

/// A row without the blanks at its end.
pub open spec fn trimmed_row(row: Seq<CellSnap>) -> Seq<CellSnap>
    decreases row.len(),
{
    if row.len() > 0 && is_blank(row.last()) {
        trimmed_row(row.drop_last())
    } else {
        row
    }
}

/// The place of a colour among the sixteen ANSI ones, if it is one of the
/// first eight.
pub open spec fn low_index(color: CellColor) -> Option<int> {
    match color {
        CellColor::Indexed(i) => if i <= 7 {
            Some(i as int)
        } else {
            None
        },
        CellColor::Named(NamedColor::Black) => Some(0),
        CellColor::Named(NamedColor::Red) => Some(1),
        CellColor::Named(NamedColor::Green) => Some(2),
        CellColor::Named(NamedColor::Yellow) => Some(3),
        CellColor::Named(NamedColor::Blue) => Some(4),
        CellColor::Named(NamedColor::Magenta) => Some(5),
        CellColor::Named(NamedColor::Cyan) => Some(6),
        CellColor::Named(NamedColor::White) => Some(7),
        _ => None,
    }
}

/// A cell's text colour before the flags change it: bold brightens the first
/// eight colours.
pub open spec fn bright_foreground(cell: CellSnap, theme: Theme) -> Shade {
    if cell.flags.bold && low_index(cell.fg) is Some {
        shade_of(theme.ansi@[low_index(cell.fg)->0 + 8])
    } else {
        resolved(cell.fg, theme)
    }
}

/// The colour of a cell's text.
pub open spec fn cell_foreground(cell: CellSnap, theme: Theme) -> Shade {
    let plain = bright_foreground(cell, theme);
    let bg = resolved(cell.bg, theme);
    let front = if cell.flags.inverse {
        bg
    } else {
        plain
    };
    let back = if cell.flags.inverse {
        plain
    } else {
        bg
    };
    let shown = if cell.flags.hidden {
        back
    } else {
        front
    };
    if cell.flags.dim {
        blended(shown, back, DIM_PERCENT as int)
    } else {
        shown
    }
}

/// How a run of text looks.
#[derive(Debug, Clone, Copy, PartialEq, Eq, Hash, Structural)]
pub struct RunStyle {
    pub color: Shade,
    pub weight: FontWeightName,
    pub italic: bool,
    /// Underlined, and whether by a wavy line.
    pub underline: Option<bool>,
    pub strikethrough: bool,
}

/// A run of text in one look.
#[derive(Debug, Hash)]
pub struct TextRun {
    pub text: Vec<char>,
    pub style: RunStyle,
}

/// A run of text as plain values.
pub ghost struct RunRow {
    pub text: Seq<char>,
    pub style: RunStyle,
}

impl View for TextRun {
    type V = RunRow;

    open spec fn view(&self) -> RunRow {
        RunRow { text: self.text@, style: self.style }
    }
}

pub open spec fn run_rows(v: Seq<TextRun>) -> Seq<RunRow> {
    v.map_values(|r: TextRun| r@)
}

/// The look of a cell's text, in a font whose plain weight is `base`.
pub open spec fn cell_style(cell: CellSnap, theme: Theme, base: FontWeightName) -> RunStyle {
    let f = cell.flags;
    RunStyle {
        color: cell_foreground(cell, theme),
        weight: if f.bold {
            FontWeightName::Bold
        } else {
            base
        },
        italic: f.italic,
        underline: if f.underline || f.double_underline || f.undercurl {
            Some(f.undercurl)
        } else {
            None
        },
        strikethrough: f.strikeout,
    }
}

/// Whether two looks can share a run.
pub open spec fn alike(a: RunStyle, b: RunStyle) -> bool {
    color_key(a.color) == color_key(b.color) && a.weight == b.weight && a.italic == b.italic && (
    a.underline is Some) == (b.underline is Some) && a.strikethrough == b.strikethrough
}

/// The text of a cell with its combining characters.
pub open spec fn cell_text(cell: CellSnap) -> Seq<char> {
    match cell.zerowidth {
        None => seq![cell.c],
        Some(z) => seq![cell.c] + z@,
    }
}

/// The runs of text in a row: consecutive cells that look alike share one.
pub open spec fn text_runs(row: Seq<CellSnap>, theme: Theme, base: FontWeightName) -> Seq<RunRow>
    decreases row.len(),
{
    if row.len() == 0 {
        Seq::empty()
    } else {
        let before = text_runs(row.drop_last(), theme, base);
        let cell = row.last();
        let style = cell_style(cell, theme, base);
        if cell.flags.spacer {
            before
        } else if before.len() > 0 && alike(before.last().style, style) {
            before.drop_last().push(
                RunRow { text: before.last().text + cell_text(cell), style: before.last().style },
            )
        } else {
            before.push(RunRow { text: cell_text(cell), style })
        }
    }
}

/// The text of some runs.
pub open spec fn runs_text(v: Seq<RunRow>) -> Seq<char>
    decreases v.len(),
{
    if v.len() == 0 {
        Seq::empty()
    } else {
        runs_text(v.drop_last()) + v.last().text
    }
}

/// The text of a row, cell by cell.
pub open spec fn row_text(row: Seq<CellSnap>) -> Seq<char>
    decreases row.len(),
{
    if row.len() == 0 {
        Seq::empty()
    } else if row.last().flags.spacer {
        row_text(row.drop_last())
    } else {
        row_text(row.drop_last()) + cell_text(row.last())
    }
}

/// No character is lost or added by sharing runs.
pub proof fn lemma_runs_keep_text(row: Seq<CellSnap>, theme: Theme, base: FontWeightName)
    ensures
        runs_text(text_runs(row, theme, base)) == row_text(row),
    decreases row.len(),
{
    if row.len() > 0 {
        let front = row.drop_last();
        lemma_runs_keep_text(front, theme, base);
        let before = text_runs(front, theme, base);
        let after = text_runs(row, theme, base);
        let cell = row.last();
        if !cell.flags.spacer {
            assert(after.drop_last() =~= if before.len() > 0 && alike(
                before.last().style,
                cell_style(cell, theme, base),
            ) {
                before.drop_last()
            } else {
                before
            });
            assert(runs_text(after) =~= row_text(row));
        }
    }
}

/// Whether some runs show a line through or below their text.
pub open spec fn lined(v: Seq<RunRow>) -> bool {
    exists|i: int|
        0 <= i < v.len() && ((#[trigger] v[i]).style.underline is Some || v[i].style.strikethrough)
}

/// Whether every cell of a row holds a blank.
pub open spec fn all_blank(row: Seq<CellSnap>) -> bool {
    forall|i: int| 0 <= i < row.len() ==> (#[trigger] row[i]).c == ' '
}

/// Whether there is anything in a row to shape. A row of plain spaces with
/// non-default colors still gets its background; there is no text to shape.
pub open spec fn has_text(row: Seq<CellSnap>, theme: Theme, base: FontWeightName) -> bool {
    let t = trimmed_row(row);
    let runs = text_runs(t, theme, base);
    t.len() > 0 && !(trim_end(runs_text(runs)).len() == 0 && !lined(runs) && all_blank(t))
}

fn low_color(color: CellColor) -> (r: Option<usize>)
    ensures
        match r {
            None => low_index(color) is None,
            Some(i) => low_index(color) == Some(i as int) && i < 8,
        },
{
    match color {
        CellColor::Indexed(i) => if i <= 7 {
            Some(i as usize)
        } else {
            None
        },
        CellColor::Named(NamedColor::Black) => Some(0),
        CellColor::Named(NamedColor::Red) => Some(1),
        CellColor::Named(NamedColor::Green) => Some(2),
        CellColor::Named(NamedColor::Yellow) => Some(3),
        CellColor::Named(NamedColor::Blue) => Some(4),
        CellColor::Named(NamedColor::Magenta) => Some(5),
        CellColor::Named(NamedColor::Cyan) => Some(6),
        CellColor::Named(NamedColor::White) => Some(7),
        _ => None,
    }
}

fn style_of(cell: &CellSnap, theme: &Theme, base: FontWeightName) -> (r: RunStyle)
    requires
        whole(*theme),
    ensures
        r == cell_style(*cell, *theme, base),
{
    let mut fg = resolve(cell.fg, theme);
    let mut bg = resolve(cell.bg, theme);
    // Brighten bold indexed colors 0-7 to 8-15.
    if cell.flags.bold {
        if let Some(i) = low_color(cell.fg) {
            fg = shade(theme.ansi[i + 8]);
        }
    }
    if cell.flags.inverse {
        let front = bg;
        bg = fg;
        fg = front;
    }
    if cell.flags.hidden {
        fg = bg;
    }
    if cell.flags.dim {
        fg = blend(fg, bg, DIM_PERCENT);
    }
    let f = &cell.flags;
    RunStyle {
        color: fg,
        weight: if f.bold {
            FontWeightName::Bold
        } else {
            base
        },
        italic: f.italic,
        underline: if f.underline || f.double_underline || f.undercurl {
            Some(f.undercurl)
        } else {
            None
        },
        strikethrough: f.strikeout,
    }
}

fn share(a: &RunStyle, b: &RunStyle) -> (r: bool)
    ensures
        r == alike(*a, *b),
{
    same_key(a.color, b.color) && a.weight == b.weight && a.italic == b.italic
        && a.underline.is_some() == b.underline.is_some() && a.strikethrough == b.strikethrough
}

fn chars_of_cell(cell: &CellSnap) -> (r: Vec<char>)
    ensures
        r@ == cell_text(*cell),
{
    let mut r: Vec<char> = Vec::new();
    r.push(cell.c);
    assert(r@ =~= seq![cell.c]);
    if let Some(z) = &cell.zerowidth {
        add_chars(&mut r, z);
    }
    r
}

/// The runs of text in a row and their whole text, or `None` where there is
/// nothing to shape. `base` is the weight of the plain font.
pub fn shape_row(row: &Vec<CellSnap>, theme: &Theme, base: FontWeightName) -> (r: Option<Vec<TextRun>>)
    requires
        whole(*theme),
    ensures
        match r {
            None => !has_text(row@, *theme, base),
            Some(v) => has_text(row@, *theme, base) && run_rows(v@) == text_runs(
                trimmed_row(row@),
                *theme,
                base,
            ),
        },
{
    // Trim trailing default-styled blanks so we don't shape padding.
    let mut n: usize = row.len();
    assert(row@.take(n as int) =~= row@);
    while n > 0 && row[n - 1].c == ' ' && row[n - 1].zerowidth.is_none() && !(row[n
        - 1].flags.inverse || row[n - 1].flags.underline || row[n - 1].flags.double_underline
        || row[n - 1].flags.undercurl || row[n - 1].flags.strikeout)
        invariant
            n <= row.len(),
            trimmed_row(row@) == trimmed_row(row@.take(n as int)),
        decreases n,
    {
        assert(row@.take(n as int).last() == row@[n - 1]);
        assert(row@.take(n as int).drop_last() =~= row@.take(n - 1));
        n -= 1;
    }
    let ghost kept = row@.take(n as int);
    proof {
        if n > 0 {
            assert(kept.last() == row@[n - 1]);
        }
        assert(trimmed_row(row@) == kept);
    }
    if n == 0 {
        return None;
    }
    let mut runs: Vec<TextRun> = Vec::new();
    let mut text: Vec<char> = Vec::new();
    let mut blank = true;
    let mut i: usize = 0;
    proof {
        assert(kept.take(0) =~= Seq::empty());
        assert(run_rows(runs@) =~= Seq::empty());
        assert(text@ =~= Seq::empty());
    }
    while i < n
        invariant
            i <= n <= row.len(),
            whole(*theme),
            kept == row@.take(n as int),
            run_rows(runs@) == text_runs(kept.take(i as int), *theme, base),
            text@ == row_text(kept.take(i as int)),
            blank == all_blank(kept.take(i as int)),
        decreases n - i,
    {
        let cell = &row[i];
        let ghost before = run_rows(runs@);
        proof {
            let t = kept.take(i + 1);
            assert(t.drop_last() =~= kept.take(i as int));
            assert(t.last() == row@[i as int]);
            assert(t[i as int] == row@[i as int]);
            assert forall|k: int| 0 <= k < i implies #[trigger] t[k] == kept.take(i as int)[k] by {}
            if all_blank(t) {
                assert forall|k: int| 0 <= k < i implies (#[trigger] kept.take(i as int)[k]).c
                    == ' ' by {
                    assert(t[k].c == ' ');
                }
            }
        }
        if cell.c != ' ' {
            blank = false;
        }
        if !cell.flags.spacer {
            let style = style_of(cell, theme, base);
            let chars = chars_of_cell(cell);
            add_chars(&mut text, &chars);
            let count = runs.len();
            proof {
                if count > 0 {
                    assert(before.last() == runs@[count - 1]@);
                }
            }
            if count > 0 && share(&runs[count - 1].style, &style) {
                let mut run = TextRun { text: Vec::new(), style };
                std::mem::swap(&mut run, &mut runs[count - 1]);
                add_chars(&mut run.text, &chars);
                runs.set(count - 1, run);
                assert(run_rows(runs@) =~= before.drop_last().push(
                    RunRow {
                        text: before.last().text + chars@,
                        style: before.last().style,
                    },
                ));
            } else {
                let ghost t = chars@;
                runs.push(TextRun { text: chars, style });
                assert(run_rows(runs@) =~= before.push(RunRow { text: t, style }));
            }
        }
        i += 1;
    }
    assert(kept.take(i as int) =~= kept);
    proof {
        lemma_runs_keep_text(kept, *theme, base);
    }
    if blank && trim_end_chars(&text).len() == 0 {
        let ghost all = run_rows(runs@);
        let mut k: usize = 0;
        while k < runs.len()
            invariant
                k <= runs.len(),
                all == run_rows(runs@),
                all == text_runs(kept, *theme, base),
                kept == trimmed_row(row@),
                n == kept.len(),
                n > 0,
                forall|j: int|
                    0 <= j < k ==> (#[trigger] all[j]).style.underline is None
                        && !all[j].style.strikethrough,
            decreases runs.len() - k,
        {
            assert(all[k as int] == runs@[k as int]@);
            if runs[k].style.underline.is_some() || runs[k].style.strikethrough {
                assert(lined(all));
                return Some(runs);
            }
            k += 1;
        }
        return None;
    }
    Some(runs)
}

/// The shapes of a cursor.
#[derive(Debug, Clone, Copy, PartialEq, Eq, Structural)]
pub enum CursorShape {
    Block,
    Underline,
    Beam,
    HollowBlock,
    Hidden,
}

/// The cursor as the terminal has it.
#[derive(Debug, Clone, Copy, PartialEq, Eq, Structural)]
pub struct CursorState {
    pub point: GridPoint,
    pub shape: CursorShape,
    /// Whether programs want it shown.
    pub shown: bool,
    pub blinking: bool,
}

/// The cursor as it is drawn.
#[derive(Debug)]
pub struct CursorLayout {
    pub row: usize,
    pub column: usize,
    pub wide: bool,
    pub shape: CursorShape,
    /// For block cursors: the text underneath, and whether it is bold and
    /// italic, to be drawn again in the background color.
    pub glyph: Option<(Vec<char>, bool, bool)>,
}

/// The cell over a column.
pub open spec fn cell_over(row: Seq<CellSnap>, col: int) -> Option<CellSnap>
    decreases row.len(),
{
    if row.len() == 0 {
        None
    } else {
        let start = row_columns(row.drop_last()) as int;
        match cell_over(row.drop_last(), col) {
            Some(c) => Some(c),
            None => if !row.last().flags.spacer && start <= col < start + cell_columns(
                row.last().flags,
            ) {
                Some(row.last())
            } else {
                None
            },
        }
    }
}

/// The shape a cursor is drawn in.
pub open spec fn drawn_shape(cursor: CursorState, focused: bool, blink_on: bool) -> CursorShape {
    if !focused {
        CursorShape::HollowBlock
    } else if cursor.blinking && cursor.shape == CursorShape::Block && !blink_on {
        CursorShape::Hidden
    } else {
        cursor.shape
    }
}

/// The text that is drawn again on a block cursor.
pub open spec fn glyph_under(cell: Option<CellSnap>, shape: CursorShape) -> Option<Seq<char>> {
    if cell is Some && shape == CursorShape::Block && (cell->0).c != ' ' {
        Some(cell_text(cell->0))
    } else {
        None
    }
}

fn find_cell(row: &Vec<CellSnap>, col: usize) -> (r: Option<usize>)
    requires
        row@.len() <= usize::MAX / 2,
    ensures
        match r {
            None => cell_over(row@, col as int) is None,
            Some(i) => i < row@.len() && cell_over(row@, col as int) == Some(row@[i as int]),
        },
{
    let mut start: usize = 0;
    let mut i: usize = 0;
    assert(row@.take(0) =~= Seq::empty());
    while i < row.len()
        invariant
            i <= row.len(),
            row@.len() <= usize::MAX / 2,
            start == row_columns(row@.take(i as int)),
            start <= 2 * i,
            cell_over(row@.take(i as int), col as int) is None,
        decreases row.len() - i,
    {
        proof {
            assert(row@.take(i + 1).drop_last() =~= row@.take(i as int));
            assert(row@.take(i + 1).last() == row@[i as int]);
        }
        let f = &row[i].flags;
        if !f.spacer {
            let width: usize = if f.wide {
                2
            } else {
                1
            };
            if col >= start && col < start + width {
                proof {
                    lemma_found_stays(row@, i + 1, col as int);
                }
                return Some(i);
            }
            start += width;
        }
        i += 1;
    }
    assert(row@.take(i as int) =~= row@);
    None
}

proof fn lemma_found_stays(row: Seq<CellSnap>, n: int, col: int)
    requires
        0 <= n <= row.len(),
        cell_over(row.take(n), col) is Some,
    ensures
        cell_over(row, col) == cell_over(row.take(n), col),
    decreases row.len(),
{
    if n == row.len() {
        assert(row.take(n) =~= row);
    } else {
        assert(row.drop_last().take(n) =~= row.take(n));
        lemma_found_stays(row.drop_last(), n, col);
    }
}

/// Where and how the cursor is drawn, or `None` where it is not: programs
/// hide it, it is scrolled off the screen, or the child has exited.
pub fn layout_cursor(
    cursor: &CursorState,
    rows: &Vec<Vec<CellSnap>>,
    display_offset: usize,
    focused: bool,
    blink_on: bool,
    exited: bool,
) -> (r: Option<CursorLayout>)
    requires
        forall|i: int| 0 <= i < rows@.len() ==> (#[trigger] rows@[i])@.len() <= usize::MAX / 2,
    ensures
        r is Some <==> cursor.shown && !exited && 0 <= cursor.point.line + display_offset
            < rows@.len(),
        r matches Some(l) ==> {
            let cell = cell_over(
                rows@[cursor.point.line + display_offset]@,
                cursor.point.column as int,
            );
            &&& l.row == cursor.point.line + display_offset
            &&& l.column == cursor.point.column
            &&& l.wide == (cell is Some && (cell->0).flags.wide)
            &&& l.shape == drawn_shape(*cursor, focused, blink_on)
            &&& match l.glyph {
                None => glyph_under(cell, l.shape) is None,
                Some((text, bold, italic)) => glyph_under(cell, l.shape) == Some(text@) && bold
                    == (cell->0).flags.bold && italic == (cell->0).flags.italic,
            }
        },
{
    if !cursor.shown || exited {
        return None;
    }
    match screen_row(cursor.point.line, display_offset, rows.len()) {
        None => None,
        Some(row) => {
            let shape = if !focused {
                CursorShape::HollowBlock
            } else if cursor.blinking && cursor.shape == CursorShape::Block && !blink_on {
                CursorShape::Hidden
            } else {
                cursor.shape
            };
            let mut wide = false;
            let mut glyph: Option<(Vec<char>, bool, bool)> = None;
            if let Some(i) = find_cell(&rows[row], cursor.point.column) {
                let cell = &rows[row][i];
                wide = cell.flags.wide;
                if shape == CursorShape::Block && cell.c != ' ' {
                    glyph = Some((chars_of_cell(cell), cell.flags.bold, cell.flags.italic));
                }
            }
            Some(CursorLayout { row, column: cursor.point.column, wide, shape, glyph })
        },
    }
}

// --- What is drawn ---

/// A selection that runs on holds its first line from its start, its last
/// line up to its end, and all lines between; a block holds a rectangle.
pub proof fn lemma_selections(a: GridPoint, b: GridPoint, line: int, column: int)
    requires
        a.line < b.line,
    ensures
        ({
            let run = SelectionRange { start: a, end: b, is_block: false };
            let block = SelectionRange { start: a, end: b, is_block: true };
            &&& selects(run, a.line as int, column) <==> column >= a.column
            &&& selects(run, b.line as int, column) <==> column <= b.column
            &&& a.line < line < b.line ==> selects(run, line, column)
            &&& line < a.line || line > b.line ==> !selects(run, line, column) && !selects(
                block,
                line,
                column,
            )
            &&& a.line <= line <= b.line ==> (selects(block, line, column) <==> a.column <= column
                <= b.column)
        }),
{
}

/// A selection within one line holds what lies between its ends.
pub proof fn lemma_selections_in_a_line(a: GridPoint, b: GridPoint, is_block: bool, column: int)
    requires
        a.line == b.line,
    ensures
        selects(SelectionRange { start: a, end: b, is_block }, a.line as int, column) <==> a.column
            <= column <= b.column,
{
}

/// Bold text in one of the eight colours is drawn in the bright one of the
/// same name.
pub proof fn lemma_bold_is_bright(cell: CellSnap, theme: Theme)
    requires
        cell.flags.bold,
    ensures
        cell.fg == CellColor::Named(NamedColor::Black) || cell.fg == CellColor::Indexed(0) ==> bright_foreground(cell, theme)
            == shade_of(theme.ansi@[8]),
        cell.fg == CellColor::Named(NamedColor::Red) || cell.fg == CellColor::Indexed(1) ==> bright_foreground(cell, theme)
            == shade_of(theme.ansi@[9]),
        cell.fg == CellColor::Named(NamedColor::Green) || cell.fg == CellColor::Indexed(2) ==> bright_foreground(cell, theme)
            == shade_of(theme.ansi@[10]),
        cell.fg == CellColor::Named(NamedColor::Yellow) || cell.fg == CellColor::Indexed(3) ==> bright_foreground(cell, theme)
            == shade_of(theme.ansi@[11]),
        cell.fg == CellColor::Named(NamedColor::Blue) || cell.fg == CellColor::Indexed(4) ==> bright_foreground(cell, theme)
            == shade_of(theme.ansi@[12]),
        cell.fg == CellColor::Named(NamedColor::Magenta) || cell.fg == CellColor::Indexed(5) ==> bright_foreground(cell, theme)
            == shade_of(theme.ansi@[13]),
        cell.fg == CellColor::Named(NamedColor::Cyan) || cell.fg == CellColor::Indexed(6) ==> bright_foreground(cell, theme)
            == shade_of(theme.ansi@[14]),
        cell.fg == CellColor::Named(NamedColor::White) || cell.fg == CellColor::Indexed(7) ==> bright_foreground(cell, theme)
            == shade_of(theme.ansi@[15]),
        cell.fg matches CellColor::Indexed(i) ==> (i >= 8 ==> bright_foreground(cell, theme)
            == resolved(cell.fg, theme)),
{
}

/// Text is drawn in its foreground on its background. Inverse swaps the two,
/// hidden text takes the colour that it is drawn on.
pub proof fn lemma_cell_colours(cell: CellSnap, theme: Theme)
    requires
        !cell.flags.bold,
        !cell.flags.dim,
    ensures
        ({
            let fg = resolved(cell.fg, theme);
            let bg = resolved(cell.bg, theme);
            let f = cell.flags;
            &&& !f.inverse && !f.hidden ==> cell_foreground(cell, theme) == fg && cell_background(
                cell,
                theme,
            ) == bg
            &&& f.inverse && !f.hidden ==> cell_foreground(cell, theme) == bg && cell_background(
                cell,
                theme,
            ) == fg
            &&& f.hidden ==> cell_foreground(cell, theme) == cell_background(cell, theme)
        }),
{
}

/// Dim text is drawn nearer to what it stands on.
pub proof fn lemma_dim_text(cell: CellSnap, theme: Theme)
    requires
        !cell.flags.bold,
        !cell.flags.hidden,
        cell.flags.dim,
    ensures
        !cell.flags.inverse ==> cell_foreground(cell, theme) == blended(
            resolved(cell.fg, theme),
            resolved(cell.bg, theme),
            DIM_PERCENT as int,
        ),
        cell.flags.inverse ==> cell_foreground(cell, theme) == blended(
            resolved(cell.bg, theme),
            resolved(cell.fg, theme),
            DIM_PERCENT as int,
        ),
{
}

/// Each flag of a cell has its own mark in the style: bold the weight, italic
/// the slant, the three underlines a line (wavy for the curled one), and
/// strikeout a line through.
pub proof fn lemma_cell_styles(cell: CellSnap, theme: Theme, base: FontWeightName)
    ensures
        ({
            let s = cell_style(cell, theme, base);
            let f = cell.flags;
            &&& f.bold ==> s.weight is Bold
            &&& !f.bold ==> s.weight == base
            &&& s.italic == f.italic
            &&& s.strikethrough == f.strikeout
            &&& f.undercurl ==> s.underline == Some(true)
            &&& !f.undercurl && (f.underline || f.double_underline) ==> s.underline == Some(false)
            &&& !f.undercurl && !f.underline && !f.double_underline ==> s.underline is None
        }),
{
}

/// A wide character takes two columns, its second half none, and any other
/// one.
pub proof fn lemma_columns(row: Seq<CellSnap>, cell: CellSnap)
    ensures
        cell.flags.spacer ==> row_columns(row.push(cell)) == row_columns(row),
        !cell.flags.spacer && cell.flags.wide ==> row_columns(row.push(cell)) == row_columns(row) + 2,
        !cell.flags.spacer && !cell.flags.wide ==> row_columns(row.push(cell)) == row_columns(row)
            + 1,
{
    assert(row.push(cell).drop_last() =~= row);
}

proof fn lemma_nothing_past_the_end(row: Seq<CellSnap>, col: int)
    requires
        col >= row_columns(row),
    ensures
        cell_over(row, col) is None,
    decreases row.len(),
{
    if row.len() > 0 {
        lemma_nothing_past_the_end(row.drop_last(), col);
    }
}

/// The cell over a column is the one that starts there, or the wide one whose
/// second half it is.
pub proof fn lemma_the_cell_over_a_column(row: Seq<CellSnap>, cell: CellSnap, col: int)
    requires
        !cell.flags.spacer,
    ensures
        cell_over(row.push(cell), row_columns(row) as int) == Some(cell),
        cell.flags.wide ==> cell_over(row.push(cell), row_columns(row) as int + 1) == Some(cell),
        cell_over(row, col) is Some ==> cell_over(row.push(cell), col) == cell_over(row, col),
        cell_over(row, row_columns(row) as int) is None,
{
    assert(row.push(cell).drop_last() =~= row);
    lemma_nothing_past_the_end(row, row_columns(row) as int);
    lemma_nothing_past_the_end(row, row_columns(row) as int + 1);
}

/// A cursor is hollow without focus; a block that blinks is gone every other
/// time; otherwise it has the shape that it was given.
pub proof fn lemma_cursor_shapes(cursor: CursorState, blink_on: bool)
    ensures
        drawn_shape(cursor, false, blink_on) is HollowBlock,
        cursor.blinking && cursor.shape is Block ==> drawn_shape(cursor, true, false) is Hidden,
        drawn_shape(cursor, true, true) == cursor.shape,
        !cursor.blinking ==> drawn_shape(cursor, true, blink_on) == cursor.shape,
        !(cursor.shape is Block) ==> drawn_shape(cursor, true, blink_on) == cursor.shape,
{
}

/// Only a block cursor on a character draws the character again.
pub proof fn lemma_glyphs_under_cursors(cell: CellSnap, shape: CursorShape)
    ensures
        shape is Block && cell.c != ' ' ==> glyph_under(Some(cell), shape) == Some(cell_text(cell)),
        !(shape is Block) || cell.c == ' ' ==> glyph_under(Some(cell), shape) is None,
        glyph_under(None, shape) is None,
        cell.zerowidth is None ==> cell_text(cell) == seq![cell.c],
        cell.zerowidth matches Some(z) ==> cell_text(cell) == seq![cell.c] + z@,
{
}

/// A row loses the blanks at its end and nothing else: a blank is a space
/// that is neither inverse nor lined.
pub proof fn lemma_row_ends(row: Seq<CellSnap>, cell: CellSnap)
    ensures
        cell.c != ' ' || cell.zerowidth is Some || cell.flags.inverse || cell.flags.underline
            || cell.flags.double_underline || cell.flags.undercurl || cell.flags.strikeout
            ==> trimmed_row(row.push(cell)) == row.push(cell),
        cell.c == ' ' && cell.zerowidth is None && !cell.flags.inverse && !cell.flags.underline
            && !cell.flags.double_underline && !cell.flags.undercurl && !cell.flags.strikeout
            ==> trimmed_row(row.push(cell)) == trimmed_row(row),
{
    assert(row.push(cell).drop_last() =~= row);
}

/// A line is on the screen where scrolling back has moved it into view.
pub proof fn lemma_lines_on_the_screen(
    line: i32,
    offset: usize,
    lines: usize,
    r: Option<usize>,
)
    requires
        call_ensures(screen_row, (line, offset, lines), r),
    ensures
        0 <= line + offset < lines ==> (r matches Some(row) && row == line + offset),
        line + offset < 0 || line + offset >= lines ==> r is None,
{
}

} // verus!
