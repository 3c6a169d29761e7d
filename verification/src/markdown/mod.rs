//! Markdown rendered to ANSI for paging with `less -R` in a terminal tab.
//! Small and line-based: headings, lists, task boxes, quotes, rules, boxed
//! and highlighted code fences with a "copy" link, tables laid out to the
//! tab's width, the HTML that READMEs lean on, and inline `code`, **bold**,
//! *italic*, [links].
use vstd::prelude::*;
use vstd::utf8::encode_utf8;

pub mod ansi;
pub mod highlight;
pub mod html;
pub mod inline;
pub mod reading;
pub mod spacing;
pub mod table;
pub mod wrapping;

use crate::markdown::ansi::{reset, visible, visible_width, wrap, wrapped};
use crate::markdown::highlight::{highlight, highlighted};
use crate::markdown::html::{converted, html_start, Html, HtmlState};
use crate::markdown::inline::styled;
use crate::markdown::spacing::{
    all_feedless, block_feedless, blocks_feedless, filled, lemma_blocks_feedless, lemma_code_filled,
    lemma_placed, lemma_spaced_blank, lemma_spaced_filled, lemma_table_at, lemma_untabbed, spaced,
};
use crate::markdown::table::{
    cells, delimiter_row, row_cells, rows_view, table, table_aligns, table_text,
};
use crate::markdown::wrapping::feedless;
use crate::path::{file_name, named};
use crate::text::{
    add_chars, add_repeated, add_text, ascii_lowered, begins_with, chars_of, chars_views, count_run,
    decimal, ends_with, first_word, has_char, head_of, is_text, is_whitespace, join, lines,
    lossy_text, lowered, push_decimal, repeated, replace_char, replaced, rfind, rfind_char, run_of,
    slice_of, split_chars, split_lines, split_on, starts, string_of, tail_of, trim, trim_chars,
    trim_end, trim_end_chars, trim_start, trim_start_chars, utf8_lossy, views, whitespace, word_of,
};

verus! {

/// Scheme of the hyperlink on a code block's "copy" label; the block's index
/// in [`Rendered::code`] follows. The pane paging the preview acts on it.
pub const COPY_URI: &'static str = "oxide-copy:";

/// A rendered document.
#[derive(Debug)]
pub struct Rendered {
    pub text: String,
    /// Each fenced code block as written, for its "copy" link.
    pub code: Vec<String>,
}

/// A file name's extension.
pub open spec fn extension(path: Seq<char>) -> Option<Seq<char>> {
    match named(path) {
        None => None,
        Some(name) => match rfind(name, '.') {
            None => None,
            Some(i) => if i == 0 {
                None
            } else {
                Some(name.skip(i as int + 1))
            },
        },
    }
}

/// Whether a path is that of a markdown file.
pub fn is_markdown(path: &str) -> (r: bool)
    ensures
        r == match extension(path@) {
            None => false,
            Some(e) => ascii_lowered(e) == "md"@ || ascii_lowered(e) == "markdown"@,
        },
{
    match file_name(path) {
        None => false,
        Some(name) => {
            let chars = chars_of(name.as_str());
            let length = chars.len();
            match rfind_char(&chars, '.') {
                Some(i) if i < length => {
                    let ext = lowered(tail_of(&chars, i + 1));
                    i > 0 && (is_text(&ext, "md") || is_text(&ext, "markdown"))
                },
                _ => false,
            }
        },
    }
}

/// A source line after the HTML pass, or a whole fenced code block.
pub ghost enum Block {
    Text { line: Seq<char>, centered: bool },
    Code { lang: Seq<char>, lines: Seq<Seq<char>> },
}

/// An open fence: its character, how many of them, and how many bytes it was
/// indented by.
pub ghost struct Fence {
    pub mark: char,
    pub length: nat,
    pub indent: nat,
}

/// A document being read.
pub ghost struct Reading {
    pub blocks: Seq<Block>,
    pub html: HtmlState,
    pub fence: Option<Fence>,
}

/// How many bytes of white space a line starts with.
pub open spec fn indent_of(line: Seq<char>) -> nat {
    encode_utf8(line.take(line.len() - trim_start(line).len())).len()
}

/// The run of three or more backticks or tildes that opens a code fence.
pub open spec fn opens_fence(trimmed: Seq<char>) -> bool {
    trimmed.len() > 0 && (trimmed[0] == '`' || trimmed[0] == '~') && run_of(trimmed, trimmed[0])
        >= 3
}

/// Whether a line closes a fence: nothing but its character, at least as
/// often as where it was opened.
pub open spec fn closes_fence(line: Seq<char>, f: Fence) -> bool {
    let t = trim_end(trim_start(line));
    t.len() >= f.length && run_of(t, f.mark) == t.len()
}

/// A line of code as written, without the indentation the fence itself had.
pub open spec fn code_line(line: Seq<char>, indent: nat) -> Seq<char> {
    let spaces = run_of(line, ' ');
    line.skip(
        (if spaces < indent {
            spaces
        } else {
            indent
        }) as int,
    )
}

/// Lines of code as they are drawn, four spaces for a tab.
pub open spec fn untabbed(lines: Seq<Seq<char>>) -> Seq<Seq<char>> {
    lines.map_values(|l: Seq<char>| replaced(l, '\t', "    "@))
}

/// A code block with one more line.
pub open spec fn with_code(block: Block, line: Seq<char>) -> Block {
    match block {
        Block::Code { lang, lines } => Block::Code { lang, lines: lines.push(line) },
        other => other,
    }
}

/// The blocks of text lines that are all centered or all not.
pub open spec fn text_blocks(v: Seq<Seq<char>>, centered: bool) -> Seq<Block> {
    v.map_values(|line: Seq<char>| Block::Text { line, centered })
}

/// A converted line without the line feed at its end: a `<br>` that ends the
/// line breaks it once, not twice.
pub open spec fn once_broken(s: Seq<char>) -> Seq<char> {
    if s.len() > 0 && s.last() == '\n' {
        s.drop_last()
    } else {
        s
    }
}

impl Reading {
    /// One more line read.
    pub open spec fn with_line(self, line: Seq<char>) -> Reading {
        let trimmed = trim_start(line);
        match self.fence {
            Some(f) => if closes_fence(line, f) {
                Reading { fence: None, ..self }
            } else if self.blocks.len() > 0 {
                Reading {
                    blocks: self.blocks.drop_last().push(
                        with_code(self.blocks.last(), code_line(line, f.indent)),
                    ),
                    ..self
                }
            } else {
                self
            },
            None => if opens_fence(trimmed) {
                let n = run_of(trimmed, trimmed[0]);
                Reading {
                    blocks: self.blocks.push(
                        Block::Code { lang: trim(trimmed.skip(n as int)), lines: Seq::empty() },
                    ),
                    fence: Some(Fence { mark: trimmed[0], length: n, indent: indent_of(line) }),
                    ..self
                }
            } else {
                let c = converted(self.html, line);
                let centered = self.html.center is Some || c.html.centered_here;
                Reading {
                    blocks: self.blocks + text_blocks(split_on(once_broken(c.out), '\n'), centered),
                    html: c.html,
                    ..self
                }
            },
        }
    }
}

/// What has been read after some lines.
pub open spec fn reading(v: Seq<Seq<char>>) -> Reading
    decreases v.len(),
{
    if v.len() == 0 {
        Reading { blocks: Seq::empty(), html: html_start(), fence: None }
    } else {
        reading(v.drop_last()).with_line(v.last())
    }
}

/// The blocks of a document: fences set aside, HTML turned into markdown.
pub open spec fn blocks(md: Seq<char>) -> Seq<Block> {
    reading(lines(md)).blocks
}

/// A source line after the HTML pass, or a whole fenced code block.
enum Item {
    Text { line: Vec<char>, centered: bool },
    Code { lang: Vec<char>, lines: Vec<Vec<char>> },
}

impl View for Item {
    type V = Block;

    closed spec fn view(&self) -> Block {
        match self {
            Item::Text { line, centered } => Block::Text { line: line@, centered: *centered },
            Item::Code { lang, lines } => Block::Code { lang: lang@, lines: chars_views(lines@) },
        }
    }
}

spec fn item_views(v: Seq<Item>) -> Seq<Block> {
    v.map_values(|i: Item| i@)
}

/// An open fence.
struct OpenFence {
    mark: char,
    length: usize,
    indent: usize,
}

spec fn fence_view(f: Option<OpenFence>) -> Option<Fence> {
    match f {
        None => None,
        Some(f) => Some(
            Fence { mark: f.mark, length: f.length as nat, indent: f.indent as nat },
        ),
    }
}

/// A document being read.
struct Reader {
    items: Vec<Item>,
    html: Html,
    fence: Option<OpenFence>,
}

impl View for Reader {
    type V = Reading;

    closed spec fn view(&self) -> Reading {
        Reading {
            blocks: item_views(self.items@),
            html: self.html@,
            fence: fence_view(self.fence),
        }
    }
}

fn line_of_code(line: &[char], indent: usize) -> (r: Vec<char>)
    ensures
        r@ == code_line(line@, indent as nat),
{
    let spaces = count_run(line, ' ');
    let from: usize = if spaces < indent {
        spaces
    } else {
        indent
    };
    let rest = tail_of(line, from);
    slice_of(rest, 0, rest.len())
}

fn untab(lines: &Vec<Vec<char>>) -> (r: Vec<Vec<char>>)
    ensures
        chars_views(r@) == untabbed(chars_views(lines@)),
{
    let mut out: Vec<Vec<char>> = Vec::new();
    let mut i: usize = 0;
    while i < lines.len()
        invariant
            i == out.len() <= lines.len(),
            forall|k: int|
                0 <= k < i ==> (#[trigger] out@[k])@ == replaced(lines@[k]@, '\t', "    "@),
        decreases lines.len() - i,
    {
        let line = string_of(&lines[i]);
        out.push(chars_of(replace_char(line.as_str(), '\t', "    ").as_str()));
        i += 1;
    }
    assert(chars_views(out@) =~= untabbed(chars_views(lines@)));
    out
}

impl Reader {
    fn read_code(&mut self, line: &[char], f: OpenFence)
        requires
            old(self)@.fence == fence_view(Some(f)),
        ensures
            final(self)@ == old(self)@.with_line(line@),
    {
        let ghost before = self@;
        let t = trim_end_chars(&trim_start_chars(line));
        if t.len() >= f.length && count_run(&t, f.mark) == t.len() {
            self.fence = None;
            return;
        }
        let code = line_of_code(line, f.indent);
        if self.items.len() > 0 {
            let last = self.items.len() - 1;
            assert(before.blocks.last() == self.items@[last as int]@);
            let mut item = Item::Text { line: Vec::new(), centered: false };
            std::mem::swap(&mut item, &mut self.items[last]);
            let ghost was = item@;
            let ghost c = code@;
            let next = match item {
                Item::Text { line, centered } => Item::Text { line, centered },
                Item::Code { lang, lines } => {
                    let mut lines = lines;
                    let ghost l = lines@;
                    lines.push(code);
                    assert(chars_views(lines@) =~= chars_views(l).push(c));
                    Item::Code { lang, lines }
                },
            };
            assert(next@ == with_code(was, c));
            self.items.set(last, next);
            assert(self@.blocks =~= before.blocks.drop_last().push(with_code(was, c)));
        }
        self.fence = Some(f);
    }

    fn open_fence(&mut self, line: &[char], trimmed: &[char])
        requires
            old(self)@.fence is None,
            trimmed@ == trim_start(line@),
            opens_fence(trimmed@),
        ensures
            final(self)@ == old(self)@.with_line(line@),
    {
        let ghost before = self@;
        proof {
            lemma_trimmed(line@);
        }
        let n = count_run(trimmed, trimmed[0]);
        let indent = string_of(head_of(line, line.len() - trimmed.len())).as_str().as_bytes_vec().len();
        let lang = trim_chars(tail_of(trimmed, n));
        let ghost l = lang@;
        let none: Vec<Vec<char>> = Vec::new();
        assert(chars_views(none@) =~= Seq::empty());
        self.items.push(Item::Code { lang, lines: none });
        self.fence = Some(OpenFence { mark: trimmed[0], length: n, indent });
        assert(self@.blocks =~= before.blocks.push(
            Block::Code { lang: l, lines: Seq::empty() },
        ));
    }

    fn read_text(&mut self, line: &[char])
        requires
            old(self)@.fence is None,
            !opens_fence(trim_start(line@)),
        ensures
            final(self)@ == old(self)@.with_line(line@),
    {
        let ghost before = self@;
        let was = self.html.centering();
        let out = self.html.convert(line);
        let centered = was || self.html.centered();
        let once = if out.len() > 0 && out[out.len() - 1] == '\n' {
            head_of(&out, out.len() - 1)
        } else {
            out.as_slice()
        };
        assert(once@ =~= once_broken(out@));
        let list = split_chars(once, '\n');
        let ghost all = text_blocks(chars_views(list@), centered);
        let mut k: usize = 0;
        assert(item_views(self.items@) =~= before.blocks + all.take(0));
        while k < list.len()
            invariant
                k <= list.len(),
                all == text_blocks(chars_views(list@), centered),
                item_views(self.items@) == before.blocks + all.take(k as int),
                self.html@ == converted(before.html, line@).html,
                fence_view(self.fence) == before.fence,
            decreases list.len() - k,
        {
            let ghost items = self.items@;
            let piece = slice_of(&list[k], 0, list[k].len());
            assert(piece@ =~= list@[k as int]@);
            assert(all[k as int] == (Block::Text { line: piece@, centered }));
            let ghost block = all[k as int];
            self.items.push(Item::Text { line: piece, centered });
            assert(item_views(self.items@) =~= item_views(items).push(block));
            assert(all.take(k + 1) =~= all.take(k as int).push(block));
            k += 1;
            assert(item_views(self.items@) =~= before.blocks + all.take(k as int));
        }
        assert(all.take(k as int) =~= all);
    }

    fn read(&mut self, line: &[char])
        ensures
            final(self)@ == old(self)@.with_line(line@),
    {
        let mut fence: Option<OpenFence> = None;
        std::mem::swap(&mut fence, &mut self.fence);
        match fence {
            Some(f) => {
                let back = OpenFence { mark: f.mark, length: f.length, indent: f.indent };
                self.fence = Some(back);
                self.read_code(line, f);
            },
            None => {
                let trimmed = trim_start_chars(line);
                let opens = trimmed.len() > 0 && (trimmed[0] == '`' || trimmed[0] == '~')
                    && count_run(&trimmed, trimmed[0]) >= 3;
                if opens {
                    self.open_fence(line, &trimmed);
                } else {
                    self.read_text(line);
                }
            },
        }
    }
}

proof fn lemma_trimmed(s: Seq<char>)
    ensures
        trim_start(s).len() <= s.len(),
{
    crate::text::lemma_trim_start_len(s);
}

fn preprocess(md: &str) -> (r: Vec<Item>)
    ensures
        item_views(r@) == blocks(md@),
{
    let list = split_lines(md);
    let ghost all = lines(md@);
    let mut r = Reader { items: Vec::new(), html: Html::new(), fence: None };
    assert(r@.blocks =~= Seq::empty());
    assert(all.take(0) =~= Seq::empty());
    let mut i: usize = 0;
    while i < list.len()
        invariant
            i <= list.len(),
            all == chars_views(list@),
            r@ == reading(all.take(i as int)),
        decreases list.len() - i,
    {
        assert(all.take(i + 1).drop_last() =~= all.take(i as int));
        assert(all.take(i + 1).last() == list@[i as int]@);
        r.read(&list[i]);
        i += 1;
    }
    assert(all.take(i as int) =~= all);
    r.items
}

/// The characters of a text that are not white space.
pub open spec fn marks(s: Seq<char>) -> Seq<char>
    decreases s.len(),
{
    if s.len() == 0 {
        Seq::empty()
    } else if whitespace(s.last()) {
        marks(s.drop_last())
    } else {
        marks(s.drop_last()).push(s.last())
    }
}

/// `---`, `***`, `___`, optionally spaced out.
pub open spec fn is_rule(s: Seq<char>) -> bool {
    let m = marks(s);
    m.len() >= 3 && (m[0] == '-' || m[0] == '*' || m[0] == '_') && run_of(m, m[0]) == m.len()
}

fn rule(s: &[char]) -> (r: bool)
    ensures
        r == is_rule(s@),
{
    let mut m: Vec<char> = Vec::new();
    let mut i: usize = 0;
    assert(s@.take(0) =~= Seq::empty());
    while i < s.len()
        invariant
            i <= s.len(),
            m@ == marks(s@.take(i as int)),
        decreases s.len() - i,
    {
        assert(s@.take(i + 1).drop_last() =~= s@.take(i as int));
        assert(s@.take(i + 1).last() == s@[i as int]);
        if !is_whitespace(s[i]) {
            m.push(s[i]);
        }
        i += 1;
    }
    assert(s@.take(i as int) =~= s@);
    m.len() >= 3 && (m[0] == '-' || m[0] == '*' || m[0] == '_') && count_run(&m, m[0]) == m.len()
}

/// A text without the spaces and number signs at its end.
pub open spec fn without_closing(s: Seq<char>) -> Seq<char>
    decreases s.len(),
{
    if s.len() > 0 && (s.last() == ' ' || s.last() == '#') {
        without_closing(s.drop_last())
    } else {
        s
    }
}

/// Whether a line is a heading.
pub open spec fn is_heading(s: Seq<char>) -> bool {
    let level = run_of(s, '#');
    1 <= level <= 6 && level < s.len() && s[level as int] == ' '
}

/// A heading's text.
pub open spec fn heading_text(s: Seq<char>) -> Seq<char> {
    without_closing(s.skip(run_of(s, '#') as int + 1))
}

/// The style of a heading.
pub open spec fn heading_style(level: nat) -> Seq<char> {
    if level == 1 {
        "\x1b[1m\x1b[4m"@
    } else if level == 2 {
        "\x1b[1m\x1b[36m"@
    } else if level == 3 {
        "\x1b[1m\x1b[33m"@
    } else {
        "\x1b[1m"@
    }
}

fn unclosed(s: &[char]) -> (r: Vec<char>)
    ensures
        r@ == without_closing(s@),
{
    let mut n: usize = s.len();
    assert(s@.take(n as int) =~= s@);
    while n > 0 && (s[n - 1] == ' ' || s[n - 1] == '#')
        invariant
            n <= s.len(),
            without_closing(s@) == without_closing(s@.take(n as int)),
        decreases n,
    {
        assert(s@.take(n as int).last() == s@[n - 1]);
        assert(s@.take(n as int).drop_last() =~= s@.take(n - 1));
        n -= 1;
    }
    proof {
        if n > 0 {
            assert(s@.take(n as int).last() == s@[n - 1]);
        }
        assert(s@.subrange(0, n as int) =~= s@.take(n as int));
    }
    slice_of(s, 0, n)
}

/// Whether a line is an item of a list.
pub open spec fn is_bullet(s: Seq<char>) -> bool {
    begins_with(s, "- "@) || begins_with(s, "* "@) || begins_with(s, "+ "@)
}

/// An item's text after its bullet, which a task box may replace.
pub open spec fn bullet_text(item: Seq<char>) -> Seq<char> {
    if begins_with(item, "[ ] "@) {
        "  ☐ "@ + styled(item.skip(4))
    } else if begins_with(item, "[x] "@) || begins_with(item, "[X] "@) {
        "  ☑ "@ + styled(item.skip(4))
    } else {
        "  • "@ + styled(item)
    }
}

/// A line of text, rendered.
pub open spec fn line_rendered(line: Seq<char>) -> Seq<char> {
    let t = trim_start(line);
    let indent = line.take(line.len() - t.len());
    if is_rule(t) {
        "\x1b[2m"@ + repeated('─', 40) + reset()
    } else if is_heading(t) {
        heading_style(run_of(t, '#')) + styled(heading_text(t)) + reset()
    } else if is_bullet(t) {
        indent + bullet_text(t.skip(2))
    } else if t.len() > 0 && t[0] == '>' {
        indent + "\x1b[2m│\x1b[0m "@ + styled(trim_start(t.skip(1)))
    } else {
        styled(line)
    }
}

fn add_inline(out: &mut Vec<char>, s: &[char])
    ensures
        final(out)@ == old(out)@ + styled(s@),
{
    let text = crate::markdown::inline::inline(s);
    add_chars(out, &text);
}

fn bullet(item: &[char]) -> (r: Vec<char>)
    ensures
        r@ == bullet_text(item@),
{
    proof {
        reveal_strlit("[ ] ");
        reveal_strlit("[x] ");
        reveal_strlit("[X] ");
    }
    if starts(item, "[ ] ") {
        let mut r = chars_of("  ☐ ");
        add_inline(&mut r, tail_of(item, 4));
        r
    } else if starts(item, "[x] ") || starts(item, "[X] ") {
        let mut r = chars_of("  ☑ ");
        add_inline(&mut r, tail_of(item, 4));
        r
    } else {
        let mut r = chars_of("  • ");
        add_inline(&mut r, item);
        r
    }
}

/// A line of text, rendered.
fn render_line(line: &[char]) -> (r: Vec<char>)
    ensures
        r@ == line_rendered(line@),
{
    let t = trim_start_chars(line);
    proof {
        lemma_trimmed(line@);
    }
    let indent = slice_of(line, 0, line.len() - t.len());
    assert(indent@ =~= line@.take(line@.len() - t@.len()));
    if rule(&t) {
        let mut r = chars_of("\x1b[2m");
        add_repeated(&mut r, '─', 40);
        add_text(&mut r, "\x1b[0m");
        return r;
    }
    let level = count_run(&t, '#');
    if level >= 1 && level <= 6 && level < t.len() && t[level] == ' ' {
        let mut r = chars_of(
            if level == 1 {
                "\x1b[1m\x1b[4m"
            } else if level == 2 {
                "\x1b[1m\x1b[36m"
            } else if level == 3 {
                "\x1b[1m\x1b[33m"
            } else {
                "\x1b[1m"
            },
        );
        add_inline(&mut r, &unclosed(tail_of(&t, level + 1)));
        add_text(&mut r, "\x1b[0m");
        return r;
    }
    if starts(&t, "- ") || starts(&t, "* ") || starts(&t, "+ ") {
        proof {
            reveal_strlit("- ");
            reveal_strlit("* ");
            reveal_strlit("+ ");
        }
        let mut r = indent;
        add_chars(&mut r, &bullet(tail_of(&t, 2)));
        return r;
    }
    if t.len() > 0 && t[0] == '>' {
        let mut r = indent;
        add_text(&mut r, "\x1b[2m│\x1b[0m ");
        add_inline(&mut r, &trim_start_chars(tail_of(&t, 1)));
        return r;
    }
    crate::markdown::inline::inline(line)
}

/// Lines wrapped one after the other.
pub open spec fn code_rows(lines: Seq<Seq<char>>, width: nat) -> Seq<Seq<char>>
    decreases lines.len(),
{
    if lines.len() == 0 {
        Seq::empty()
    } else {
        code_rows(lines.drop_last(), width) + wrapped(lines.last(), width, false)
    }
}

/// The widest of some rows.
pub open spec fn widest_row(rows: Seq<Seq<char>>) -> nat
    decreases rows.len(),
{
    if rows.len() == 0 {
        0
    } else {
        let before = widest_row(rows.drop_last());
        let w = visible(rows.last());
        if w > before {
            w
        } else {
            before
        }
    }
}

/// A language's label on a box.
pub open spec fn label_of(lang: Seq<char>) -> Seq<char> {
    if lang.len() == 0 {
        Seq::empty()
    } else {
        " "@ + lang + " "@
    }
}

/// The columns that a box's labels take up.
pub open spec fn edge_of(lang: Seq<char>) -> nat {
    visible(label_of(lang)) + visible(" ⧉ copy "@)
}

/// The columns inside a box.
pub open spec fn inner_of(lang: Seq<char>, rows: Seq<Seq<char>>, room: nat) -> nat {
    let w = if widest_row(rows) > edge_of(lang) {
        widest_row(rows)
    } else {
        edge_of(lang)
    };
    if w < room {
        w
    } else {
        room
    }
}

/// What `a` is more than `b`.
pub open spec fn beyond(a: nat, b: nat) -> nat {
    if a > b {
        (a - b) as nat
    } else {
        0
    }
}

/// The top edge of a box: the language and a "copy" link.
pub open spec fn box_top(lang: Seq<char>, inner: nat, index: nat) -> Seq<char> {
    "\x1b[2m╭─\x1b[0m"@ + label_of(lang) + "\x1b[2m"@ + repeated(
        '─',
        beyond(inner, edge_of(lang)),
    ) + "\x1b[0m\x1b]8;;oxide-copy:"@ + decimal(index)
        + "\x1b\\ ⧉ copy \x1b]8;;\x1b\\\x1b[2m─╮\x1b[0m"@
}

/// A row of a box, padded to the edge.
pub open spec fn box_line(row: Seq<char>, inner: nat) -> Seq<char> {
    "\x1b[2m│\x1b[0m "@ + row + repeated(' ', beyond(inner, visible(row))) + " \x1b[2m│\x1b[0m"@
}

/// The bottom edge of a box.
pub open spec fn box_foot(inner: nat) -> Seq<char> {
    "\x1b[2m╰"@ + repeated('─', inner + 2) + "╯\x1b[0m"@
}

/// The rows of a box between its edges.
pub open spec fn box_rows(rows: Seq<Seq<char>>, inner: nat) -> Seq<char>
    decreases rows.len(),
{
    if rows.len() == 0 {
        Seq::empty()
    } else {
        box_rows(rows.drop_last(), inner) + box_line(rows.last(), inner) + "\n"@
    }
}

/// A box around lines that are shown as they are: the language and a "copy"
/// link on its top edge. Lines too long for the tab are hard-wrapped inside
/// it so the right edge holds.
pub open spec fn boxed(lang: Seq<char>, shown: Seq<Seq<char>>, index: nat, width: nat) -> Seq<
    char,
> {
    let room = (width - 4) as nat;
    let rows = code_rows(shown, room);
    let inner = inner_of(lang, rows, room);
    box_top(lang, inner, index) + "\n"@ + box_rows(rows, inner) + box_foot(inner) + "\n"@
}

/// A box around code, highlighted when the language is known.
pub open spec fn code_box(info: Seq<char>, code: Seq<Seq<char>>, index: nat, width: nat) -> Seq<
    char,
> {
    let lang = first_word(info);
    boxed(
        lang,
        match highlighted(lang, code) {
            None => code,
            Some(h) => h,
        },
        index,
        width,
    )
}

fn rows_of(shown: &Vec<Vec<char>>, room: usize) -> (r: Vec<Vec<char>>)
    ensures
        chars_views(r@) == code_rows(chars_views(shown@), room as nat),
{
    let ghost all = chars_views(shown@);
    let mut rows: Vec<Vec<char>> = Vec::new();
    let mut i: usize = 0;
    assert(all.take(0) =~= Seq::empty());
    assert(chars_views(rows@) =~= Seq::empty());
    while i < shown.len()
        invariant
            i <= shown.len(),
            all == chars_views(shown@),
            chars_views(rows@) == code_rows(all.take(i as int), room as nat),
        decreases shown.len() - i,
    {
        let ghost before = rows@;
        assert(all.take(i + 1).drop_last() =~= all.take(i as int));
        assert(all.take(i + 1).last() == shown@[i as int]@);
        let mut more = wrap(&shown[i], room, false);
        let ghost m = more@;
        rows.append(&mut more);
        assert(chars_views(rows@) =~= chars_views(before) + chars_views(m));
        i += 1;
    }
    assert(all.take(i as int) =~= all);
    rows
}

fn measure_rows(rows: &Vec<Vec<char>>) -> (w: u128)
    ensures
        w == widest_row(chars_views(rows@)),
{
    let ghost all = chars_views(rows@);
    let mut w: u128 = 0;
    let mut i: usize = 0;
    assert(all.take(0) =~= Seq::empty());
    while i < rows.len()
        invariant
            i <= rows.len(),
            all == chars_views(rows@),
            w == widest_row(all.take(i as int)),
        decreases rows.len() - i,
    {
        assert(all.take(i + 1).drop_last() =~= all.take(i as int));
        assert(all.take(i + 1).last() == rows@[i as int]@);
        let v = visible_width(&rows[i]);
        if v > w {
            w = v;
        }
        i += 1;
    }
    assert(all.take(i as int) =~= all);
    w
}

fn rest_of(inner: usize, v: u128) -> (r: usize)
    ensures
        r == beyond(inner as nat, v as nat),
{
    if (inner as u128) > v {
        (inner as u128 - v) as usize
    } else {
        0
    }
}

fn add_box_rows(out: &mut Vec<char>, rows: &Vec<Vec<char>>, inner: usize)
    ensures
        final(out)@ == old(out)@ + box_rows(chars_views(rows@), inner as nat),
{
    let ghost start = out@;
    let ghost all = chars_views(rows@);
    let mut i: usize = 0;
    assert(all.take(0) =~= Seq::empty());
    assert(out@ =~= start + box_rows(all.take(0), inner as nat));
    while i < rows.len()
        invariant
            i <= rows.len(),
            all == chars_views(rows@),
            out@ == start + box_rows(all.take(i as int), inner as nat),
        decreases rows.len() - i,
    {
        assert(all.take(i + 1).drop_last() =~= all.take(i as int));
        assert(all.take(i + 1).last() == rows@[i as int]@);
        add_text(out, "\x1b[2m│\x1b[0m ");
        add_chars(out, &rows[i]);
        add_repeated(out, ' ', rest_of(inner, visible_width(&rows[i])));
        add_text(out, " \x1b[2m│\x1b[0m");
        add_text(out, "\n");
        assert(out@ =~= start + box_rows(all.take(i + 1), inner as nat));
        i += 1;
    }
    assert(all.take(i as int) =~= all);
}

fn add_box_top(out: &mut Vec<char>, label: &Vec<char>, dashes: usize, index: usize)
    ensures
        final(out)@ == old(out)@ + ("\x1b[2m╭─\x1b[0m"@ + label@ + "\x1b[2m"@ + repeated(
            '─',
            dashes as nat,
        ) + "\x1b[0m\x1b]8;;oxide-copy:"@ + decimal(index as nat)
            + "\x1b\\ ⧉ copy \x1b]8;;\x1b\\\x1b[2m─╮\x1b[0m"@),
{
    let ghost start = out@;
    add_text(out, "\x1b[2m╭─\x1b[0m");
    add_chars(out, label);
    add_text(out, "\x1b[2m");
    add_repeated(out, '─', dashes);
    add_text(out, "\x1b[0m\x1b]8;;oxide-copy:");
    let mut number = String::new();
    push_decimal(&mut number, index as u64);
    assert(number@ =~= decimal(index as nat));
    add_text(out, number.as_str());
    add_text(out, "\x1b\\ ⧉ copy \x1b]8;;\x1b\\\x1b[2m─╮\x1b[0m");
    assert(out@ =~= start + ("\x1b[2m╭─\x1b[0m"@ + label@ + "\x1b[2m"@ + repeated(
        '─',
        dashes as nat,
    ) + "\x1b[0m\x1b]8;;oxide-copy:"@ + decimal(index as nat)
        + "\x1b\\ ⧉ copy \x1b]8;;\x1b\\\x1b[2m─╮\x1b[0m"@));
}

fn add_box_foot(out: &mut Vec<char>, inner: usize)
    requires
        inner + 2 <= usize::MAX,
    ensures
        final(out)@ == old(out)@ + box_foot(inner as nat),
{
    let ghost start = out@;
    add_text(out, "\x1b[2m╰");
    add_repeated(out, '─', inner + 2);
    add_text(out, "╯\x1b[0m");
    assert(out@ =~= start + box_foot(inner as nat));
}

/// Draw a box around lines that are shown as they are: the language and a
/// "copy" link on its top edge. Lines too long for the tab are hard-wrapped
/// inside it so the right edge holds.
pub fn draw_box(out: &mut Vec<char>, lang: &[char], shown: &Vec<Vec<char>>, index: usize, width: usize)
    requires
        4 <= width,
    ensures
        final(out)@ == old(out)@ + boxed(lang@, chars_views(shown@), index as nat, width as nat),
{
    let ghost start = out@;
    let room: usize = width - 4;
    let rows = rows_of(shown, room);
    let mut label: Vec<char> = Vec::new();
    if lang.len() > 0 {
        add_text(&mut label, " ");
        add_chars(&mut label, lang);
        add_text(&mut label, " ");
    }
    assert(label@ =~= label_of(lang@));
    let copy = chars_of(" ⧉ copy ");
    let edge = visible_width_pair(&label, &copy);
    let widest = measure_rows(&rows);
    let most = if widest > edge {
        widest
    } else {
        edge
    };
    let inner: usize = if most < room as u128 {
        most as usize
    } else {
        room
    };
    assert(inner == inner_of(lang@, chars_views(rows@), room as nat));
    add_box_top(out, &label, rest_of(inner, edge), index);
    let ghost top = out@;
    assert(top =~= start + box_top(lang@, inner as nat, index as nat));
    add_text(out, "\n");
    add_box_rows(out, &rows, inner);
    add_box_foot(out, inner);
    add_text(out, "\n");
    assert(out@ =~= start + boxed(lang@, chars_views(shown@), index as nat, width as nat));
}

fn visible_width_pair(a: &[char], b: &[char]) -> (w: u128)
    ensures
        w == visible(a@) + visible(b@),
{
    let n: usize = a.len();
    let m: usize = b.len();
    visible_width(a) + visible_width(b)
}

/// A box around the code, highlighted when the language is known.
fn code_block(out: &mut Vec<char>, info: &[char], code: &Vec<Vec<char>>, index: usize, width: usize)
    requires
        4 <= width,
    ensures
        final(out)@ == old(out)@ + code_box(info@, chars_views(code@), index as nat, width as nat),
        feedless(info@) && all_feedless(chars_views(code@)) ==> filled(
            code_box(info@, chars_views(code@), index as nat, width as nat),
        ),
{
    let lang = word_of(info);
    let ghost lines = chars_views(code@);
    match highlight(&lang, code) {
        None => {
            draw_box(out, &lang, code, index, width);
            proof {
                if feedless(info@) && all_feedless(lines) {
                    lemma_code_filled(info@, lines, index as nat, width as nat);
                }
            }
        },
        Some(h) => {
            draw_box(out, &lang, &h, index, width);
            proof {
                if feedless(info@) && all_feedless(lines) {
                    let shown = chars_views(h@);
                    assert forall|i: int| 0 <= i < shown.len() implies feedless(
                        #[trigger] shown[i],
                    ) by {
                        assert(feedless(lines[i]));
                        assert(shown[i] == h@[i]@);
                    }
                    lemma_code_filled(info@, shown, index as nat, width as nat);
                }
            }
        },
    }
}

/// A rendered document, as texts.
pub ghost struct Page {
    pub text: Seq<char>,
    pub code: Seq<Seq<char>>,
}

/// Whether a block is a line of text with a `|` in it.
pub open spec fn is_row(b: Block) -> bool {
    b matches Block::Text { line, .. } && line.contains('|')
}

/// Where the rows of a table that go on at `i` end.
pub open spec fn rows_end(v: Seq<Block>, i: int) -> int
    decreases v.len() - i,
{
    if 0 <= i < v.len() && is_row(v[i]) {
        rows_end(v, i + 1)
    } else {
        i
    }
}

/// The alignments of the table whose header is at `i`, if there is one: a
/// header row, then a `|---|---|` row, then the body.
pub open spec fn table_at(v: Seq<Block>, i: int) -> Option<Seq<table::Align>> {
    if is_row(v[i]) && i + 1 < v.len() {
        match v[i + 1] {
            Block::Text { line, .. } => delimiter_row(line),
            _ => None,
        }
    } else {
        None
    }
}

/// The cells of a text block.
pub open spec fn block_cells(b: Block) -> Seq<Seq<char>> {
    match b {
        Block::Text { line, .. } => row_cells(line),
        _ => Seq::empty(),
    }
}

/// The rows of the table whose header is at `i`.
pub open spec fn table_rows(v: Seq<Block>, i: int) -> Seq<Seq<Seq<char>>> {
    seq![block_cells(v[i])] + v.subrange(i + 2, rows_end(v, i + 2)).map_values(
        |b: Block| block_cells(b),
    )
}

/// A line of text as it is put on the page.
pub open spec fn placed(line: Seq<char>, centered: bool, width: nat) -> Seq<char> {
    if centered {
        let text = line_rendered(trim(line));
        repeated(' ', beyond(width, visible(text)) / 2) + text + "\n"@
    } else {
        line_rendered(line) + "\n"@
    }
}

/// The rows of a table end inside the document.
pub proof fn lemma_rows_end(v: Seq<Block>, i: int)
    requires
        0 <= i <= v.len(),
    ensures
        i <= rows_end(v, i) <= v.len(),
    decreases v.len() - i,
{
    if i < v.len() && is_row(v[i]) {
        lemma_rows_end(v, i + 1);
    }
}

/// The page with the blocks from `i` on added.
pub open spec fn page(v: Seq<Block>, i: int, p: Page, width: nat) -> Page
    decreases v.len() - i,
{
    if i < 0 || i >= v.len() {
        p
    } else {
        match v[i] {
            // No trailing newline: pasted at a prompt, it would run.
            Block::Code { lang, lines } => page(
                v,
                i + 1,
                Page {
                    text: p.text + code_box(lang, untabbed(lines), p.code.len(), width),
                    code: p.code.push(join(lines, "\n"@)),
                },
                width,
            ),
            Block::Text { line, centered } => match table_at(v, i) {
                Some(aligns) => {
                    proof {
                        lemma_rows_end(v, i + 2);
                    }
                    page(
                        v,
                        rows_end(v, i + 2),
                        Page { text: p.text + table_text(table_rows(v, i), aligns, width), ..p },
                        width,
                    )
                },
                None => if trim(line).len() == 0 {
                    // Tag-only lines become blanks; don't let them pile up.
                    page(
                        v,
                        i + 1,
                        Page {
                            text: if p.text.len() > 0 && !ends_with(p.text, "\n\n"@) {
                                p.text + "\n"@
                            } else {
                                p.text
                            },
                            ..p
                        },
                        width,
                    )
                } else {
                    page(
                        v,
                        i + 1,
                        Page { text: p.text + placed(line, centered, width), ..p },
                        width,
                    )
                },
            },
        }
    }
}

/// A document rendered for a pager of `width` columns, twenty at least.
pub open spec fn rendered(md: Seq<char>, width: nat) -> Page {
    let w = if width < 20 {
        20
    } else {
        width
    };
    page(blocks(md), 0, Page { text: Seq::empty(), code: Seq::empty() }, w)
}

impl View for Rendered {
    type V = Page;

    open spec fn view(&self) -> Page {
        Page { text: self.text@, code: views(self.code@) }
    }
}

fn join_lines(v: &Vec<Vec<char>>) -> (r: String)
    ensures
        r@ == join(chars_views(v@), "\n"@),
{
    let ghost all = chars_views(v@);
    let mut out: Vec<char> = Vec::new();
    let mut i: usize = 0;
    assert(all.take(0) =~= Seq::empty());
    assert(out@ =~= join(all.take(0), "\n"@));
    while i < v.len()
        invariant
            i <= v.len(),
            all == chars_views(v@),
            out@ == join(all.take(i as int), "\n"@),
        decreases v.len() - i,
    {
        assert(all.take(i + 1).drop_last() =~= all.take(i as int));
        assert(all.take(i + 1).last() == v@[i as int]@);
        if i > 0 {
            add_text(&mut out, "\n");
        }
        add_chars(&mut out, &v[i]);
        assert(out@ =~= join(all.take(i + 1), "\n"@));
        i += 1;
    }
    assert(all.take(i as int) =~= all);
    string_of(&out)
}

fn place(out: &mut Vec<char>, line: &[char], centered: bool, width: usize)
    ensures
        final(out)@ == old(out)@ + placed(line@, centered, width as nat),
{
    let ghost start = out@;
    if centered {
        let text = render_line(&trim_chars(line));
        add_repeated(out, ' ', rest_of(width, visible_width(&text)) / 2);
        add_chars(out, &text);
    } else {
        add_chars(out, &render_line(line));
    }
    add_text(out, "\n");
    assert(out@ =~= start + placed(line@, centered, width as nat));
}

fn double_fed(out: &Vec<char>) -> (r: bool)
    ensures
        r == ends_with(out@, "\n\n"@),
{
    proof {
        reveal_strlit("\n\n");
    }
    let n = out.len();
    let r = n >= 2 && out[n - 1] == '\n' && out[n - 2] == '\n';
    proof {
        if n >= 2 {
            let t = out@.skip(n - 2);
            assert(t[0] == out@[n - 2] && t[1] == out@[n - 1]);
            if r {
                assert(t =~= "\n\n"@);
            }
        }
    }
    r
}

fn item_row(item: &Item) -> (r: bool)
    ensures
        r == is_row(item@),
{
    match item {
        Item::Text { line, .. } => has_char(line, '|'),
        Item::Code { .. } => false,
    }
}

fn item_cells(item: &Item) -> (r: Vec<Vec<char>>)
    ensures
        chars_views(r@) == block_cells(item@),
{
    match item {
        Item::Text { line, .. } => cells(line),
        Item::Code { .. } => {
            let r: Vec<Vec<char>> = Vec::new();
            assert(chars_views(r@) =~= Seq::empty());
            r
        },
    }
}

fn table_head(items: &Vec<Item>, i: usize) -> (r: Option<Vec<table::Align>>)
    requires
        i < items@.len(),
    ensures
        match r {
            None => table_at(item_views(items@), i as int) is None,
            Some(a) => table_at(item_views(items@), i as int) == Some(a@),
        },
        r is Some ==> i + 2 <= items@.len(),
{
    let ghost all = item_views(items@);
    assert(all[i as int] == items@[i as int]@);
    if !item_row(&items[i]) || items.len() - i <= 1 {
        return None;
    }
    assert(all[i + 1] == items@[i + 1]@);
    match &items[i + 1] {
        Item::Text { line, .. } => table_aligns(line),
        Item::Code { .. } => None,
    }
}

/// The rows of a table and where they end.
fn table_body(items: &Vec<Item>, i: usize) -> (r: (Vec<Vec<Vec<char>>>, usize))
    requires
        i + 2 <= items@.len(),
    ensures
        rows_view(r.0@) == table_rows(item_views(items@), i as int),
        r.1 == rows_end(item_views(items@), i + 2),
        i + 2 <= r.1 <= items@.len(),
{
    let ghost all = item_views(items@);
    let mut rows: Vec<Vec<Vec<char>>> = Vec::new();
    let count = items.len();
    assert(i + 2 <= count);
    assert(all[i as int] == items@[i as int]@);
    rows.push(item_cells(&items[i]));
    let mut k: usize = i + 2;
    while k < items.len() && item_row(&items[k])
        invariant
            i + 2 <= k <= items.len(),
            all == item_views(items@),
            rows_end(all, i + 2) == rows_end(all, k as int),
            rows.len() == k - i - 1,
            chars_views(rows@[0]@) == block_cells(all[i as int]),
            forall|j: int|
                i + 2 <= j < k ==> chars_views(rows@[j - i - 1]@) == block_cells(
                    #[trigger] all[j],
                ),
        decreases items.len() - k,
    {
        assert(all[k as int] == items@[k as int]@);
        rows.push(item_cells(&items[k]));
        k += 1;
    }
    proof {
        if k < items.len() {
            assert(all[k as int] == items@[k as int]@);
        }
        let want = table_rows(all, i as int);
        assert forall|j: int| 0 <= j < want.len() implies rows_view(rows@)[j] == want[j] by {
            if j > 0 {
                assert(want[j] == block_cells(all[j + i + 1]));
            }
        }
        assert(rows_view(rows@) =~= want);
    }
    (rows, k)
}

/// Render a document for a pager of `width` columns. Whatever the document,
/// no blank line leads the text and no two blank lines stand together.
pub fn render(md: &str, width: usize) -> (r: Rendered)
    ensures
        r@ == rendered(md@, width as nat),
        spaced(r.text@),
{
    let width: usize = if width < 20 {
        20
    } else {
        width
    };
    let items = preprocess(md);
    let ghost all = blocks(md@);
    let ghost whole = page(
        all,
        0,
        Page { text: Seq::empty(), code: Seq::empty() },
        width as nat,
    );
    let mut out: Vec<char> = Vec::new();
    let mut code: Vec<String> = Vec::new();
    let mut i: usize = 0;
    proof {
        assert(out@ =~= Seq::empty());
        assert(views(code@) =~= Seq::empty());
        lemma_blocks_feedless(md@);
    }
    while i < items.len()
        invariant
            i <= items.len(),
            20 <= width,
            all == item_views(items@),
            blocks_feedless(all),
            spaced(out@),
            whole == page(all, i as int, Page { text: out@, code: views(code@) }, width as nat),
        decreases items.len() - i,
    {
        assert(all[i as int] == items@[i as int]@);
        assert(block_feedless(all[i as int]));
        let ghost texts = views(code@);
        let ghost before = out@;
        match &items[i] {
            Item::Code { lang, lines } => {
                proof {
                    lemma_untabbed(chars_views(lines@));
                }
                let drawn = untab(lines);
                code_block(&mut out, lang, &drawn, code.len(), width);
                proof {
                    lemma_spaced_filled(
                        before,
                        code_box(lang@, chars_views(drawn@), code@.len(), width as nat),
                    );
                }
                let text = join_lines(lines);
                let ghost t = text@;
                code.push(text);
                assert(views(code@) =~= texts.push(t));
                i += 1;
            },
            Item::Text { line, centered } => {
                if let Some(aligns) = table_head(&items, i) {
                    let (rows, end) = table_body(&items, i);
                    table(&mut out, &rows, &aligns, width);
                    proof {
                        lemma_table_at(all, i as int, aligns@, width as nat);
                        lemma_spaced_filled(
                            before,
                            table_text(table_rows(all, i as int), aligns@, width as nat),
                        );
                    }
                    i = end;
                } else if trim_chars(line).len() == 0 {
                    if out.len() > 0 && !double_fed(&out) {
                        add_text(&mut out, "\n");
                        proof {
                            lemma_spaced_blank(before);
                        }
                    }
                    i += 1;
                } else {
                    place(&mut out, line, *centered, width);
                    proof {
                        lemma_placed(line@, *centered, width as nat);
                        lemma_spaced_filled(before, placed(line@, *centered, width as nat));
                    }
                    i += 1;
                }
            },
        }
    }
    Rendered { text: string_of(&out), code }
}

/// One digit of a hexadecimal number.
pub open spec fn hex_char(d: u64) -> char {
    if d < 10 {
        (48 + d) as char
    } else {
        (87 + d) as char
    }
}

/// A number as sixteen hexadecimal digits.
pub open spec fn hex16(n: u64) -> Seq<char> {
    Seq::new(16, |i: int| hex_char(n >> ((60 - 4 * i) as u64) & 0xf))
}

/// The cache file of the preview of a file, by a hash of its path.
pub fn preview_name(hash: u64) -> (r: String)
    ensures
        r@ == "preview-"@ + hex16(hash) + ".txt"@,
{
    let mut out = chars_of("preview-");
    let ghost head = out@;
    let mut i: usize = 0;
    assert(out@ =~= head + hex16(hash).take(0));
    while i < 16
        invariant
            i <= 16,
            out@ == head + hex16(hash).take(i as int),
        decreases 16 - i,
    {
        let shift: u64 = 60 - 4 * i as u64;
        let d: u64 = (hash >> shift) & 0xf;
        assert(d <= 15) by (bit_vector)
            requires
                d == (hash >> shift) & 0xf,
        ;
        let c: char = if d < 10 {
            (48 + d as u8) as char
        } else {
            (87 + d as u8) as char
        };
        assert(c == hex_char(d));
        out.push(c);
        assert(out@ =~= head + hex16(hash).take(i + 1));
        i += 1;
    }
    assert(hex16(hash).take(16) =~= hex16(hash));
    add_text(&mut out, ".txt");
    string_of(&out)
}

/// Render the bytes of a file for a pager of `width` columns.
pub fn preview(bytes: &[u8], width: usize) -> (r: Rendered)
    ensures
        r@ == rendered(lossy_text(bytes@), width as nat),
        spaced(r.text@),
{
    render(utf8_lossy(bytes).as_str(), width)
}

/// A page is never narrower than twenty columns.
pub proof fn lemma_narrow_pages(md: Seq<char>, width: nat)
    ensures
        width <= 20 ==> rendered(md, width) == rendered(md, 20),
{
}

/// A line of code loses as many spaces as its fence is indented by, and not
/// more than it has.
pub proof fn lemma_indented_code(line: Seq<char>, indent: nat)
    ensures
        code_line(line, 0) == line,
        code_line(seq![' '] + line, indent + 1) == code_line(line, indent),
        line.len() > 0 && line[0] != ' ' ==> code_line(line, indent) == line,
{
    let s = seq![' '] + line;
    assert(s.skip(1) =~= line);
    assert(line.skip(0) =~= line);
    assert(run_of(s, ' ') == 1 + run_of(line, ' '));
    let n = (if run_of(line, ' ') < indent {
        run_of(line, ' ')
    } else {
        indent
    }) as int;
    assert(s.skip(n + 1) =~= line.skip(n)) by {
        lemma_run_within(line);
    }
}

proof fn lemma_run_within(line: Seq<char>)
    ensures
        run_of(line, ' ') <= line.len(),
    decreases line.len(),
{
    if line.len() > 0 && line[0] == ' ' {
        lemma_run_within(line.skip(1));
    }
}

/// A file's extension is what stands behind the last dot of its name.
pub proof fn lemma_extensions(dir: Seq<char>, stem: Seq<char>, ext: Seq<char>)
    requires
        stem.len() > 0,
        !stem.contains('/'),
        ext.len() > 0,
        !ext.contains('/'),
        !ext.contains('.'),
    ensures
        extension(dir + seq!['/'] + (stem + seq!['.'] + ext)) == Some(ext),
{
    let n = stem + seq!['.'] + ext;
    assert(n.len() > 2);
    assert(!n.contains('/')) by {
        if n.contains('/') {
            let i = choose|i: int| 0 <= i < n.len() && n[i] == '/';
            if i < stem.len() {
                assert(stem.contains(stem[i]));
            } else if i > stem.len() {
                assert(ext.contains(ext[i - stem.len() - 1]));
            }
        }
    }
    crate::path::lemma_names_are_last(dir, n);
    crate::text::lemma_rfind_last(n, '.');
    assert(n[stem.len() as int] == '.');
    if rfind(n, '.') is Some {
        let k = rfind(n, '.')->0 as int;
        if k > stem.len() {
            assert(ext.contains(ext[k - stem.len() - 1]));
        }
    }
    assert(n.skip(stem.len() as int + 1) =~= ext);
}

/// Numbers are written with the sixteen digits, small letters after nine.
pub proof fn lemma_hex_characters(d: u64)
    requires
        d < 16,
    ensures
        d < 10 ==> hex_char(d) as int == '0' as int + d,
        d >= 10 ==> hex_char(d) as int == 'a' as int + d - 10,
{
}

} // verus!
