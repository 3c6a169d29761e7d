//! Syntax highlighting: code in the colours of the terminal's palette.
use syntect::easy::HighlightLines;
use syntect::highlighting::{Color, FontStyle, Style, StyleModifier, ThemeItem};
use vstd::prelude::*;

use crate::markdown::ansi::reset;
use crate::markdown::wrapping::{feedless, lemma_painted, plain, shows};
use crate::text::{
    add_chars, add_text, chars_of, chars_views, decimal, join, joined, push_decimal, same_chars,
    strip_end, strip_end_of, views,
};

verus! {

/// The font styles that can be combined in a piece of code.
pub const BOLD: u8 = 1;

pub const UNDERLINE: u8 = 2;

pub const ITALIC: u8 = 4;

/// The slot of the default colour, dimmed.
pub const DIM_SLOT: u8 = 16;

/// The slot of no colour at all.
pub const PLAIN_SLOT: u8 = 255;

/// A scope selector and how what it matches looks. "Colours" are ANSI palette
/// slots, so code follows the terminal's theme instead of bringing its own: 0
/// to 15 the palette, `DIM_SLOT` the default colour dimmed, `PLAIN_SLOT` no
/// colour at all.
#[derive(Debug)]
pub struct ScopeStyle {
    pub selectors: &'static str,
    pub slot: u8,
    pub font: u8,
}

/// A scope style as plain values.
pub ghost struct StyleRow {
    pub selectors: Seq<char>,
    pub slot: u8,
    pub font: u8,
}

/// A run of code with one look.
#[derive(Debug)]
pub struct Piece {
    pub text: String,
    pub slot: u8,
    pub font: u8,
}

/// A run of code as plain values.
pub ghost struct PieceRow {
    pub text: Seq<char>,
    pub slot: u8,
    pub font: u8,
}

impl View for ScopeStyle {
    type V = StyleRow;

    open spec fn view(&self) -> StyleRow {
        style_row(self.selectors@, self.slot, self.font)
    }
}

impl View for Piece {
    type V = PieceRow;

    open spec fn view(&self) -> PieceRow {
        PieceRow { text: self.text@, slot: self.slot, font: self.font }
    }
}

pub open spec fn style_row(selectors: Seq<char>, slot: u8, font: u8) -> StyleRow {
    StyleRow { selectors, slot, font }
}

pub open spec fn style_rows(v: Seq<ScopeStyle>) -> Seq<StyleRow> {
    v.map_values(|s: ScopeStyle| s@)
}

pub open spec fn piece_rows(v: Seq<Piece>) -> Seq<PieceRow> {
    v.map_values(|p: Piece| p@)
}

pub open spec fn line_rows(v: Seq<Vec<Piece>>) -> Seq<Seq<PieceRow>> {
    v.map_values(|l: Vec<Piece>| piece_rows(l@))
}

/// The text of the pieces of a line, end to end.
pub open spec fn piece_text(line: Seq<PieceRow>) -> Seq<char>
    decreases line.len(),
{
    if line.len() == 0 {
        Seq::empty()
    } else {
        piece_text(line.drop_last()) + line.last().text
    }
}

/// A rule of a highlighting theme: a scope selector and a style.
#[verifier::external_type_specification]
#[verifier::external_body]
pub struct ExThemeItem(syntect::highlighting::ThemeItem);

/// The scope styles that a theme's rules are made of.
pub uninterp spec fn rule_styles(rules: Vec<syntect::highlighting::ThemeItem>) -> Seq<StyleRow>;

/// The pieces that the grammar of a language cuts some lines into, each
/// line with its line feed, styled by scope; text that no style matches has
/// the slot `plain`. `None` where there is no grammar for the language.
pub uninterp spec fn parsed_code(
    styles: Seq<StyleRow>,
    plain: u8,
    lang: Seq<char>,
    lines: Seq<Seq<char>>,
) -> Option<Seq<Seq<PieceRow>>>;

/// The rules of a syntect theme for the styles of `palette_styles`, in order:
/// selectors read by `ScopeSelectors`'s `from_str`, a slot carried as the red
/// part of a foreground colour, a font by `FontStyle::from_bits`. Other styles
/// are not for it: selectors that cannot be read would all match nothing.
#[verifier::external_body]
fn theme_rules(styles: &Vec<ScopeStyle>) -> (r: Vec<ThemeItem>)
    requires
        style_rows(styles@) == palette_styles(),
    ensures
        rule_styles(r) == style_rows(styles@),
{
    let slot = |r: u8| Some(Color { r, ..Color::BLACK });
    let style = |s: &ScopeStyle| StyleModifier {
        foreground: slot(s.slot),
        background: None,
        font_style: FontStyle::from_bits(s.font),
    };
    let scope = |s: &ScopeStyle| s.selectors.parse().unwrap_or_default();
    let item = |s: &ScopeStyle| ThemeItem { scope: scope(s), style: style(s) };
    styles.iter().map(item).collect()
}

/// Cuts code into pieces with `HighlightLines::highlight_line` of syntect,
/// with the grammar that `SyntaxSet::find_syntax_by_token` finds for `lang`
/// in the set of `two_face::syntax::extra_newlines` and a theme of the given
/// rules, in which other text has the slot `plain`. The result depends on
/// the arguments alone: the grammars are built into the crate. `None` where
/// there is no such grammar or it cannot be applied; else one list of pieces
/// for each line, which end to end make the line again: `HighlightIterator`,
/// which `highlight_line` collects, promises that.
#[verifier::external_body]
fn parse_code(rules: Vec<ThemeItem>, plain: u8, lang: &str, lines: &Vec<String>) -> (r: Option<
    Vec<Vec<Piece>>,
>)
    requires
        rule_styles(rules) == palette_styles(),
    ensures
        match r {
            None => parsed_code(rule_styles(rules), plain, lang@, views(lines@)) is None,
            Some(v) => parsed_code(rule_styles(rules), plain, lang@, views(lines@)) == Some(
                line_rows(v@),
            ),
        },
        r matches Some(v) ==> v@.len() == lines@.len() && forall|i: int|
            0 <= i < v@.len() ==> piece_text(#[trigger] line_rows(v@)[i]) == lines@[i]@,
{
    let set = two_face::syntax::extra_newlines();
    let mut theme = syntect::highlighting::Theme { scopes: rules, ..Default::default() };
    theme.settings.foreground = Some(Color { r: plain, ..Color::BLACK });
    let mut state = HighlightLines::new(set.find_syntax_by_token(lang)?, &theme);
    let piece = |(s, t): (Style, &str)| Piece {
        text: t.to_owned(),
        slot: s.foreground.r,
        font: s.font_style.bits(),
    };
    let cut = lines.iter().map(|l| state.highlight_line(l, &set).ok());
    cut.map(|v| v.map(|line| line.into_iter().map(piece).collect())).collect()
}

/// Scope selectors, palette slots and font styles. Comments are dimmed
/// rather than "bright black", which some palettes make nearly invisible.
pub open spec fn palette_styles() -> Seq<StyleRow> {
    seq![
        style_row("comment, punctuation.definition.comment"@, DIM_SLOT, ITALIC),
        style_row("string, punctuation.definition.string"@, 2, 0),
        style_row("string.regexp, constant.character.escape"@, 6, 0),
        style_row("constant.numeric, constant.language, constant.character, support.constant"@, 3, 0),
        style_row("keyword, storage"@, 5, 0),
        style_row("keyword.operator, punctuation"@, PLAIN_SLOT, 0),
        style_row("entity.name.function, support.function, support.macro, variable.function"@, 4, 0),
        style_row("entity.name.type, entity.name.class, entity.name.struct, entity.name.enum, entity.name.trait, support.type, support.class, entity.other.inherited-class"@, 3, 0),
        style_row("entity.name.tag, variable.language, variable.other.readwrite.shell, punctuation.definition.variable.shell"@, 1, 0),
        style_row("entity.other.attribute-name, variable.parameter.option, punctuation.definition.parameter"@, 6, 0),
        style_row("meta.mapping.key string, meta.mapping.key punctuation.definition.string, entity.name.tag.toml, entity.name.tag.yaml, support.type.property-name"@, 4, 0),
        style_row("entity.name.section, entity.name.table, markup.heading"@, 4, BOLD),
        style_row("markup.inserted, punctuation.definition.inserted"@, 2, 0),
        style_row("markup.deleted, punctuation.definition.deleted"@, 1, 0),
        style_row("markup.changed"@, 3, 0),
        style_row("meta.diff.header, meta.diff.range, punctuation.definition.range.diff"@, 6, 0),
        style_row("markup.bold"@, PLAIN_SLOT, BOLD),
        style_row("markup.italic"@, PLAIN_SLOT, ITALIC),
    ]
}

fn scope_styles() -> (v: Vec<ScopeStyle>)
    ensures
        style_rows(v@) == palette_styles(),
{
    let mut v: Vec<ScopeStyle> = Vec::new();
    v.push(ScopeStyle { selectors: "comment, punctuation.definition.comment", slot: DIM_SLOT, font: ITALIC });
    v.push(ScopeStyle { selectors: "string, punctuation.definition.string", slot: 2, font: 0 });
    v.push(ScopeStyle { selectors: "string.regexp, constant.character.escape", slot: 6, font: 0 });
    v.push(ScopeStyle { selectors: "constant.numeric, constant.language, constant.character, support.constant", slot: 3, font: 0 });
    v.push(ScopeStyle { selectors: "keyword, storage", slot: 5, font: 0 });
    v.push(ScopeStyle { selectors: "keyword.operator, punctuation", slot: PLAIN_SLOT, font: 0 });
    v.push(ScopeStyle { selectors: "entity.name.function, support.function, support.macro, variable.function", slot: 4, font: 0 });
    v.push(ScopeStyle { selectors: "entity.name.type, entity.name.class, entity.name.struct, entity.name.enum, entity.name.trait, support.type, support.class, entity.other.inherited-class", slot: 3, font: 0 });
    v.push(ScopeStyle { selectors: "entity.name.tag, variable.language, variable.other.readwrite.shell, punctuation.definition.variable.shell", slot: 1, font: 0 });
    v.push(ScopeStyle { selectors: "entity.other.attribute-name, variable.parameter.option, punctuation.definition.parameter", slot: 6, font: 0 });
    v.push(ScopeStyle { selectors: "meta.mapping.key string, meta.mapping.key punctuation.definition.string, entity.name.tag.toml, entity.name.tag.yaml, support.type.property-name", slot: 4, font: 0 });
    v.push(ScopeStyle { selectors: "entity.name.section, entity.name.table, markup.heading", slot: 4, font: BOLD });
    v.push(ScopeStyle { selectors: "markup.inserted, punctuation.definition.inserted", slot: 2, font: 0 });
    v.push(ScopeStyle { selectors: "markup.deleted, punctuation.definition.deleted", slot: 1, font: 0 });
    v.push(ScopeStyle { selectors: "markup.changed", slot: 3, font: 0 });
    v.push(ScopeStyle { selectors: "meta.diff.header, meta.diff.range, punctuation.definition.range.diff", slot: 6, font: 0 });
    v.push(ScopeStyle { selectors: "markup.bold", slot: PLAIN_SLOT, font: BOLD });
    v.push(ScopeStyle { selectors: "markup.italic", slot: PLAIN_SLOT, font: ITALIC });
    assert(style_rows(v@) =~= palette_styles());
    v
}

/// The SGR codes of a piece's look.
pub open spec fn look_codes(slot: u8, font: u8) -> Seq<Seq<char>> {
    let bold = if font & BOLD != 0 {
        seq!["1"@]
    } else {
        Seq::empty()
    };
    let italic = if font & ITALIC != 0 {
        seq!["3"@]
    } else {
        Seq::empty()
    };
    let underline = if font & UNDERLINE != 0 {
        seq!["4"@]
    } else {
        Seq::empty()
    };
    let colour = if slot <= 7 {
        seq![decimal((30 + slot) as nat)]
    } else if slot <= 15 {
        seq![decimal((82 + slot) as nat)]
    } else if slot == DIM_SLOT {
        seq!["2"@]
    } else {
        Seq::empty()
    };
    bold + italic + underline + colour
}

/// A piece's look as the middle of an SGR sequence.
pub open spec fn look(p: PieceRow) -> Seq<char> {
    join(look_codes(p.slot, p.font), ";"@)
}

/// A run of code and the SGR codes it is shown with.
pub ghost struct Run {
    pub codes: Seq<char>,
    pub text: Seq<char>,
}

/// The runs of a line, neighbours with the same codes merged.
pub open spec fn runs(line: Seq<PieceRow>) -> Seq<Run>
    decreases line.len(),
{
    if line.len() == 0 {
        Seq::empty()
    } else {
        let before = runs(line.drop_last());
        let p = line.last();
        let text = strip_end(p.text, '\n');
        if before.len() > 0 && before.last().codes == look(p) {
            before.drop_last().push(
                Run { codes: before.last().codes, text: before.last().text + text },
            )
        } else {
            before.push(Run { codes: look(p), text })
        }
    }
}

/// A run between the sequences that turn its look on and off.
pub open spec fn run_text(r: Run) -> Seq<char> {
    if r.codes.len() == 0 {
        r.text
    } else {
        "\x1b["@ + r.codes + "m"@ + r.text + reset()
    }
}

/// Runs one after the other.
pub open spec fn runs_text(v: Seq<Run>) -> Seq<char>
    decreases v.len(),
{
    if v.len() == 0 {
        Seq::empty()
    } else {
        runs_text(v.drop_last()) + run_text(v.last())
    }
}

/// A line of code in colour.
pub open spec fn painted(line: Seq<PieceRow>) -> Seq<char> {
    runs_text(runs(line))
}

/// The lines with their line feeds.
pub open spec fn fed(lines: Seq<Seq<char>>) -> Seq<Seq<char>> {
    lines.map_values(|l: Seq<char>| l + "\n"@)
}

/// The lines with SGR colour, or `None` when `lang` (a fence's info word:
/// a name or an extension) isn't a language there is a grammar for.
pub open spec fn highlighted(lang: Seq<char>, lines: Seq<Seq<char>>) -> Option<Seq<Seq<char>>> {
    match parsed_code(palette_styles(), PLAIN_SLOT, lang, fed(lines)) {
        None => None,
        Some(v) => Some(v.map_values(|l: Seq<PieceRow>| painted(l))),
    }
}

fn codes_of(slot: u8, font: u8) -> (r: Vec<char>)
    ensures
        r@ == join(look_codes(slot, font), ";"@),
{
    let mut codes: Vec<String> = Vec::new();
    if font & BOLD != 0 {
        codes.push("1".to_owned());
    }
    if font & ITALIC != 0 {
        codes.push("3".to_owned());
    }
    if font & UNDERLINE != 0 {
        codes.push("4".to_owned());
    }
    if slot <= 15 {
        let mut s = String::new();
        let n: u64 = if slot <= 7 {
            30 + slot as u64
        } else {
            82 + slot as u64
        };
        push_decimal(&mut s, n);
        assert(s@ =~= decimal(n as nat));
        codes.push(s);
    } else if slot == DIM_SLOT {
        codes.push("2".to_owned());
    }
    assert(views(codes@) =~= look_codes(slot, font));
    chars_of(joined(&codes, ";").as_str())
}

struct CodeRun {
    codes: Vec<char>,
    text: Vec<char>,
}

impl View for CodeRun {
    type V = Run;

    closed spec fn view(&self) -> Run {
        Run { codes: self.codes@, text: self.text@ }
    }
}

spec fn run_views(v: Seq<CodeRun>) -> Seq<Run> {
    v.map_values(|r: CodeRun| r@)
}

fn merge(line: &Vec<Piece>) -> (r: Vec<CodeRun>)
    ensures
        run_views(r@) == runs(piece_rows(line@)),
{
    let ghost all = piece_rows(line@);
    let mut out: Vec<CodeRun> = Vec::new();
    let mut i: usize = 0;
    assert(run_views(out@) =~= Seq::empty());
    assert(all.take(0) =~= Seq::empty());
    while i < line.len()
        invariant
            i <= line.len(),
            all == piece_rows(line@),
            run_views(out@) == runs(all.take(i as int)),
        decreases line.len() - i,
    {
        let ghost before = run_views(out@);
        proof {
            assert(all.take(i + 1).drop_last() =~= all.take(i as int));
            assert(all.take(i + 1).last() == line@[i as int]@);
        }
        let p = &line[i];
        let codes = codes_of(p.slot, p.font);
        let text = strip_end_of(&chars_of(p.text.as_str()), '\n');
        let ghost t = text@;
        let same = out.len() > 0 && same_chars(&out[out.len() - 1].codes, &codes);
        proof {
            if out.len() > 0 {
                assert(before.last() == out@[out@.len() - 1]@);
            }
        }
        if same {
            let last = out.len() - 1;
            let mut run = CodeRun { codes: Vec::new(), text: Vec::new() };
            std::mem::swap(&mut run, &mut out[last]);
            add_chars(&mut run.text, &text);
            out.set(last, run);
            assert(run_views(out@) =~= before.drop_last().push(
                Run { codes: before.last().codes, text: before.last().text + t },
            ));
        } else {
            let ghost k = codes@;
            out.push(CodeRun { codes, text });
            assert(run_views(out@) =~= before.push(Run { codes: k, text: t }));
        }
        i += 1;
    }
    assert(all.take(i as int) =~= all);
    out
}

/// A line of code in colour.
pub fn paint(line: &Vec<Piece>) -> (r: Vec<char>)
    ensures
        r@ == painted(piece_rows(line@)),
{
    let list = merge(line);
    let ghost all = run_views(list@);
    let mut out: Vec<char> = Vec::new();
    let mut i: usize = 0;
    assert(all.take(0) =~= Seq::empty());
    assert(out@ =~= Seq::empty());
    while i < list.len()
        invariant
            i <= list.len(),
            all == run_views(list@),
            out@ == runs_text(all.take(i as int)),
        decreases list.len() - i,
    {
        let ghost before = out@;
        proof {
            assert(all.take(i + 1).drop_last() =~= all.take(i as int));
            assert(all.take(i + 1).last() == list@[i as int]@);
        }
        let run = &list[i];
        if run.codes.len() == 0 {
            add_chars(&mut out, &run.text);
        } else {
            add_text(&mut out, "\x1b[");
            add_chars(&mut out, &run.codes);
            add_text(&mut out, "m");
            add_chars(&mut out, &run.text);
            add_text(&mut out, "\x1b[0m");
            assert(out@ =~= before + run_text(run@));
        }
        i += 1;
    }
    assert(all.take(i as int) =~= all);
    out
}

/// The lines of code in colour.
pub fn paint_lines(lines: &Vec<Vec<Piece>>) -> (r: Vec<Vec<char>>)
    ensures
        chars_views(r@) == line_rows(lines@).map_values(|l: Seq<PieceRow>| painted(l)),
{
    let mut out: Vec<Vec<char>> = Vec::new();
    let mut i: usize = 0;
    while i < lines.len()
        invariant
            i == out.len() <= lines.len(),
            forall|k: int|
                0 <= k < i ==> (#[trigger] out@[k])@ == painted(piece_rows(lines@[k]@)),
        decreases lines.len() - i,
    {
        out.push(paint(&lines[i]));
        i += 1;
    }
    assert(chars_views(out@) =~= line_rows(lines@).map_values(|l: Seq<PieceRow>| painted(l)));
    out
}

/// The lines with SGR colour, or `None` when `lang` (a fence's info word:
/// a name or an extension) isn't a language there is a grammar for.
pub fn highlight(lang: &[char], lines: &Vec<Vec<char>>) -> (r: Option<Vec<Vec<char>>>)
    ensures
        match r {
            None => highlighted(lang@, chars_views(lines@)) is None,
            Some(v) => highlighted(lang@, chars_views(lines@)) == Some(chars_views(v@)),
        },
        r matches Some(v) ==> v@.len() == lines@.len() && forall|i: int|
            0 <= i < v@.len() && feedless(lines@[i]@) ==> feedless((#[trigger] v@[i])@) && (plain(
                lines@[i]@,
            ) ==> shows(v@[i]@, lines@[i]@)),
{
    let mut feed: Vec<String> = Vec::new();
    let mut i: usize = 0;
    while i < lines.len()
        invariant
            i == feed.len() <= lines.len(),
            forall|k: int| 0 <= k < i ==> (#[trigger] feed@[k])@ == lines@[k]@ + "\n"@,
        decreases lines.len() - i,
    {
        let mut line = crate::text::string_of(&lines[i]);
        line.push_str("\n");
        feed.push(line);
        i += 1;
    }
    assert(views(feed@) =~= fed(chars_views(lines@)));
    let rules = theme_rules(&scope_styles());
    match parse_code(rules, PLAIN_SLOT, crate::text::string_of(lang).as_str(), &feed) {
        None => None,
        Some(pieces) => {
            let v = paint_lines(&pieces);
            proof {
                let rows = line_rows(pieces@);
                assert(chars_views(v@).len() == rows.len());
                assert forall|i: int| 0 <= i < v@.len() && feedless(lines@[i]@) implies feedless(
                    (#[trigger] v@[i])@,
                ) && (plain(lines@[i]@) ==> shows(v@[i]@, lines@[i]@)) by {
                    assert(chars_views(v@)[i] == painted(rows[i]));
                    assert(piece_text(rows[i]) == feed@[i]@);
                    lemma_painted(rows[i], lines@[i]@);
                }
            }
            Some(v)
        },
    }
}

/// Text without a font style is drawn in its colour: thirty and the slot for
/// the first eight, ninety and what is above eight for the bright ones, dim
/// for the slot behind them, and plain otherwise.
pub proof fn lemma_colour_codes(text: Seq<char>, slot: u8)
    ensures
        slot < 8 ==> look(PieceRow { text, slot, font: 0 }) == decimal((30 + slot) as nat),
        8 <= slot < 16 ==> look(PieceRow { text, slot, font: 0 }) == decimal(
            (90 + (slot - 8)) as nat,
        ),
        slot == 16 ==> look(PieceRow { text, slot, font: 0 }) == "2"@,
        slot > 16 ==> look(PieceRow { text, slot, font: 0 }) == Seq::<char>::empty(),
{
    assert(0u8 & 1u8 == 0 && 0u8 & 2u8 == 0 && 0u8 & 4u8 == 0) by (bit_vector);
    let e = Seq::<Seq<char>>::empty();
    let c = look_codes(slot, 0);
    if slot < 8 {
        assert(c =~= seq![decimal((30 + slot) as nat)]);
    } else if slot < 16 {
        assert(c =~= seq![decimal((82 + slot) as nat)]);
    } else if slot == 16 {
        assert(c =~= seq!["2"@]);
    } else {
        assert(c =~= e);
    }
}

/// Bold, italic and underlined text without a colour is marked as such.
pub proof fn lemma_font_codes(text: Seq<char>)
    ensures
        look(PieceRow { text, slot: 255, font: BOLD }) == "1"@,
        look(PieceRow { text, slot: 255, font: ITALIC }) == "3"@,
        look(PieceRow { text, slot: 255, font: UNDERLINE }) == "4"@,
{
    assert(1u8 & 1u8 != 0 && 1u8 & 2u8 == 0 && 1u8 & 4u8 == 0 && 2u8 & 1u8 == 0 && 2u8 & 2u8 != 0
        && 2u8 & 4u8 == 0 && 4u8 & 1u8 == 0 && 4u8 & 2u8 == 0 && 4u8 & 4u8 != 0) by (bit_vector);
    assert(look_codes(255, BOLD) =~= seq!["1"@]);
    assert(look_codes(255, ITALIC) =~= seq!["3"@]);
    assert(look_codes(255, UNDERLINE) =~= seq!["4"@]);
}

/// How code is coloured: comments dim and slanted, strings green, numbers
/// yellow, keywords magenta, functions blue; what was added green and what
/// was taken away red.
pub proof fn lemma_code_colours()
    ensures
        palette_styles().contains(
            style_row("comment, punctuation.definition.comment"@, 16, ITALIC),
        ),
        palette_styles().contains(style_row("string, punctuation.definition.string"@, 2, 0)),
        palette_styles().contains(
            style_row(
                "constant.numeric, constant.language, constant.character, support.constant"@,
                3,
                0,
            ),
        ),
        palette_styles().contains(style_row("keyword, storage"@, 5, 0)),
        palette_styles().contains(
            style_row(
                "entity.name.function, support.function, support.macro, variable.function"@,
                4,
                0,
            ),
        ),
        palette_styles().contains(
            style_row("markup.inserted, punctuation.definition.inserted"@, 2, 0),
        ),
        palette_styles().contains(
            style_row("markup.deleted, punctuation.definition.deleted"@, 1, 0),
        ),
{
    let s = palette_styles();
    assert(s[0] == style_row("comment, punctuation.definition.comment"@, 16, ITALIC));
    assert(s[1] == style_row("string, punctuation.definition.string"@, 2, 0));
    assert(s[3] == style_row(
        "constant.numeric, constant.language, constant.character, support.constant"@,
        3,
        0,
    ));
    assert(s[4] == style_row("keyword, storage"@, 5, 0));
    assert(s[6] == style_row(
        "entity.name.function, support.function, support.macro, variable.function"@,
        4,
        0,
    ));
    assert(s[12] == style_row("markup.inserted, punctuation.definition.inserted"@, 2, 0));
    assert(s[13] == style_row("markup.deleted, punctuation.definition.deleted"@, 1, 0));
}

} // verus!
