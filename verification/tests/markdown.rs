use alacritty_terminal::event::VoidListener;
use alacritty_terminal::grid::Dimensions;
use alacritty_terminal::index::{Column, Line};
use alacritty_terminal::term::{Config as TermConfig, Term};
use alacritty_terminal::vte::ansi::Processor;

use oxide::markdown::ansi::{escape_len, visible_width, wrap};
use oxide::markdown::highlight::highlight;
use oxide::markdown::table::{cells, table, table_aligns, Align};
use oxide::markdown::{is_markdown, preview, preview_name, render};

fn chars(s: &str) -> Vec<char> {
    s.chars().collect()
}

fn width_of(s: &str) -> usize {
    visible_width(&chars(s)) as usize
}

fn wrap_text(s: &str, width: usize, at_spaces: bool) -> Vec<String> {
    wrap(&chars(s), width, at_spaces).into_iter().map(|l| l.into_iter().collect()).collect()
}

fn inline_text(s: &str) -> String {
    oxide::markdown::inline::inline(&chars(s)).into_iter().collect()
}

/// What's left when the styling is gone: what the reader sees.
fn plain(s: &str) -> String {
    let all = chars(s);
    let mut out = String::new();
    let mut i = 0;
    while i < all.len() {
        if all[i] == '\x1b' {
            i += escape_len(&all[i..]);
        } else {
            out.push(all[i]);
            i += 1;
        }
    }
    out
}

/// The size of a terminal.
struct Screen {
    columns: usize,
    lines: usize,
}

impl Dimensions for Screen {
    fn total_lines(&self) -> usize {
        self.lines
    }

    fn screen_lines(&self) -> usize {
        self.lines
    }

    fn columns(&self) -> usize {
        self.columns
    }
}

#[test]
fn renders_blocks() {
    let md = "# Title\n#### Deep ##\n* * *\n  - nested\n- [x] done\n- [ ] todo\n> quoted\n1. first\n";
    let out = render(md, 80).text;
    assert!(out.contains("\x1b[1m\x1b[4mTitle\x1b[0m"), "{out}");
    assert!(
        out.contains("\x1b[1mDeep\x1b[0m"),
        "closing #s dropped: {out}"
    );
    assert!(out.contains(&"─".repeat(40)), "spaced rule is not a bullet");
    assert!(out.contains("    • nested"), "indent kept: {out}");
    assert!(out.contains("  ☑ done") && out.contains("  ☐ todo"));
    assert!(out.contains("│\x1b[0m quoted"));
    assert!(out.contains("1. first"));
}

#[test]
fn code_fences_are_boxed_and_verbatim() {
    let md = "  ````rust\n  ```\n    **not bold** <p> &amp;\n  ```\n  ````\nafter **bold**\n";
    let out = plain(&render(md, 40).text);
    let lines: Vec<&str> = out.lines().collect();
    assert_eq!(
        lines[..5],
        [
            "╭─ rust ────────── ⧉ copy ─╮",
            "│ ```                      │",
            "│   **not bold** <p> &amp; │",
            "│ ```                      │",
            "╰──────────────────────────╯",
        ],
        "shorter fence stays inside; fence indent stripped; nothing parsed"
    );
    assert_eq!(lines[5], "after bold", "fence closed");
}

#[test]
fn code_is_highlighted_and_copyable() {
    let md = "```toml\n# note\npreset = \"nord\"\n```\n\n```nonsense\nplain **text**\n```\n";
    let out = render(md, 60);
    assert_eq!(out.code, ["# note\npreset = \"nord\"", "plain **text**"]);
    assert!(
        out.text
            .contains("\x1b]8;;oxide-copy:0\x1b\\ ⧉ copy \x1b]8;;\x1b\\"),
        "the label is a hyperlink naming the block: {:?}",
        out.text
    );
    assert!(out.text.contains("oxide-copy:1"));
    assert!(
        out.text.contains("\x1b[3;2m# note\x1b[0m"),
        "comment: dim italic, one span: {:?}",
        out.text
    );
    assert!(
        out.text.contains("\x1b[32m\"nord\"\x1b[0m"),
        "string: green"
    );
    assert!(
        out.text.contains("│\x1b[0m plain **text** "),
        "unknown language: boxed, not coloured"
    );
    for boxed in plain(&out.text).split("\n\n") {
        let widths: Vec<usize> = boxed.lines().map(width_of).collect();
        assert!(
            widths.iter().all(|w| *w == widths[0]),
            "the copy label doesn't skew the top edge: {boxed}"
        );
    }
}

/// What the pane's click handler relies on: once the rendering has been
/// through the terminal's parser, the label's cells carry the link.
#[test]
fn the_terminal_sees_the_copy_link() {
    let size = Screen { columns: 40, lines: 10 };
    let mut term = Term::new(TermConfig::default(), &size, VoidListener);
    let text = render("```sh\nls\n```\n\n```sh\npwd\n```\n", 40).text;
    let mut parser: Processor = Processor::new();
    parser.advance(&mut term, text.replace('\n', "\r\n").as_bytes());

    let uri_at = |line: i32, col: usize| {
        term.grid()[Line(line)][Column(col)]
            .hyperlink()
            .map(|l| l.uri().to_string())
    };
    let row: String = (0..40).map(|c| term.grid()[Line(0)][Column(c)].c).collect();
    let icon = row.chars().position(|c| c == '⧉').expect("label drawn");
    assert_eq!(uri_at(0, icon).as_deref(), Some("oxide-copy:0"));
    assert_eq!(
        uri_at(0, icon + 5).as_deref(),
        Some("oxide-copy:0"),
        "…copy"
    );
    assert_eq!(uri_at(0, icon - 2), None, "the border isn't part of it");
    assert_eq!(uri_at(1, icon), None, "nor is the code");
    assert_eq!(uri_at(4, icon).as_deref(), Some("oxide-copy:1"));
}

#[test]
fn highlighting_survives_a_wrap() {
    let out = render(
        "```rust\n// a comment that is much too long for this box\n```\n",
        24,
    )
    .text;
    let rows: Vec<&str> = out.lines().filter(|l| l.contains("\x1b[3;2m")).collect();
    assert!(
        rows.len() > 1,
        "each wrapped row reopens the style: {out:?}"
    );
    for line in plain(&out).lines() {
        assert_eq!(width_of(line), 24);
    }
}

#[test]
fn long_code_wraps_inside_the_box() {
    let out = plain(&render(&format!("```\n{}\n```\n", "x".repeat(50)), 24).text);
    for line in out.lines() {
        assert_eq!(width_of(line), 24, "{out}");
    }
    assert_eq!(out.lines().count(), 5, "50 chars over 20 columns: {out}");
}

#[test]
fn tables_align_and_fit() {
    let md = "| Key | Action |\n|:--|--:|\n| `a\\|b` | go |\n| c | **x** |\n";
    let out = plain(&render(md, 80).text);
    assert_eq!(
        out.lines().collect::<Vec<_>>(),
        [
            "┌─────┬────────┐",
            "│ Key │ Action │",
            "├─────┼────────┤",
            "│ a|b │     go │",
            "│ c   │      x │",
            "└─────┴────────┘",
        ]
    );
}

#[test]
fn wide_tables_wrap_cells_to_the_width() {
    let md = "| Keys | Action |\n|---|---|\n| `cmd-f` | search the scrollback with **regex** and a very long tail |\n| x | y |\n";
    let out = render(md, 40).text;
    let text = plain(&out);
    for line in text.lines() {
        assert_eq!(width_of(line), 40, "every row fills the width: {text}");
    }
    assert!(
        text.contains("│ cmd-f │"),
        "narrow column kept whole: {text}"
    );
    assert_eq!(
        text.matches('├').count(),
        1,
        "only the header is ruled off: {text}"
    );
    let flat = text.replace(['│', '\n'], " ");
    let flat = flat.split_whitespace().collect::<Vec<_>>().join(" ");
    assert!(flat.contains("with regex and a very long tail"), "{flat}");
}

#[test]
fn wrap_carries_styles_across_breaks() {
    let lines = wrap_text("aa \x1b[1mbb cc\x1b[0m dd", 5, true);
    assert_eq!(lines, ["aa \x1b[1mbb\x1b[0m", "\x1b[1mcc\x1b[0m dd"]);
    assert_eq!(wrap_text("abcdefg", 3, true), ["abc", "def", "g"]);
    assert_eq!(wrap_text("", 3, true), [""]);
}

#[test]
fn html_becomes_markdown() {
    let md = "<!-- hidden\nstill hidden --><p align=\"center\">\n  <img src=\"i.png\" width=\"9\" alt=\"Icon\" />\n</p>\n\n<h1 align=\"center\">Oxide</h1>\n<p>\n  A &amp; B<br/>\n  <em>it</em> <strong>b</strong> <kbd>k</kbd> <a href=\"https://x\">site</a>\n</p>\nVec<String> and `<p>` stay\n";
    let out = render(md, 40).text;
    let text = plain(&out);
    assert!(!text.contains("hidden") && !text.contains("<p align") && !text.contains("</"));
    assert!(text.contains("[image: Icon]"), "{text}");
    let title = out.lines().find(|l| l.contains("Oxide")).unwrap();
    assert!(title.contains("\x1b[1m\x1b[4mOxide"), "h1 is a heading");
    assert_eq!(plain(title), format!("{}Oxide", " ".repeat(17)), "centered");
    assert!(
        text.contains("  A & B\n"),
        "entity decoded, br breaks: {text}"
    );
    assert!(out.contains("\x1b[3mit\x1b[0m \x1b[1mb\x1b[0m \x1b[36mk\x1b[0m"));
    assert!(text.contains("site (https://x)"));
    assert!(text.contains("Vec<String> and <p> stay"), "{text}");
    assert!(
        !text.contains("\n\n\n"),
        "tag-only lines don't stack blanks"
    );
}

#[test]
fn inline_styles_and_links() {
    assert_eq!(inline_text("2 * 3 * 4"), "2 * 3 * 4");
    assert_eq!(inline_text("*it*"), "\x1b[3mit\x1b[0m");
    assert_eq!(
        inline_text("[docs](https://x \"t\")"),
        "\x1b[4mdocs\x1b[0m \x1b[2m(https://x)\x1b[0m"
    );
    assert_eq!(inline_text("[top](#top)"), "\x1b[4mtop\x1b[0m");
    assert_eq!(inline_text("![shot](a.png)"), "\x1b[3m[image: shot]\x1b[0m");
    assert_eq!(
        plain(&inline_text("[![CI](badge.svg)](https://ci)")),
        "[image: CI] (https://ci)",
        "a badge: image inside a link"
    );
    assert_eq!(inline_text("a [b] c"), "a [b] c");
}

#[test]
fn markdown_extensions() {
    assert!(is_markdown("/x/README.MD"));
    assert!(is_markdown("notes.markdown"));
    assert!(!is_markdown("md") && !is_markdown("a.mdx"));
}

#[test]
fn wide_and_combining_characters_are_measured() {
    assert_eq!(width_of("日本"), 4);
    assert_eq!(width_of("e\u{301}"), 1);
    assert_eq!(width_of("─│┌"), 3);
    assert_eq!(width_of("a\tb"), 2, "a control character has no column");
    assert_eq!(width_of("\x1b[1mab\x1b[0m"), 2);
    assert_eq!(width_of("\x1b]8;;x\x1b\\ab"), 2);
}

#[test]
fn wrapped_lines_fit_and_lose_nothing_but_spaces() {
    for text in ["the quick brown fox", "日本語 is wide", "\x1b[1mbold text here\x1b[0m end"] {
        for width in [2, 3, 7, 40] {
            let lines = wrap_text(text, width, true);
            for line in &lines {
                assert!(width_of(line) <= width, "{line:?} in {width}");
            }
            let seen: String = lines.iter().map(|l| plain(l)).collect();
            assert_eq!(seen.replace(' ', ""), plain(text).replace(' ', ""));
        }
    }
}

#[test]
fn a_space_at_the_edge_is_the_break() {
    assert_eq!(wrap_text("abc def", 3, true), ["abc", "def"]);
    assert_eq!(wrap_text("abc def", 3, false), ["abc", " de", "f"]);
    assert_eq!(wrap_text("  ab", 3, true), ["ab"]);
}

#[test]
fn table_rows_are_cut_into_cells() {
    let row: Vec<String> =
        cells(&chars("| a | b\\|c | d |")).into_iter().map(|c| c.into_iter().collect()).collect();
    assert_eq!(row, ["a", "b|c", "d"]);
    assert_eq!(
        table_aligns(&chars("|:--|--:|:-:|---|")),
        Some(vec![Align::Left, Align::Right, Align::Center, Align::Left])
    );
    assert_eq!(table_aligns(&chars("| a | b |")), None);
}

#[test]
fn only_known_languages_are_coloured() {
    let code = vec![chars("let x = 1; // one")];
    assert!(highlight(&chars("nonsense"), &code).is_none());
    let coloured = highlight(&chars("rust"), &code).unwrap();
    let text: String = coloured[0].iter().collect();
    assert!(text.contains("\x1b[3;2m// one\x1b[0m"), "{text:?}");
    assert_eq!(plain(&text), "let x = 1; // one");
}

#[test]
fn copied_code_is_the_code_as_written() {
    let out = render("```make\nall:\n\tcc x.c\n```\n", 80);
    assert_eq!(out.code, ["all:\n\tcc x.c"]);
    assert!(!out.text.contains('\t'), "{:?}", out.text);
    assert!(plain(&out.text).contains("│     cc x.c"), "{:?}", plain(&out.text));
    let out = render("  ```\n    a\tb\n c\n  ```\n", 80);
    assert_eq!(out.code, ["  a\tb\nc"]);
}

#[test]
fn coloured_code_shows_the_code() {
    let code: Vec<Vec<char>> = ["fn main() {", "    println!(\"{}\", 1 + 2);", "}", ""]
        .iter()
        .map(|l| chars(l))
        .collect();
    for lang in ["rust", "rs", "python", "sh", "js"] {
        let shown = highlight(&chars(lang), &code).unwrap();
        assert_eq!(shown.len(), code.len());
        for (s, c) in shown.iter().zip(&code) {
            assert_eq!(chars(&plain(&s.iter().collect::<String>())), *c, "{lang}");
        }
    }
}

#[test]
fn hard_wrapping_keeps_every_space() {
    for text in ["a  b   c    d", "\x1b[1m  bold  \x1b[0m  end ", "日本 語"] {
        for width in [2, 3, 5, 40] {
            let seen: String = wrap_text(text, width, false).iter().map(|l| plain(l)).collect();
            assert_eq!(seen, plain(text), "{width}");
        }
    }
}

#[test]
fn blank_lines_neither_lead_nor_stack() {
    let docs = [
        "\n\n\n# A\n\n\n\nb\n",
        "<p align=\"center\">\n<img src=\"x\">\n</p>\n\n<br>\n<br><br>\ntext<br>\n\n\n",
        "```rust\n\n\nfn x() {}\n\n```\n\n\n| a |\n|---|\n|  |\n\n\n\n> q\n",
        "<!-- a\n\n b -->\n\nx\n",
    ];
    for doc in docs {
        let text = render(doc, 40).text;
        assert!(!text.starts_with('\n'), "{text:?}");
        assert!(!text.contains("\n\n\n"), "{text:?}");
        assert!(text.ends_with('\n'), "{text:?}");
    }
    assert_eq!(render("\n\n", 40).text, "");
}

#[test]
fn a_table_without_columns_has_a_line_for_each_row() {
    let mut out: Vec<char> = Vec::new();
    table(&mut out, &vec![vec![chars("a")], Vec::new()], &Vec::new(), 40);
    let text = plain(&out.iter().collect::<String>());
    assert_eq!(text, "┌┐\n│\n├┤\n│\n└┘\n");
}

#[test]
fn previews_have_a_name_each() {
    assert_eq!(preview_name(0), "preview-0000000000000000.txt");
    assert_eq!(preview_name(0xdeadbeef), "preview-00000000deadbeef.txt");
    assert_eq!(preview_name(u64::MAX), "preview-ffffffffffffffff.txt");
}

#[test]
fn a_preview_survives_bad_bytes() {
    let out = preview(b"# A\xff\n", 40).text;
    assert!(out.contains("A\u{fffd}"), "{out:?}");
}

#[test]
fn a_narrow_tab_still_gets_twenty_columns() {
    assert_eq!(render("# T\n---\n", 1).text, render("# T\n---\n", 20).text);
}
