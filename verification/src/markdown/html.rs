//! The HTML that READMEs lean on, rewritten as markdown.
use vstd::prelude::*;

use crate::text::{
    add_chars, add_repeated, add_text, ascii_lowered, begins_with, chars_of, find_char,
    find_char_at, find_chars, find_seq, head_of, is_text, is_whitespace, lemma_find_char_first, lemma_find_seq, lemma_find_seq_first, lowered,
    repeated, same_chars, slice_of, starts, tail_of, trim, trim_chars, whitespace,
};

verus! {

/// Tags worth understanding. Anything else in angle brackets is left alone,
/// so `Vec<String>` in prose survives.
pub open spec fn known_tag(name: Seq<char>) -> bool {
    name == "a"@ || name == "b"@ || name == "blockquote"@ || name == "br"@ || name == "center"@ || name == "code"@ || name == "details"@ || name == "div"@ || name == "em"@ || name == "h1"@ || name == "h2"@ || name == "h3"@ || name == "h4"@ || name == "h5"@ || name == "h6"@ || name == "hr"@ || name == "i"@ || name == "img"@ || name == "kbd"@ || name == "li"@ || name == "ol"@ || name == "p"@ || name == "picture"@ || name == "samp"@ || name == "source"@ || name == "span"@ || name == "strong"@ || name == "sub"@ || name == "summary"@ || name == "sup"@ || name == "table"@ || name == "tbody"@ || name == "td"@ || name == "th"@ || name == "thead"@ || name == "tr"@ || name == "tt"@ || name == "ul"@
}

fn is_known_tag(name: &[char]) -> (r: bool)
    ensures
        r == known_tag(name@),
{
    is_text(name, "a") || is_text(name, "b") || is_text(name, "blockquote") || is_text(name, "br") || is_text(name, "center") || is_text(name, "code") || is_text(name, "details") || is_text(name, "div") || is_text(name, "em") || is_text(name, "h1") || is_text(name, "h2") || is_text(name, "h3") || is_text(name, "h4") || is_text(name, "h5") || is_text(name, "h6") || is_text(name, "hr") || is_text(name, "i") || is_text(name, "img") || is_text(name, "kbd") || is_text(name, "li") || is_text(name, "ol") || is_text(name, "p") || is_text(name, "picture") || is_text(name, "samp") || is_text(name, "source") || is_text(name, "span") || is_text(name, "strong") || is_text(name, "sub") || is_text(name, "summary") || is_text(name, "sup") || is_text(name, "table") || is_text(name, "tbody") || is_text(name, "td") || is_text(name, "th") || is_text(name, "thead") || is_text(name, "tr") || is_text(name, "tt") || is_text(name, "ul")
}

/// A character reference at the start of a text: how long it is, and what it
/// stands for.
pub ghost struct Entity {
    pub length: int,
    pub text: Seq<char>,
}

/// The character reference that `s` starts with.
pub open spec fn entity_at(s: Seq<char>) -> Option<Entity> {
    if begins_with(s, "&amp;"@) {
        Some(Entity { length: "&amp;"@.len() as int, text: "&"@ })
    } else if begins_with(s, "&lt;"@) {
        Some(Entity { length: "&lt;"@.len() as int, text: "<"@ })
    } else if begins_with(s, "&gt;"@) {
        Some(Entity { length: "&gt;"@.len() as int, text: ">"@ })
    } else if begins_with(s, "&quot;"@) {
        Some(Entity { length: "&quot;"@.len() as int, text: "\""@ })
    } else if begins_with(s, "&apos;"@) {
        Some(Entity { length: "&apos;"@.len() as int, text: "'"@ })
    } else if begins_with(s, "&#39;"@) {
        Some(Entity { length: "&#39;"@.len() as int, text: "'"@ })
    } else if begins_with(s, "&nbsp;"@) {
        Some(Entity { length: "&nbsp;"@.len() as int, text: " "@ })
    } else if begins_with(s, "&mdash;"@) {
        Some(Entity { length: "&mdash;"@.len() as int, text: "—"@ })
    } else if begins_with(s, "&ndash;"@) {
        Some(Entity { length: "&ndash;"@.len() as int, text: "–"@ })
    } else if begins_with(s, "&hellip;"@) {
        Some(Entity { length: "&hellip;"@.len() as int, text: "…"@ })
    } else if begins_with(s, "&rarr;"@) {
        Some(Entity { length: "&rarr;"@.len() as int, text: "→"@ })
    } else if begins_with(s, "&larr;"@) {
        Some(Entity { length: "&larr;"@.len() as int, text: "←"@ })
    } else if begins_with(s, "&copy;"@) {
        Some(Entity { length: "&copy;"@.len() as int, text: "©"@ })
    } else {
        None
    }
}

fn find_entity(s: &[char]) -> (r: Option<(usize, &'static str)>)
    ensures
        match r {
            None => entity_at(s@) is None,
            Some((n, t)) => entity_at(s@) == Some(Entity { length: n as int, text: t@ }) && 0 < n
                <= s@.len(),
        },
{
    proof {
        reveal_strlit("&amp;");
        reveal_strlit("&lt;");
        reveal_strlit("&gt;");
        reveal_strlit("&quot;");
        reveal_strlit("&apos;");
        reveal_strlit("&#39;");
        reveal_strlit("&nbsp;");
        reveal_strlit("&mdash;");
        reveal_strlit("&ndash;");
        reveal_strlit("&hellip;");
        reveal_strlit("&rarr;");
        reveal_strlit("&larr;");
        reveal_strlit("&copy;");
    }
    if starts(s, "&amp;") {
        Some((chars_of("&amp;").len(), "&"))
    } else if starts(s, "&lt;") {
        Some((chars_of("&lt;").len(), "<"))
    } else if starts(s, "&gt;") {
        Some((chars_of("&gt;").len(), ">"))
    } else if starts(s, "&quot;") {
        Some((chars_of("&quot;").len(), "\""))
    } else if starts(s, "&apos;") {
        Some((chars_of("&apos;").len(), "'"))
    } else if starts(s, "&#39;") {
        Some((chars_of("&#39;").len(), "'"))
    } else if starts(s, "&nbsp;") {
        Some((chars_of("&nbsp;").len(), " "))
    } else if starts(s, "&mdash;") {
        Some((chars_of("&mdash;").len(), "—"))
    } else if starts(s, "&ndash;") {
        Some((chars_of("&ndash;").len(), "–"))
    } else if starts(s, "&hellip;") {
        Some((chars_of("&hellip;").len(), "…"))
    } else if starts(s, "&rarr;") {
        Some((chars_of("&rarr;").len(), "→"))
    } else if starts(s, "&larr;") {
        Some((chars_of("&larr;").len(), "←"))
    } else if starts(s, "&copy;") {
        Some((chars_of("&copy;").len(), "©"))
    } else {
        None
    }
}

/// HTML state that outlives a line.
pub ghost struct HtmlState {
    pub in_comment: bool,
    /// The tag that turned centering on; its closing tag turns it off.
    pub center: Option<Seq<char>>,
    /// Centering was switched on somewhere in the line just converted.
    pub centered_here: bool,
    /// The `href` of an `<a>` waiting for its `</a>`.
    pub href: Option<Seq<char>>,
}

/// The state before the first line.
pub open spec fn html_start() -> HtmlState {
    HtmlState { in_comment: false, center: None, centered_here: false, href: None }
}

/// A tag: whether it closes, its name in lower case, its attributes, and how
/// long it is.
pub ghost struct Tag {
    pub closing: bool,
    pub name: Seq<char>,
    pub attrs: Seq<char>,
    pub length: int,
}

/// Whether a character is an ASCII letter or digit.
pub open spec fn ascii_alphanumeric(c: char) -> bool {
    'a' <= c <= 'z' || 'A' <= c <= 'Z' || '0' <= c <= '9'
}

/// How many ASCII letters and digits a text starts with.
pub open spec fn name_length(s: Seq<char>) -> nat
    decreases s.len(),
{
    if s.len() > 0 && ascii_alphanumeric(s[0]) {
        1 + name_length(s.skip(1))
    } else {
        0
    }
}

/// The known tag that `s`, which begins with `<`, starts with.
pub open spec fn tag_at(s: Seq<char>) -> Option<Tag> {
    let end = find_char(s, '>') as int;
    if end >= s.len() || end < 1 {
        None
    } else {
        let inside = s.subrange(1, end);
        let closing = inside.len() > 0 && inside[0] == '/';
        let body = if closing {
            inside.skip(1)
        } else {
            inside
        };
        let n = name_length(body) as int;
        let name = ascii_lowered(body.take(n));
        let attrs = body.skip(n);
        if known_tag(name) && (attrs.len() == 0 || whitespace(attrs[0]) || attrs[0] == '/') {
            Some(Tag { closing, name, attrs, length: end + 1 })
        } else {
            None
        }
    }
}

/// The quoted value of `name="…"` in a tag's attributes.
pub open spec fn attribute(attrs: Seq<char>, name: Seq<char>) -> Option<Seq<char>> {
    match find_seq(attrs, name + "="@) {
        None => None,
        Some(at) => {
            let rest = attrs.skip(at as int + name.len() + 1);
            if rest.len() > 0 && (rest[0] == '"' || rest[0] == '\'') {
                let value = rest.skip(1);
                let end = find_char(value, rest[0]) as int;
                if end < value.len() {
                    Some(value.take(end))
                } else {
                    None
                }
            } else {
                None
            }
        },
    }
}

/// The level of a heading tag, 0 for other tags.
pub open spec fn heading_level(name: Seq<char>) -> nat {
    if name == "h1"@ {
        1
    } else if name == "h2"@ {
        2
    } else if name == "h3"@ {
        3
    } else if name == "h4"@ {
        4
    } else if name == "h5"@ {
        5
    } else if name == "h6"@ {
        6
    } else {
        0
    }
}

/// A text that may be missing, as the empty one where it is.
pub open spec fn or_empty(s: Option<Seq<char>>) -> Seq<char> {
    match s {
        None => ""@,
        Some(t) => t,
    }
}

/// What a tag is in markdown. `starts_line` is whether nothing but white
/// space stands before it.
pub open spec fn tag_text(t: Tag, starts_line: bool, href: Option<Seq<char>>) -> Seq<char> {
    if heading_level(t.name) > 0 && !t.closing && starts_line {
        repeated('#', heading_level(t.name)) + " "@
    } else if t.name == "strong"@ || t.name == "b"@ {
        "**"@
    } else if t.name == "em"@ || t.name == "i"@ {
        "*"@
    } else if t.name == "code"@ || t.name == "kbd"@ || t.name == "samp"@ || t.name == "tt"@ {
        "`"@
    } else if t.name == "summary"@ {
        if t.closing {
            "**"@
        } else {
            "**▸ "@
        }
    } else if t.name == "a"@ {
        if !t.closing {
            if attribute(t.attrs, "href"@) is Some {
                "["@
            } else {
                ""@
            }
        } else {
            match href {
                None => ""@,
                Some(h) => "]("@ + h + ")"@,
            }
        }
    } else if t.name == "img"@ && !t.closing {
        "!["@ + or_empty(attribute(t.attrs, "alt"@)) + "]("@ + or_empty(
            attribute(t.attrs, "src"@),
        ) + ")"@
    } else if t.name == "li"@ && !t.closing && starts_line {
        "- "@
    } else if t.name == "hr"@ && starts_line {
        "---"@
    } else if t.name == "blockquote"@ && !t.closing && starts_line {
        "> "@
    } else if t.name == "br"@ {
        "\n"@
    } else {
        ""@
    }
}

impl HtmlState {
    /// The state after a tag.
    pub open spec fn after_tag(self, t: Tag) -> HtmlState {
        let turns_on = !t.closing && (t.name == "center"@ || attribute(t.attrs, "align"@) == Some(
            "center"@,
        ));
        HtmlState {
            in_comment: self.in_comment,
            center: if turns_on {
                Some(t.name)
            } else if t.closing && self.center == Some(t.name) {
                None
            } else {
                self.center
            },
            centered_here: self.centered_here || turns_on,
            href: if t.name == "a"@ {
                if t.closing {
                    None
                } else {
                    attribute(t.attrs, "href"@)
                }
            } else {
                self.href
            },
        }
    }
}

/// A line being rewritten.
pub ghost struct Rewritten {
    pub html: HtmlState,
    pub out: Seq<char>,
}

/// What is left of a comment's line after its end.
pub open spec fn after_comment(rest: Seq<char>) -> Option<Seq<char>> {
    match find_seq(rest, "-->"@) {
        None => None,
        Some(n) => Some(rest.skip(n as int + 3)),
    }
}

/// What the rest of a line adds. `in_code` is whether it starts within an
/// inline code span, which is left untouched.
pub open spec fn rewrite(h: HtmlState, out: Seq<char>, line: Seq<char>, in_code: bool) -> Rewritten
    decreases line.len(),
{
    if h.in_comment && after_comment(line) is None {
        Rewritten { html: h, out }
    } else {
        let rest = if h.in_comment {
            after_comment(line)->0
        } else {
            line
        };
        let h = HtmlState { in_comment: false, ..h };
        proof {
            lemma_find_seq(line, "-->"@);
            reveal_strlit("-->");
            reveal_strlit("<!--");
            reveal_strlit("&amp;");
            reveal_strlit("&lt;");
            reveal_strlit("&gt;");
            reveal_strlit("&quot;");
            reveal_strlit("&apos;");
            reveal_strlit("&#39;");
            reveal_strlit("&nbsp;");
            reveal_strlit("&mdash;");
            reveal_strlit("&ndash;");
            reveal_strlit("&hellip;");
            reveal_strlit("&rarr;");
            reveal_strlit("&larr;");
            reveal_strlit("&copy;");
        }
        if rest.len() == 0 {
            Rewritten { html: h, out }
        } else {
            let c = rest[0];
            if c == '`' {
                rewrite(h, out.push(c), rest.skip(1), !in_code)
            } else if !in_code && begins_with(rest, "<!--"@) {
                rewrite(HtmlState { in_comment: true, ..h }, out, rest.skip(4), in_code)
            } else if !in_code && c == '<' && tag_at(rest) is Some {
                let t = tag_at(rest)->0;
                rewrite(
                    h.after_tag(t),
                    out + tag_text(t, trim(out).len() == 0, h.href),
                    rest.skip(t.length),
                    in_code,
                )
            } else if !in_code && c == '&' && entity_at(rest) is Some {
                let e = entity_at(rest)->0;
                rewrite(h, out + e.text, rest.skip(e.length), in_code)
            } else {
                rewrite(h, out.push(c), rest.skip(1), in_code)
            }
        }
    }
}

/// A line with its HTML rewritten as the markdown the renderer understands.
/// `<br>` yields a `\n`; inline code spans are left untouched.
pub open spec fn converted(h: HtmlState, line: Seq<char>) -> Rewritten {
    rewrite(HtmlState { centered_here: false, ..h }, Seq::empty(), line, false)
}

/// HTML state that outlives a line.
pub(crate) struct Html {
    in_comment: bool,
    center: Option<Vec<char>>,
    centered_here: bool,
    href: Option<Vec<char>>,
}

spec fn chars(s: Option<Vec<char>>) -> Option<Seq<char>> {
    match s {
        None => None,
        Some(v) => Some(v@),
    }
}

impl View for Html {
    type V = HtmlState;

    closed spec fn view(&self) -> HtmlState {
        HtmlState {
            in_comment: self.in_comment,
            center: chars(self.center),
            centered_here: self.centered_here,
            href: chars(self.href),
        }
    }
}

/// A tag as it was read.
struct TagRead {
    closing: bool,
    name: Vec<char>,
    attrs: Vec<char>,
    length: usize,
}

impl View for TagRead {
    type V = Tag;

    closed spec fn view(&self) -> Tag {
        Tag {
            closing: self.closing,
            name: self.name@,
            attrs: self.attrs@,
            length: self.length as int,
        }
    }
}

fn read_tag(s: &[char]) -> (r: Option<TagRead>)
    requires
        s@.len() > 0,
        s@[0] == '<',
    ensures
        match r {
            None => tag_at(s@) is None,
            Some(t) => tag_at(s@) == Some(t@) && 0 < t.length <= s@.len(),
        },
{
    let end = find_char_at(s, '>');
    if end >= s.len() || end < 1 {
        return None;
    }
    let inside = slice_of(s, 1, end);
    let closing = inside.len() > 0 && inside[0] == '/';
    let body = if closing {
        tail_of(&inside, 1)
    } else {
        inside.as_slice()
    };
    let mut n: usize = 0;
    assert(body@.skip(0) =~= body@);
    while n < body.len() && ((body[n] >= 'a' && body[n] <= 'z') || (body[n] >= 'A' && body[n]
        <= 'Z') || (body[n] >= '0' && body[n] <= '9'))
        invariant
            n <= body.len(),
            name_length(body@) == n + name_length(body@.skip(n as int)),
        decreases body.len() - n,
    {
        assert(body@.skip(n as int)[0] == body@[n as int]);
        assert(body@.skip(n as int).skip(1) =~= body@.skip(n + 1));
        n += 1;
    }
    proof {
        if n < body.len() {
            assert(body@.skip(n as int)[0] == body@[n as int]);
        }
    }
    let name = lowered(head_of(body, n));
    let attrs = slice_of(body, n, body.len());
    assert(attrs@ =~= body@.skip(n as int));
    if !is_known_tag(&name) || !(attrs.len() == 0 || is_whitespace(attrs[0]) || attrs[0] == '/') {
        return None;
    }
    Some(TagRead { closing, name, attrs, length: end + 1 })
}

fn attr(attrs: &[char], name: &str) -> (r: Option<Vec<char>>)
    ensures
        chars(r) == attribute(attrs@, name@),
{
    let mut key = chars_of(name);
    let n = key.len();
    add_text(&mut key, "=");
    proof {
        reveal_strlit("=");
    }
    match find_chars(attrs, &key) {
        None => None,
        Some(at) => {
            let total = attrs.len();
            assert(at + n + 1 <= total);
            let rest = tail_of(attrs, at + n + 1);
            if rest.len() == 0 || !(rest[0] == '"' || rest[0] == '\'') {
                return None;
            }
            let value = tail_of(rest, 1);
            let end = find_char_at(value, rest[0]);
            if end == value.len() {
                return None;
            }
            let r = slice_of(value, 0, end);
            assert(r@ =~= value@.take(end as int));
            Some(r)
        },
    }
}

fn level_of(name: &[char]) -> (n: usize)
    ensures
        n == heading_level(name@),
{
    if is_text(name, "h1") {
        1
    } else if is_text(name, "h2") {
        2
    } else if is_text(name, "h3") {
        3
    } else if is_text(name, "h4") {
        4
    } else if is_text(name, "h5") {
        5
    } else if is_text(name, "h6") {
        6
    } else {
        0
    }
}

fn copied(v: &Vec<char>) -> (r: Vec<char>)
    ensures
        r@ == v@,
{
    let r = slice_of(v, 0, v.len());
    assert(r@ =~= v@);
    r
}

fn add_value(out: &mut Vec<char>, value: &Option<Vec<char>>)
    ensures
        final(out)@ == old(out)@ + or_empty(chars(*value)),
{
    match value {
        None => {
            add_text(out, "");
        },
        Some(v) => {
            add_chars(out, v);
        },
    }
}

/// What a tag is in markdown.
fn write_tag(t: &TagRead, starts_line: bool, href: &Option<Vec<char>>) -> (r: Vec<char>)
    ensures
        r@ == tag_text(t@, starts_line, chars(*href)),
{
    let name = t.name.as_slice();
    let level = level_of(name);
    if level > 0 && !t.closing && starts_line {
        let mut r: Vec<char> = Vec::new();
        add_repeated(&mut r, '#', level);
        assert(r@ =~= repeated('#', level as nat));
        add_text(&mut r, " ");
        r
    } else if is_text(name, "strong") || is_text(name, "b") {
        chars_of("**")
    } else if is_text(name, "em") || is_text(name, "i") {
        chars_of("*")
    } else if is_text(name, "code") || is_text(name, "kbd") || is_text(name, "samp") || is_text(
        name,
        "tt",
    ) {
        chars_of("`")
    } else if is_text(name, "summary") {
        chars_of(
            if t.closing {
                "**"
            } else {
                "**▸ "
            },
        )
    } else if is_text(name, "a") {
        if !t.closing {
            chars_of(
                if attr(&t.attrs, "href").is_some() {
                    "["
                } else {
                    ""
                },
            )
        } else {
            match href {
                None => chars_of(""),
                Some(h) => {
                    let mut r = chars_of("](");
                    add_chars(&mut r, h);
                    add_text(&mut r, ")");
                    r
                },
            }
        }
    } else if is_text(name, "img") && !t.closing {
        let mut r = chars_of("![");
        add_value(&mut r, &attr(&t.attrs, "alt"));
        add_text(&mut r, "](");
        add_value(&mut r, &attr(&t.attrs, "src"));
        add_text(&mut r, ")");
        r
    } else if is_text(name, "li") && !t.closing && starts_line {
        chars_of("- ")
    } else if is_text(name, "hr") && starts_line {
        chars_of("---")
    } else if is_text(name, "blockquote") && !t.closing && starts_line {
        chars_of("> ")
    } else if is_text(name, "br") {
        chars_of("\n")
    } else {
        chars_of("")
    }
}

impl Html {
    pub(crate) fn new() -> (r: Self)
        ensures
            r@ == html_start(),
    {
        Html { in_comment: false, center: None, centered_here: false, href: None }
    }

    /// Whether lines are being centered.
    pub(crate) fn centering(&self) -> (r: bool)
        ensures
            r == (self@.center is Some),
    {
        self.center.is_some()
    }

    /// Whether centering was switched on in the line just converted.
    pub(crate) fn centered(&self) -> (r: bool)
        ensures
            r == self@.centered_here,
    {
        self.centered_here
    }

    /// Take note of a tag.
    fn tag(&mut self, t: &TagRead)
        ensures
            final(self)@ == old(self)@.after_tag(t@),
    {
        let turns_on = !t.closing && (is_text(&t.name, "center") || match attr(&t.attrs, "align") {
            None => false,
            Some(v) => is_text(&v, "center"),
        });
        if turns_on {
            self.center = Some(copied(&t.name));
            self.centered_here = true;
        } else if t.closing {
            let same = match &self.center {
                None => false,
                Some(c) => same_chars(c, &t.name),
            };
            if same {
                self.center = None;
            }
        }
        if is_text(&t.name, "a") {
            self.href = if t.closing {
                None
            } else {
                attr(&t.attrs, "href")
            };
        }
    }

    /// Rewrite the HTML in a line as the markdown the renderer understands.
    /// `<br>` yields a `\n`; inline code spans are left untouched.
    pub(crate) fn convert(&mut self, line: &[char]) -> (out: Vec<char>)
        ensures
            converted(old(self)@, line@) == (Rewritten { html: final(self)@, out: out@ }),
    {
        let mut out: Vec<char> = Vec::new();
        let mut in_code = false;
        self.centered_here = false;
        let mut i: usize = 0;
        let ghost whole = converted(old(self)@, line@);
        proof {
            assert(line@.skip(0) =~= line@);
            assert(out@ =~= Seq::empty());
            reveal_strlit("-->");
            reveal_strlit("<!--");
        }
        loop
            invariant
                i <= line.len(),
                "-->"@.len() == 3,
                "<!--"@.len() == 4,
                whole == rewrite(self@, out@, line@.skip(i as int), in_code),
            ensures
                whole == (Rewritten { html: self@, out: out@ }),
            decreases line.len() - i,
        {
            let ghost from = line@.skip(i as int);
            if self.in_comment {
                match find_chars(tail_of(line, i), &chars_of("-->")) {
                    None => {
                        break;
                    },
                    Some(n) => {
                        assert(from.skip(n as int + 3) =~= line@.skip(i + n + 3));
                        i = i + n + 3;
                        self.in_comment = false;
                    },
                }
            }
            let ghost rest = line@.skip(i as int);
            if i == line.len() {
                break;
            }
            assert(rest[0] == line@[i as int]);
            let c = line[i];
            let left = tail_of(line, i);
            let ghost before = out@;
            assert(rest.skip(1) =~= line@.skip(i + 1));
            if c == '`' {
                in_code = !in_code;
                out.push(c);
                i += 1;
            } else if !in_code && starts(left, "<!--") {
                self.in_comment = true;
                assert(rest.skip(4) =~= line@.skip(i + 4));
                i += 4;
            } else {
                let tag = if !in_code && c == '<' {
                    read_tag(left)
                } else {
                    None
                };
                let entity = if !in_code && c == '&' {
                    find_entity(left)
                } else {
                    None
                };
                if let Some(t) = tag {
                    let starts_line = trim_chars(&out).len() == 0;
                    let text = write_tag(&t, starts_line, &self.href);
                    add_chars(&mut out, &text);
                    self.tag(&t);
                    assert(rest.skip(t.length as int) =~= line@.skip(i + t.length));
                    i += t.length;
                } else if let Some((n, text)) = entity {
                    add_text(&mut out, text);
                    assert(rest.skip(n as int) =~= line@.skip(i + n));
                    i += n;
                } else {
                    out.push(c);
                    i += 1;
                }
            }
        }
        out
    }
}

// --- What the rewriting is for ---

/// Whether a text holds nothing that HTML or code starts with.
pub open spec fn unhtml(s: Seq<char>) -> bool {
    forall|i: int| 0 <= i < s.len() ==> #[trigger] s[i] != '<' && s[i] != '&' && s[i] != '`'
}

/// Text without HTML stays as it is, and what follows is rewritten as if the
/// text before it were already out.
pub proof fn lemma_text_stays(h: HtmlState, out: Seq<char>, a: Seq<char>, b: Seq<char>)
    requires
        !h.in_comment,
        unhtml(a),
    ensures
        rewrite(h, out, a + b, false) == rewrite(h, out + a, b, false),
    decreases a.len(),
{
    let s = a + b;
    if a.len() == 0 {
        assert(s =~= b);
        assert(out + a =~= out);
    } else {
        reveal_strlit("<!--");
        assert(s[0] == a[0]);
        assert(!begins_with(s, "<!--"@)) by {
            if begins_with(s, "<!--"@) {
                assert(s.take(4)[0] == '<');
            }
        }
        assert(s.skip(1) =~= a.skip(1) + b);
        assert(HtmlState { in_comment: false, ..h } == h);
        lemma_text_stays(h, out.push(a[0]), a.skip(1), b);
        assert(out.push(a[0]) + a.skip(1) =~= out + a);
    }
}

proof fn lemma_code_stays(h: HtmlState, out: Seq<char>, t: Seq<char>, b: Seq<char>)
    requires
        !h.in_comment,
        !t.contains('`'),
    ensures
        rewrite(h, out, t + seq!['`'] + b, true) == rewrite(h, out + t + seq!['`'], b, false),
    decreases t.len(),
{
    let s = t + seq!['`'] + b;
    assert(HtmlState { in_comment: false, ..h } == h);
    if t.len() == 0 {
        assert(s[0] == '`');
        assert(s.skip(1) =~= b);
        assert(out.push('`') =~= out + t + seq!['`']);
    } else {
        assert(s[0] == t[0]);
        assert(t.contains(t[0]));
        assert(s.skip(1) =~= t.skip(1) + seq!['`'] + b);
        assert(!t.skip(1).contains('`')) by {
            if t.skip(1).contains('`') {
                let k = choose|k: int| 0 <= k < t.skip(1).len() && t.skip(1)[k] == '`';
                assert(t[k + 1] == '`');
            }
        }
        lemma_code_stays(h, out.push(t[0]), t.skip(1), b);
        assert(out.push(t[0]) + t.skip(1) + seq!['`'] =~= out + t + seq!['`']);
    }
}

/// A code span is left untouched, whatever stands in it.
pub proof fn lemma_code_spans_stay(h: HtmlState, out: Seq<char>, t: Seq<char>, b: Seq<char>)
    requires
        !h.in_comment,
        !t.contains('`'),
    ensures
        rewrite(h, out, seq!['`'] + t + seq!['`'] + b, false) == rewrite(
            h,
            out + seq!['`'] + t + seq!['`'],
            b,
            false,
        ),
{
    let s = seq!['`'] + t + seq!['`'] + b;
    assert(s[0] == '`');
    assert(s.skip(1) =~= t + seq!['`'] + b);
    assert(HtmlState { in_comment: false, ..h } == h);
    lemma_code_stays(h, out.push('`'), t, b);
    assert(out.push('`') + t + seq!['`'] =~= out + seq!['`'] + t + seq!['`']);
}

/// A comment is dropped whole, and what follows it is rewritten as if it had
/// not been there. One that does not end on its line hides the rest of it and
/// goes on.
pub proof fn lemma_comments_are_dropped(h: HtmlState, out: Seq<char>, t: Seq<char>, b: Seq<char>)
    requires
        !h.in_comment,
        !t.contains('>'),
    ensures
        rewrite(h, out, "<!--"@ + t + "-->"@ + b, false) == rewrite(h, out, b, false),
        rewrite(h, out, "<!--"@ + t, false) == (Rewritten {
            html: HtmlState { in_comment: true, ..h },
            out,
        }),
{
    reveal_strlit("<!--");
    reveal_strlit("-->");
    let hidden = HtmlState { in_comment: true, ..h };
    assert(HtmlState { in_comment: false, ..h } == h);
    let s = "<!--"@ + t + "-->"@ + b;
    assert(s.take(4) =~= "<!--"@);
    assert(s[0] == '<');
    let inner = s.skip(4);
    assert(inner =~= t + "-->"@ + b);
    lemma_comment_end(t, b);
    assert(inner.skip(t.len() as int + 3) =~= b);
    assert(rewrite(h, out, s, false) == rewrite(hidden, out, inner, false));
    assert(HtmlState { in_comment: false, ..hidden } == h);
    let u = "<!--"@ + t;
    assert(u.take(4) =~= "<!--"@);
    assert(u[0] == '<');
    assert(u.skip(4) =~= t);
    lemma_find_seq_first(t, "-->"@);
    if find_seq(t, "-->"@) is Some {
        let n = find_seq(t, "-->"@)->0 as int;
        assert(t.subrange(n, n + 3)[2] == '>');
        assert(t.contains(t[n + 2]));
    }
    assert(rewrite(h, out, u, false) == rewrite(hidden, out, t, false));
    // What stands behind a comment is read as if the line started there.
    lemma_out_of_comment(h, out, inner, b);
}

proof fn lemma_comment_end(t: Seq<char>, b: Seq<char>)
    requires
        !t.contains('>'),
    ensures
        find_seq(t + "-->"@ + b, "-->"@) == Some(t.len()),
{
    reveal_strlit("-->");
    let s = t + "-->"@ + b;
    let n = t.len() as int;
    lemma_find_seq_first(s, "-->"@);
    assert(s.subrange(n, n + 3) =~= "-->"@);
    let k = find_seq(s, "-->"@)->0 as int;
    if k < n {
        assert(s.subrange(k, k + 3)[2] == '>');
        assert(s[k + 2] == '>');
        if k + 2 < n {
            assert(t.contains(t[k + 2]));
        }
    }
}

proof fn lemma_out_of_comment(h: HtmlState, out: Seq<char>, inner: Seq<char>, b: Seq<char>)
    requires
        !h.in_comment,
        after_comment(inner) == Some(b),
    ensures
        rewrite(HtmlState { in_comment: true, ..h }, out, inner, false) == rewrite(
            h,
            out,
            b,
            false,
        ),
{
    let hidden = HtmlState { in_comment: true, ..h };
    assert(HtmlState { in_comment: false, ..hidden } == h);
    assert(HtmlState { in_comment: false, ..h } == h);
}

/// Whether `source` in front of `b` is rewritten as `text`.
pub open spec fn stands_for(
    h: HtmlState,
    out: Seq<char>,
    source: Seq<char>,
    text: Seq<char>,
    b: Seq<char>,
) -> bool {
    rewrite(h, out, source + b, false) == rewrite(h, out + text, b, false)
}

proof fn lemma_entity_stands(
    h: HtmlState,
    out: Seq<char>,
    source: Seq<char>,
    text: Seq<char>,
    b: Seq<char>,
)
    requires
        !h.in_comment,
        source.len() > 0,
        source[0] == '&',
        entity_at(source + b) == Some(Entity { length: source.len() as int, text }),
    ensures
        stands_for(h, out, source, text, b),
{
    reveal_strlit("<!--");
    let s = source + b;
    assert(s[0] == '&');
    assert(!begins_with(s, "<!--"@)) by {
        if begins_with(s, "<!--"@) {
            assert(s.take(4)[0] == '<');
        }
    }
    assert(s.skip(source.len() as int) =~= b);
    assert(HtmlState { in_comment: false, ..h } == h);
}

/// The character references, spelled out.
proof fn lemma_reference_spellings()
    ensures
        "&amp;"@ =~= seq!['&', 'a', 'm', 'p', ';'],
        "&lt;"@ =~= seq!['&', 'l', 't', ';'],
        "&gt;"@ =~= seq!['&', 'g', 't', ';'],
        "&quot;"@ =~= seq!['&', 'q', 'u', 'o', 't', ';'],
        "&apos;"@ =~= seq!['&', 'a', 'p', 'o', 's', ';'],
        "&#39;"@ =~= seq!['&', '#', '3', '9', ';'],
        "&nbsp;"@ =~= seq!['&', 'n', 'b', 's', 'p', ';'],
        "&mdash;"@ =~= seq!['&', 'm', 'd', 'a', 's', 'h', ';'],
        "&ndash;"@ =~= seq!['&', 'n', 'd', 'a', 's', 'h', ';'],
        "&hellip;"@ =~= seq!['&', 'h', 'e', 'l', 'l', 'i', 'p', ';'],
        "&rarr;"@ =~= seq!['&', 'r', 'a', 'r', 'r', ';'],
        "&larr;"@ =~= seq!['&', 'l', 'a', 'r', 'r', ';'],
        "&copy;"@ =~= seq!['&', 'c', 'o', 'p', 'y', ';'],
{
    reveal_strlit("&amp;");
    reveal_strlit("&lt;");
    reveal_strlit("&gt;");
    reveal_strlit("&quot;");
    reveal_strlit("&apos;");
    reveal_strlit("&#39;");
    reveal_strlit("&nbsp;");
    reveal_strlit("&mdash;");
    reveal_strlit("&ndash;");
    reveal_strlit("&hellip;");
    reveal_strlit("&rarr;");
    reveal_strlit("&larr;");
    reveal_strlit("&copy;");
}

proof fn lemma_references(b: Seq<char>)
    ensures
        entity_at("&amp;"@ + b) == Some(Entity { length: 5, text: "&"@ }),
        entity_at("&lt;"@ + b) == Some(Entity { length: 4, text: "<"@ }),
        entity_at("&gt;"@ + b) == Some(Entity { length: 4, text: ">"@ }),
        entity_at("&quot;"@ + b) == Some(Entity { length: 6, text: "\""@ }),
        entity_at("&apos;"@ + b) == Some(Entity { length: 6, text: "'"@ }),
        entity_at("&#39;"@ + b) == Some(Entity { length: 5, text: "'"@ }),
        entity_at("&nbsp;"@ + b) == Some(Entity { length: 6, text: " "@ }),
        entity_at("&mdash;"@ + b) == Some(Entity { length: 7, text: "—"@ }),
        entity_at("&ndash;"@ + b) == Some(Entity { length: 7, text: "–"@ }),
        entity_at("&hellip;"@ + b) == Some(Entity { length: 8, text: "…"@ }),
        entity_at("&rarr;"@ + b) == Some(Entity { length: 6, text: "→"@ }),
        entity_at("&larr;"@ + b) == Some(Entity { length: 6, text: "←"@ }),
        entity_at("&copy;"@ + b) == Some(Entity { length: 6, text: "©"@ }),
{
    lemma_reference_spellings();
    let s0 = "&amp;"@ + b;
    assert(s0.take(5) =~= "&amp;"@);
    assert(s0[0] == '&' && s0[1] == 'a' && s0[2] == 'm' && s0[3] == 'p' && s0[4] == ';');
    let s1 = "&lt;"@ + b;
    assert(s1.take(4) =~= "&lt;"@);
    assert(s1[0] == '&' && s1[1] == 'l' && s1[2] == 't' && s1[3] == ';');
    let s2 = "&gt;"@ + b;
    assert(s2.take(4) =~= "&gt;"@);
    assert(s2[0] == '&' && s2[1] == 'g' && s2[2] == 't' && s2[3] == ';');
    let s3 = "&quot;"@ + b;
    assert(s3.take(6) =~= "&quot;"@);
    assert(s3[0] == '&' && s3[1] == 'q' && s3[2] == 'u' && s3[3] == 'o' && s3[4] == 't' && s3[5] == ';');
    let s4 = "&apos;"@ + b;
    assert(s4.take(6) =~= "&apos;"@);
    assert(s4[0] == '&' && s4[1] == 'a' && s4[2] == 'p' && s4[3] == 'o' && s4[4] == 's' && s4[5] == ';');
    let s5 = "&#39;"@ + b;
    assert(s5.take(5) =~= "&#39;"@);
    assert(s5[0] == '&' && s5[1] == '#' && s5[2] == '3' && s5[3] == '9' && s5[4] == ';');
    let s6 = "&nbsp;"@ + b;
    assert(s6.take(6) =~= "&nbsp;"@);
    assert(s6[0] == '&' && s6[1] == 'n' && s6[2] == 'b' && s6[3] == 's' && s6[4] == 'p' && s6[5] == ';');
    let s7 = "&mdash;"@ + b;
    assert(s7.take(7) =~= "&mdash;"@);
    assert(s7[0] == '&' && s7[1] == 'm' && s7[2] == 'd' && s7[3] == 'a' && s7[4] == 's' && s7[5] == 'h' && s7[6] == ';');
    let s8 = "&ndash;"@ + b;
    assert(s8.take(7) =~= "&ndash;"@);
    assert(s8[0] == '&' && s8[1] == 'n' && s8[2] == 'd' && s8[3] == 'a' && s8[4] == 's' && s8[5] == 'h' && s8[6] == ';');
    let s9 = "&hellip;"@ + b;
    assert(s9.take(8) =~= "&hellip;"@);
    assert(s9[0] == '&' && s9[1] == 'h' && s9[2] == 'e' && s9[3] == 'l' && s9[4] == 'l' && s9[5] == 'i' && s9[6] == 'p' && s9[7] == ';');
    let s10 = "&rarr;"@ + b;
    assert(s10.take(6) =~= "&rarr;"@);
    assert(s10[0] == '&' && s10[1] == 'r' && s10[2] == 'a' && s10[3] == 'r' && s10[4] == 'r' && s10[5] == ';');
    let s11 = "&larr;"@ + b;
    assert(s11.take(6) =~= "&larr;"@);
    assert(s11[0] == '&' && s11[1] == 'l' && s11[2] == 'a' && s11[3] == 'r' && s11[4] == 'r' && s11[5] == ';');
    let s12 = "&copy;"@ + b;
    assert(s12.take(6) =~= "&copy;"@);
    assert(s12[0] == '&' && s12[1] == 'c' && s12[2] == 'o' && s12[3] == 'p' && s12[4] == 'y' && s12[5] == ';');
    lemma_reference(s0, b);
    lemma_reference(s1, b);
    lemma_reference(s2, b);
    lemma_reference(s3, b);
    lemma_reference(s4, b);
    lemma_reference(s5, b);
    lemma_reference(s6, b);
    lemma_reference(s7, b);
    lemma_reference(s8, b);
    lemma_reference(s9, b);
    lemma_reference(s10, b);
    lemma_reference(s11, b);
    lemma_reference(s12, b);
}

proof fn lemma_reference(s: Seq<char>, b: Seq<char>)
    ensures
        begins_with(s, "&amp;"@) ==> s[0] == '&' && s[1] == 'a' && s[2] == 'm' && s[3] == 'p' && s[4] == ';',
        begins_with(s, "&lt;"@) ==> s[0] == '&' && s[1] == 'l' && s[2] == 't' && s[3] == ';',
        begins_with(s, "&gt;"@) ==> s[0] == '&' && s[1] == 'g' && s[2] == 't' && s[3] == ';',
        begins_with(s, "&quot;"@) ==> s[0] == '&' && s[1] == 'q' && s[2] == 'u' && s[3] == 'o' && s[4] == 't' && s[5] == ';',
        begins_with(s, "&apos;"@) ==> s[0] == '&' && s[1] == 'a' && s[2] == 'p' && s[3] == 'o' && s[4] == 's' && s[5] == ';',
        begins_with(s, "&#39;"@) ==> s[0] == '&' && s[1] == '#' && s[2] == '3' && s[3] == '9' && s[4] == ';',
        begins_with(s, "&nbsp;"@) ==> s[0] == '&' && s[1] == 'n' && s[2] == 'b' && s[3] == 's' && s[4] == 'p' && s[5] == ';',
        begins_with(s, "&mdash;"@) ==> s[0] == '&' && s[1] == 'm' && s[2] == 'd' && s[3] == 'a' && s[4] == 's' && s[5] == 'h' && s[6] == ';',
        begins_with(s, "&ndash;"@) ==> s[0] == '&' && s[1] == 'n' && s[2] == 'd' && s[3] == 'a' && s[4] == 's' && s[5] == 'h' && s[6] == ';',
        begins_with(s, "&hellip;"@) ==> s[0] == '&' && s[1] == 'h' && s[2] == 'e' && s[3] == 'l' && s[4] == 'l' && s[5] == 'i' && s[6] == 'p' && s[7] == ';',
        begins_with(s, "&rarr;"@) ==> s[0] == '&' && s[1] == 'r' && s[2] == 'a' && s[3] == 'r' && s[4] == 'r' && s[5] == ';',
        begins_with(s, "&larr;"@) ==> s[0] == '&' && s[1] == 'l' && s[2] == 'a' && s[3] == 'r' && s[4] == 'r' && s[5] == ';',
        begins_with(s, "&copy;"@) ==> s[0] == '&' && s[1] == 'c' && s[2] == 'o' && s[3] == 'p' && s[4] == 'y' && s[5] == ';',
{
    lemma_reference_spellings();
    if begins_with(s, "&amp;"@) {
        assert(s.take(5)[0] == '&' && s.take(5)[1] == 'a' && s.take(5)[2] == 'm' && s.take(5)[3] == 'p' && s.take(5)[4] == ';');
    }
    if begins_with(s, "&lt;"@) {
        assert(s.take(4)[0] == '&' && s.take(4)[1] == 'l' && s.take(4)[2] == 't' && s.take(4)[3] == ';');
    }
    if begins_with(s, "&gt;"@) {
        assert(s.take(4)[0] == '&' && s.take(4)[1] == 'g' && s.take(4)[2] == 't' && s.take(4)[3] == ';');
    }
    if begins_with(s, "&quot;"@) {
        assert(s.take(6)[0] == '&' && s.take(6)[1] == 'q' && s.take(6)[2] == 'u' && s.take(6)[3] == 'o' && s.take(6)[4] == 't' && s.take(6)[5] == ';');
    }
    if begins_with(s, "&apos;"@) {
        assert(s.take(6)[0] == '&' && s.take(6)[1] == 'a' && s.take(6)[2] == 'p' && s.take(6)[3] == 'o' && s.take(6)[4] == 's' && s.take(6)[5] == ';');
    }
    if begins_with(s, "&#39;"@) {
        assert(s.take(5)[0] == '&' && s.take(5)[1] == '#' && s.take(5)[2] == '3' && s.take(5)[3] == '9' && s.take(5)[4] == ';');
    }
    if begins_with(s, "&nbsp;"@) {
        assert(s.take(6)[0] == '&' && s.take(6)[1] == 'n' && s.take(6)[2] == 'b' && s.take(6)[3] == 's' && s.take(6)[4] == 'p' && s.take(6)[5] == ';');
    }
    if begins_with(s, "&mdash;"@) {
        assert(s.take(7)[0] == '&' && s.take(7)[1] == 'm' && s.take(7)[2] == 'd' && s.take(7)[3] == 'a' && s.take(7)[4] == 's' && s.take(7)[5] == 'h' && s.take(7)[6] == ';');
    }
    if begins_with(s, "&ndash;"@) {
        assert(s.take(7)[0] == '&' && s.take(7)[1] == 'n' && s.take(7)[2] == 'd' && s.take(7)[3] == 'a' && s.take(7)[4] == 's' && s.take(7)[5] == 'h' && s.take(7)[6] == ';');
    }
    if begins_with(s, "&hellip;"@) {
        assert(s.take(8)[0] == '&' && s.take(8)[1] == 'h' && s.take(8)[2] == 'e' && s.take(8)[3] == 'l' && s.take(8)[4] == 'l' && s.take(8)[5] == 'i' && s.take(8)[6] == 'p' && s.take(8)[7] == ';');
    }
    if begins_with(s, "&rarr;"@) {
        assert(s.take(6)[0] == '&' && s.take(6)[1] == 'r' && s.take(6)[2] == 'a' && s.take(6)[3] == 'r' && s.take(6)[4] == 'r' && s.take(6)[5] == ';');
    }
    if begins_with(s, "&larr;"@) {
        assert(s.take(6)[0] == '&' && s.take(6)[1] == 'l' && s.take(6)[2] == 'a' && s.take(6)[3] == 'r' && s.take(6)[4] == 'r' && s.take(6)[5] == ';');
    }
    if begins_with(s, "&copy;"@) {
        assert(s.take(6)[0] == '&' && s.take(6)[1] == 'c' && s.take(6)[2] == 'o' && s.take(6)[3] == 'p' && s.take(6)[4] == 'y' && s.take(6)[5] == ';');
    }
}

/// A character reference becomes the character it names.
pub proof fn lemma_character_references(h: HtmlState, out: Seq<char>, b: Seq<char>)
    requires
        !h.in_comment,
    ensures
        stands_for(h, out, "&amp;"@, "&"@, b),
        stands_for(h, out, "&lt;"@, "<"@, b),
        stands_for(h, out, "&gt;"@, ">"@, b),
        stands_for(h, out, "&quot;"@, "\""@, b),
        stands_for(h, out, "&apos;"@, "'"@, b),
        stands_for(h, out, "&#39;"@, "'"@, b),
        stands_for(h, out, "&nbsp;"@, " "@, b),
        stands_for(h, out, "&mdash;"@, "—"@, b),
        stands_for(h, out, "&ndash;"@, "–"@, b),
        stands_for(h, out, "&hellip;"@, "…"@, b),
        stands_for(h, out, "&rarr;"@, "→"@, b),
        stands_for(h, out, "&larr;"@, "←"@, b),
        stands_for(h, out, "&copy;"@, "©"@, b),
{
    lemma_reference_spellings();
    lemma_references(b);
    lemma_entity_stands(h, out, "&amp;"@, "&"@, b);
    lemma_entity_stands(h, out, "&lt;"@, "<"@, b);
    lemma_entity_stands(h, out, "&gt;"@, ">"@, b);
    lemma_entity_stands(h, out, "&quot;"@, "\""@, b);
    lemma_entity_stands(h, out, "&apos;"@, "'"@, b);
    lemma_entity_stands(h, out, "&#39;"@, "'"@, b);
    lemma_entity_stands(h, out, "&nbsp;"@, " "@, b);
    lemma_entity_stands(h, out, "&mdash;"@, "—"@, b);
    lemma_entity_stands(h, out, "&ndash;"@, "–"@, b);
    lemma_entity_stands(h, out, "&hellip;"@, "…"@, b);
    lemma_entity_stands(h, out, "&rarr;"@, "→"@, b);
    lemma_entity_stands(h, out, "&larr;"@, "←"@, b);
    lemma_entity_stands(h, out, "&copy;"@, "©"@, b);
}

/// A tag as it is written.
pub open spec fn tag_source(closing: bool, name: Seq<char>, attrs: Seq<char>) -> Seq<char> {
    (if closing {
        seq!['<', '/']
    } else {
        seq!['<']
    }) + name + attrs + seq!['>']
}

/// Whether a text is made of small letters and digits, as a tag's name is.
pub open spec fn small_name(s: Seq<char>) -> bool {
    s.len() > 0 && forall|i: int|
        0 <= i < s.len() ==> 'a' <= #[trigger] s[i] <= 'z' || '0' <= s[i] <= '9'
}

proof fn lemma_name_length(name: Seq<char>, rest: Seq<char>)
    requires
        forall|i: int| 0 <= i < name.len() ==> ascii_alphanumeric(#[trigger] name[i]),
        rest.len() == 0 || !ascii_alphanumeric(rest[0]),
    ensures
        name_length(name + rest) == name.len(),
    decreases name.len(),
{
    let s = name + rest;
    if name.len() > 0 {
        assert(s[0] == name[0]);
        assert(s.skip(1) =~= name.skip(1) + rest);
        lemma_name_length(name.skip(1), rest);
    } else {
        assert(s =~= rest);
    }
}

/// A known tag is read as its name and its attributes.
pub proof fn lemma_tag_reads(closing: bool, name: Seq<char>, attrs: Seq<char>, b: Seq<char>)
    requires
        small_name(name),
        known_tag(name),
        !attrs.contains('>'),
        attrs.len() == 0 || attrs[0] == ' ' || attrs[0] == '/',
    ensures
        tag_at(tag_source(closing, name, attrs) + b) == Some(
            Tag { closing, name, attrs, length: tag_source(closing, name, attrs).len() as int },
        ),
{
    let t = tag_source(closing, name, attrs);
    let s = t + b;
    let n = t.len() as int - 1;
    lemma_find_char_first(s, '>');
    assert(s[n] == '>');
    let end = find_char(s, '>') as int;
    if end < n {
        assert(s[end] == '>');
        assert(s[end] == t[end]);
        let k = if closing {
            2int
        } else {
            1
        };
        if end >= k + name.len() {
            assert(t[end] == attrs[end - k - name.len()]);
            assert(attrs.contains(attrs[end - k - name.len()]));
        } else if end >= k {
            assert(t[end] == name[end - k]);
        }
    }
    assert(end == n);
    let inside = s.subrange(1, end);
    let body = name + attrs;
    if closing {
        assert(inside =~= seq!['/'] + body);
        assert(inside.skip(1) =~= body);
    } else {
        assert(inside =~= body);
        assert(inside[0] == name[0]);
    }
    lemma_name_length(name, attrs);
    assert(body.take(name.len() as int) =~= name);
    assert(body.skip(name.len() as int) =~= attrs);
    assert(ascii_lowered(name) =~= name);
}

proof fn lemma_tag_step(
    h: HtmlState,
    out: Seq<char>,
    closing: bool,
    name: Seq<char>,
    attrs: Seq<char>,
    b: Seq<char>,
)
    requires
        !h.in_comment,
        small_name(name),
        known_tag(name),
        !attrs.contains('>'),
        attrs.len() == 0 || attrs[0] == ' ' || attrs[0] == '/',
    ensures
        ({
            let t = Tag {
                closing,
                name,
                attrs,
                length: tag_source(closing, name, attrs).len() as int,
            };
            rewrite(h, out, tag_source(closing, name, attrs) + b, false) == rewrite(
                h.after_tag(t),
                out + tag_text(t, trim(out).len() == 0, h.href),
                b,
                false,
            )
        }),
{
    reveal_strlit("<!--");
    let s = tag_source(closing, name, attrs) + b;
    lemma_tag_reads(closing, name, attrs, b);
    assert(s[0] == '<');
    assert(s[1] != '!') by {
        if !closing {
            assert(s[1] == name[0]);
        }
    }
    assert(!begins_with(s, "<!--"@)) by {
        if begins_with(s, "<!--"@) {
            assert(s.take(4)[1] == '!');
        }
    }
    assert(s.skip(tag_source(closing, name, attrs).len() as int) =~= b);
    assert(HtmlState { in_comment: false, ..h } == h);
}

/// The tags that these laws speak of, spelled out: they are all different.
proof fn lemma_tag_spellings()
    ensures
        "a"@[0] == 'a' && "b"@[0] == 'b' && "i"@[0] == 'i' && "p"@[0] == 'p',
        "strong"@.len() == 6 && "strong"@ =~= seq!['s', 't', 'r', 'o', 'n', 'g'],
        "b"@.len() == 1 && "b"@ =~= seq!['b'],
        "em"@.len() == 2 && "em"@ =~= seq!['e', 'm'],
        "i"@.len() == 1 && "i"@ =~= seq!['i'],
        "code"@.len() == 4 && "code"@ =~= seq!['c', 'o', 'd', 'e'],
        "kbd"@.len() == 3 && "kbd"@ =~= seq!['k', 'b', 'd'],
        "samp"@.len() == 4 && "samp"@ =~= seq!['s', 'a', 'm', 'p'],
        "tt"@.len() == 2 && "tt"@ =~= seq!['t', 't'],
        "summary"@.len() == 7 && "summary"@ =~= seq!['s', 'u', 'm', 'm', 'a', 'r', 'y'],
        "br"@.len() == 2 && "br"@ =~= seq!['b', 'r'],
        "p"@.len() == 1 && "p"@ =~= seq!['p'],
        "div"@.len() == 3 && "div"@ =~= seq!['d', 'i', 'v'],
        "span"@.len() == 4 && "span"@ =~= seq!['s', 'p', 'a', 'n'],
        "details"@.len() == 7 && "details"@ =~= seq!['d', 'e', 't', 'a', 'i', 'l', 's'],
        "ul"@.len() == 2 && "ul"@ =~= seq!['u', 'l'],
        "ol"@.len() == 2 && "ol"@ =~= seq!['o', 'l'],
        "table"@.len() == 5 && "table"@ =~= seq!['t', 'a', 'b', 'l', 'e'],
        "sub"@.len() == 3 && "sub"@ =~= seq!['s', 'u', 'b'],
        "sup"@.len() == 3 && "sup"@ =~= seq!['s', 'u', 'p'],
        "picture"@.len() == 7 && "picture"@ =~= seq!['p', 'i', 'c', 't', 'u', 'r', 'e'],
        "li"@.len() == 2 && "li"@ =~= seq!['l', 'i'],
        "blockquote"@.len() == 10 && "blockquote"@ =~= seq!['b', 'l', 'o', 'c', 'k', 'q', 'u', 'o', 't', 'e'],
        "hr"@.len() == 2 && "hr"@ =~= seq!['h', 'r'],
        "h1"@.len() == 2 && "h1"@ =~= seq!['h', '1'],
        "h2"@.len() == 2 && "h2"@ =~= seq!['h', '2'],
        "h3"@.len() == 2 && "h3"@ =~= seq!['h', '3'],
        "h4"@.len() == 2 && "h4"@ =~= seq!['h', '4'],
        "h5"@.len() == 2 && "h5"@ =~= seq!['h', '5'],
        "h6"@.len() == 2 && "h6"@ =~= seq!['h', '6'],
        "a"@.len() == 1 && "a"@ =~= seq!['a'],
        "img"@.len() == 3 && "img"@ =~= seq!['i', 'm', 'g'],
        "center"@.len() == 6 && "center"@ =~= seq!['c', 'e', 'n', 't', 'e', 'r'],
{
    reveal_strlit("strong");
    reveal_strlit("b");
    reveal_strlit("em");
    reveal_strlit("i");
    reveal_strlit("code");
    reveal_strlit("kbd");
    reveal_strlit("samp");
    reveal_strlit("tt");
    reveal_strlit("summary");
    reveal_strlit("br");
    reveal_strlit("p");
    reveal_strlit("div");
    reveal_strlit("span");
    reveal_strlit("details");
    reveal_strlit("ul");
    reveal_strlit("ol");
    reveal_strlit("table");
    reveal_strlit("sub");
    reveal_strlit("sup");
    reveal_strlit("picture");
    reveal_strlit("li");
    reveal_strlit("blockquote");
    reveal_strlit("hr");
    reveal_strlit("h1");
    reveal_strlit("h2");
    reveal_strlit("h3");
    reveal_strlit("h4");
    reveal_strlit("h5");
    reveal_strlit("h6");
    reveal_strlit("a");
    reveal_strlit("img");
    reveal_strlit("center");
}

/// A tag without attributes is rewritten as `text` and leaves the state as
/// it was.
pub open spec fn tag_stands_for(
    h: HtmlState,
    out: Seq<char>,
    closing: bool,
    name: Seq<char>,
    text: Seq<char>,
    b: Seq<char>,
) -> bool {
    stands_for(h, out, tag_source(closing, name, Seq::empty()), text, b)
}

proof fn lemma_no_attributes(name: Seq<char>)
    ensures
        attribute(Seq::empty(), name) is None,
{
    reveal_strlit("=");
    let e = Seq::<char>::empty();
    if begins_with(e, name + "="@) {
        assert(e.take((name + "="@).len() as int).len() == 0);
    }
}

proof fn lemma_plain_tag(
    h: HtmlState,
    out: Seq<char>,
    closing: bool,
    name: Seq<char>,
    text: Seq<char>,
    b: Seq<char>,
)
    requires
        !h.in_comment,
        closing ==> h.center is None,
        small_name(name),
        known_tag(name),
        name != "a"@,
        name != "center"@,
        tag_text(
            Tag {
                closing,
                name,
                attrs: Seq::empty(),
                length: tag_source(closing, name, Seq::empty()).len() as int,
            },
            trim(out).len() == 0,
            h.href,
        ) == text,
    ensures
        tag_stands_for(h, out, closing, name, text, b),
{
    lemma_no_attributes("align"@);
    lemma_tag_step(h, out, closing, name, Seq::empty(), b);
    let t = Tag {
        closing,
        name,
        attrs: Seq::empty(),
        length: tag_source(closing, name, Seq::empty()).len() as int,
    };
    assert(h.after_tag(t) == h);
}

/// Tags for strong and emphasised text and for code become the marks of
/// markdown, opening and closing alike.
pub proof fn lemma_style_tags(h: HtmlState, out: Seq<char>, b: Seq<char>)
    requires
        !h.in_comment,
        h.center is None,
    ensures
        tag_stands_for(h, out, false, "strong"@, "**"@, b),
        tag_stands_for(h, out, true, "strong"@, "**"@, b),
        tag_stands_for(h, out, false, "b"@, "**"@, b),
        tag_stands_for(h, out, true, "b"@, "**"@, b),
        tag_stands_for(h, out, false, "em"@, "*"@, b),
        tag_stands_for(h, out, true, "em"@, "*"@, b),
        tag_stands_for(h, out, false, "i"@, "*"@, b),
        tag_stands_for(h, out, true, "i"@, "*"@, b),
        tag_stands_for(h, out, false, "code"@, "`"@, b),
        tag_stands_for(h, out, true, "code"@, "`"@, b),
        tag_stands_for(h, out, false, "kbd"@, "`"@, b),
        tag_stands_for(h, out, true, "kbd"@, "`"@, b),
        tag_stands_for(h, out, false, "samp"@, "`"@, b),
        tag_stands_for(h, out, true, "samp"@, "`"@, b),
        tag_stands_for(h, out, false, "tt"@, "`"@, b),
        tag_stands_for(h, out, true, "tt"@, "`"@, b),
{
    lemma_tag_spellings();
    lemma_plain_tag(h, out, false, "strong"@, "**"@, b);
    lemma_plain_tag(h, out, true, "strong"@, "**"@, b);
    lemma_plain_tag(h, out, false, "b"@, "**"@, b);
    lemma_plain_tag(h, out, true, "b"@, "**"@, b);
    lemma_plain_tag(h, out, false, "em"@, "*"@, b);
    lemma_plain_tag(h, out, true, "em"@, "*"@, b);
    lemma_plain_tag(h, out, false, "i"@, "*"@, b);
    lemma_plain_tag(h, out, true, "i"@, "*"@, b);
    lemma_plain_tag(h, out, false, "code"@, "`"@, b);
    lemma_plain_tag(h, out, true, "code"@, "`"@, b);
    lemma_plain_tag(h, out, false, "kbd"@, "`"@, b);
    lemma_plain_tag(h, out, true, "kbd"@, "`"@, b);
    lemma_plain_tag(h, out, false, "samp"@, "`"@, b);
    lemma_plain_tag(h, out, true, "samp"@, "`"@, b);
    lemma_plain_tag(h, out, false, "tt"@, "`"@, b);
    lemma_plain_tag(h, out, true, "tt"@, "`"@, b);
}

/// `<br>` breaks the line, and a summary is bold behind a triangle.
pub proof fn lemma_break_and_summary(h: HtmlState, out: Seq<char>, b: Seq<char>)
    requires
        !h.in_comment,
        h.center is None,
    ensures
        tag_stands_for(h, out, false, "br"@, "\n"@, b),
        tag_stands_for(h, out, false, "summary"@, "**▸ "@, b),
        tag_stands_for(h, out, true, "summary"@, "**"@, b),
{
    lemma_tag_spellings();
    lemma_plain_tag(h, out, false, "br"@, "\n"@, b);
    lemma_plain_tag(h, out, false, "summary"@, "**▸ "@, b);
    lemma_plain_tag(h, out, true, "summary"@, "**"@, b);
}

/// Tags that only arrange leave nothing behind.
pub proof fn lemma_silent_tags(h: HtmlState, out: Seq<char>, b: Seq<char>)
    requires
        !h.in_comment,
        h.center is None,
    ensures
        tag_stands_for(h, out, false, "p"@, ""@, b),
        tag_stands_for(h, out, true, "p"@, ""@, b),
        tag_stands_for(h, out, false, "div"@, ""@, b),
        tag_stands_for(h, out, true, "div"@, ""@, b),
        tag_stands_for(h, out, false, "span"@, ""@, b),
        tag_stands_for(h, out, true, "span"@, ""@, b),
        tag_stands_for(h, out, false, "details"@, ""@, b),
        tag_stands_for(h, out, true, "details"@, ""@, b),
        tag_stands_for(h, out, false, "ul"@, ""@, b),
        tag_stands_for(h, out, true, "ul"@, ""@, b),
        tag_stands_for(h, out, false, "ol"@, ""@, b),
        tag_stands_for(h, out, true, "ol"@, ""@, b),
        tag_stands_for(h, out, false, "table"@, ""@, b),
        tag_stands_for(h, out, true, "table"@, ""@, b),
        tag_stands_for(h, out, false, "sub"@, ""@, b),
        tag_stands_for(h, out, true, "sub"@, ""@, b),
        tag_stands_for(h, out, false, "sup"@, ""@, b),
        tag_stands_for(h, out, true, "sup"@, ""@, b),
        tag_stands_for(h, out, false, "picture"@, ""@, b),
        tag_stands_for(h, out, true, "picture"@, ""@, b),
{
    lemma_tag_spellings();
    lemma_plain_tag(h, out, false, "p"@, ""@, b);
    lemma_plain_tag(h, out, true, "p"@, ""@, b);
    lemma_plain_tag(h, out, false, "div"@, ""@, b);
    lemma_plain_tag(h, out, true, "div"@, ""@, b);
    lemma_plain_tag(h, out, false, "span"@, ""@, b);
    lemma_plain_tag(h, out, true, "span"@, ""@, b);
    lemma_plain_tag(h, out, false, "details"@, ""@, b);
    lemma_plain_tag(h, out, true, "details"@, ""@, b);
    lemma_plain_tag(h, out, false, "ul"@, ""@, b);
    lemma_plain_tag(h, out, true, "ul"@, ""@, b);
    lemma_plain_tag(h, out, false, "ol"@, ""@, b);
    lemma_plain_tag(h, out, true, "ol"@, ""@, b);
    lemma_plain_tag(h, out, false, "table"@, ""@, b);
    lemma_plain_tag(h, out, true, "table"@, ""@, b);
    lemma_plain_tag(h, out, false, "sub"@, ""@, b);
    lemma_plain_tag(h, out, true, "sub"@, ""@, b);
    lemma_plain_tag(h, out, false, "sup"@, ""@, b);
    lemma_plain_tag(h, out, true, "sup"@, ""@, b);
    lemma_plain_tag(h, out, false, "picture"@, ""@, b);
    lemma_plain_tag(h, out, true, "picture"@, ""@, b);
}

/// At the start of a line, a heading tag becomes as many number signs as its
/// level, an item a dash, a quotation its mark and a rule three dashes.
pub proof fn lemma_line_tags(h: HtmlState, out: Seq<char>, b: Seq<char>)
    requires
        !h.in_comment,
        h.center is None,
        trim(out).len() == 0,
    ensures
        tag_stands_for(h, out, false, "h1"@, repeated('#', 1) + " "@, b),
        tag_stands_for(h, out, false, "h2"@, repeated('#', 2) + " "@, b),
        tag_stands_for(h, out, false, "h3"@, repeated('#', 3) + " "@, b),
        tag_stands_for(h, out, false, "h4"@, repeated('#', 4) + " "@, b),
        tag_stands_for(h, out, false, "h5"@, repeated('#', 5) + " "@, b),
        tag_stands_for(h, out, false, "h6"@, repeated('#', 6) + " "@, b),
        tag_stands_for(h, out, false, "li"@, "- "@, b),
        tag_stands_for(h, out, false, "blockquote"@, "> "@, b),
        tag_stands_for(h, out, false, "hr"@, "---"@, b),
{
    lemma_tag_spellings();
    lemma_plain_tag(h, out, false, "h1"@, repeated('#', 1) + " "@, b);
    lemma_plain_tag(h, out, false, "h2"@, repeated('#', 2) + " "@, b);
    lemma_plain_tag(h, out, false, "h3"@, repeated('#', 3) + " "@, b);
    lemma_plain_tag(h, out, false, "h4"@, repeated('#', 4) + " "@, b);
    lemma_plain_tag(h, out, false, "h5"@, repeated('#', 5) + " "@, b);
    lemma_plain_tag(h, out, false, "h6"@, repeated('#', 6) + " "@, b);
    lemma_plain_tag(h, out, false, "li"@, "- "@, b);
    lemma_plain_tag(h, out, false, "blockquote"@, "> "@, b);
    lemma_plain_tag(h, out, false, "hr"@, "---"@, b);
}


/// An attribute's value is what stands between its quotes, double or single.
pub proof fn lemma_attribute_reads(name: Seq<char>, value: Seq<char>, quote: char, rest: Seq<char>)
    requires
        small_name(name),
        quote == '"' || quote == '\'',
        !value.contains(quote),
    ensures
        attribute(seq![' '] + name + seq!['=', quote] + value + seq![quote] + rest, name) == Some(
            value,
        ),
{
    reveal_strlit("=");
    let s = seq![' '] + name + seq!['=', quote] + value + seq![quote] + rest;
    let key = name + "="@;
    let n = key.len() as int;
    lemma_find_seq_first(s, key);
    assert(s.subrange(1, 1 + n) =~= key);
    assert(key[0] == name[0]);
    assert(find_seq(s, key) == Some(1nat)) by {
        let k = find_seq(s, key)->0 as int;
        if k == 0 {
            assert(s.subrange(0, n)[0] == ' ');
        }
        if k > 1 {
            assert(s.subrange(1, 1 + n) != key);
        }
    }
    let after = s.skip(1 + n);
    assert(after[0] == quote);
    let v = after.skip(1);
    assert(v =~= value + seq![quote] + rest);
    lemma_find_char_first(v, quote);
    let end = find_char(v, quote) as int;
    assert(v[value.len() as int] == quote);
    if end < value.len() {
        assert(v[end] == value[end]);
        assert(value.contains(value[end]));
    }
    if end > value.len() {
        assert(v[value.len() as int] != quote);
    }
    assert(v.take(end) =~= value);
}

/// An anchor with an address becomes a link: its text in brackets and its
/// address in parentheses, and what follows is rewritten after it.
pub proof fn lemma_anchors_become_links(
    h: HtmlState,
    out: Seq<char>,
    url: Seq<char>,
    t: Seq<char>,
    b: Seq<char>,
)
    requires
        !h.in_comment,
        h.center is None,
        unhtml(t),
        !url.contains('"'),
        !url.contains('>'),
        attribute(seq![' '] + "href"@ + seq!['=', '"'] + url + seq!['"'], "align"@) is None,
    ensures
        rewrite(
            h,
            out,
            tag_source(false, "a"@, seq![' '] + "href"@ + seq!['=', '"'] + url + seq!['"']) + (t
                + (tag_source(true, "a"@, Seq::empty()) + b)),
            false,
        ) == rewrite(
            HtmlState { href: None, ..h },
            out + seq!['['] + t + seq![']', '('] + url + seq![')'],
            b,
            false,
        ),
{
    lemma_tag_spellings();
    reveal_strlit("href");
    reveal_strlit("[");
    reveal_strlit("](");
    reveal_strlit(")");
    let attrs = seq![' '] + "href"@ + seq!['=', '"'] + url + seq!['"'];
    assert(small_name("href"@));
    lemma_attribute_reads("href"@, url, '"', Seq::empty());
    assert(attrs + Seq::<char>::empty() =~= attrs);
    assert(!attrs.contains('>')) by {
        if attrs.contains('>') {
            let k = choose|k: int| 0 <= k < attrs.len() && attrs[k] == '>';
            if 7 <= k < 7 + url.len() {
                assert(attrs[k] == url[k - 7]);
                assert(url.contains(url[k - 7]));
            }
        }
    }
    let closing = tag_source(true, "a"@, Seq::empty()) + b;
    lemma_tag_step(h, out, false, "a"@, attrs, t + closing);
    let h1 = HtmlState { href: Some(url), ..h };
    let t1 = Tag {
        closing: false,
        name: "a"@,
        attrs,
        length: tag_source(false, "a"@, attrs).len() as int,
    };
    assert(h.after_tag(t1) == h1);
    assert(tag_text(t1, trim(out).len() == 0, h.href) == "["@);
    let out1 = out + "["@;
    lemma_text_stays(h1, out1, t, closing);
    lemma_tag_step(h1, out1 + t, true, "a"@, Seq::empty(), b);
    let t2 = Tag {
        closing: true,
        name: "a"@,
        attrs: Seq::empty(),
        length: tag_source(true, "a"@, Seq::empty()).len() as int,
    };
    assert(h1.after_tag(t2) == HtmlState { href: None, ..h });
    assert(tag_text(t2, trim(out1 + t).len() == 0, h1.href) == "]("@ + url + ")"@);
    assert(out1 + t + ("]("@ + url + ")"@) =~= out + seq!['['] + t + seq![']', '('] + url + seq![
        ')',
    ]);
}

/// Angle brackets that are no tag stay: so does `Vec<String>` in prose.
pub proof fn lemma_other_brackets_stay(h: HtmlState, out: Seq<char>, s: Seq<char>)
    requires
        !h.in_comment,
        s.len() > 1,
        s[0] == '<',
        s[1] != '!',
        tag_at(s) is None,
    ensures
        rewrite(h, out, s, false) == rewrite(h, out.push('<'), s.skip(1), false),
{
    reveal_strlit("<!--");
    assert(!begins_with(s, "<!--"@)) by {
        if begins_with(s, "<!--"@) {
            assert(s.take(4)[1] == '!');
        }
    }
    assert(HtmlState { in_comment: false, ..h } == h);
}

/// Centering goes from a tag that asks for it to the tag that closes it.
pub proof fn lemma_centering(h: HtmlState, t: Tag)
    ensures
        !t.closing && t.name == "center"@ ==> h.after_tag(t).center == Some(t.name)
            && h.after_tag(t).centered_here,
        !t.closing && attribute(t.attrs, "align"@) == Some("center"@) ==> h.after_tag(t).center
            == Some(t.name) && h.after_tag(t).centered_here,
        t.closing && h.center == Some(t.name) ==> h.after_tag(t).center is None,
        t.closing && h.center != Some(t.name) ==> h.after_tag(t).center == h.center,
        h.after_tag(t).in_comment == h.in_comment,
{
}

} // verus!
