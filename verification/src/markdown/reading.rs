//! What a reader sees of a line of text: its marks are styles, and the text
//! between and behind them is all there.
use vstd::prelude::*;
use vstd::utf8::encode_utf8;

use crate::markdown::ansi::{bare, escape_length, final_at, reset, visible};
use crate::markdown::html::{converted, lemma_text_stays, unhtml, HtmlState, Rewritten};
use crate::markdown::inline::{lemma_link_shrinks, link_at, link_close, styled};
use crate::markdown::table::{delimiter_row, table_text};
use crate::markdown::wrapping::{
    feedless, lemma_escape_alone, lemma_join, lemma_plain, lemma_reset, plain, shows, terminated,
    tidy,
};
use crate::markdown::{
    beyond, bullet_text, closes_fence, code_box, code_line, heading_text, is_bullet, is_row,
    is_rule, lemma_rows_end, line_rendered, marks, once_broken, opens_fence, page, placed, reading,
    rows_end, table_at, table_rows, text_blocks, untabbed, without_closing, Block, Fence, Page,
    Reading,
};
use crate::text::{
    begins_with, blank, ends_with, find_char, find_seq, first_word, join, lemma_find_char_first,
    lemma_find_seq_first, lemma_trim_tight, lemma_word_len, repeated, run_of, split_on, tight, trim,
    trim_end, trim_start, whitespace, word_len,
};

verus! {

/// Whether a text holds nothing that inline markup starts with.
pub open spec fn unmarked(s: Seq<char>) -> bool {
    forall|i: int|
        0 <= i < s.len() ==> #[trigger] s[i] != '`' && s[i] != '*' && s[i] != '!' && s[i] != '['
            && s[i] != ']'
}

/// Whether a text holds neither bracket nor parenthesis.
pub open spec fn unbracketed(s: Seq<char>) -> bool {
    forall|i: int|
        0 <= i < s.len() ==> #[trigger] s[i] != '[' && s[i] != ']' && s[i] != '(' && s[i] != ')'
}

/// Text without marks is rendered as it is, and what follows it is rendered
/// as if it stood alone.
pub proof fn lemma_plain_text_stays(a: Seq<char>, b: Seq<char>)
    requires
        unmarked(a),
    ensures
        styled(a + b) == a + styled(b),
    decreases a.len(),
{
    let s = a + b;
    if a.len() == 0 {
        assert(s =~= b);
        assert(a + styled(b) =~= styled(b));
    } else {
        reveal_strlit("**");
        assert(s[0] == a[0]);
        assert(!begins_with(s, "**"@)) by {
            if begins_with(s, "**"@) {
                assert(s.take(2)[0] == '*');
            }
        }
        assert(link_close(s, 0, 0) is None);
        assert(s.skip(1) =~= a.skip(1) + b);
        lemma_plain_text_stays(a.skip(1), b);
        assert(styled(s) == seq![s[0]] + styled(s.skip(1)));
        assert(styled(s) =~= a + styled(b));
    }
}

proof fn lemma_found_behind(t: Seq<char>, c: char, rest: Seq<char>)
    requires
        !t.contains(c),
    ensures
        find_char(t + seq![c] + rest, c) == t.len(),
{
    let s = t + seq![c] + rest;
    lemma_find_char_first(s, c);
    let n = find_char(s, c) as int;
    assert(s[t.len() as int] == c);
    if n < t.len() {
        assert(s[n] == t[n]);
        assert(t.contains(t[n]));
    }
    if n > t.len() {
        assert(s[t.len() as int] != c);
    }
}

/// Text between backticks is shown in cyan, letter for letter, and what
/// follows is rendered as if it stood alone.
pub proof fn lemma_code_is_verbatim(t: Seq<char>, b: Seq<char>)
    requires
        !t.contains('`'),
    ensures
        styled(seq!['`'] + t + seq!['`'] + b) == "\x1b[36m"@ + t + reset() + styled(b),
{
    let s = seq!['`'] + t + seq!['`'] + b;
    let after = s.skip(1);
    assert(after =~= t + seq!['`'] + b);
    lemma_found_behind(t, '`', b);
    assert(after.take(t.len() as int) =~= t);
    assert(after.skip(t.len() as int + 1) =~= b);
}

/// Text between double stars is shown bold, rendered as it would be alone,
/// and so is what follows.
pub proof fn lemma_bold(t: Seq<char>, b: Seq<char>)
    requires
        !t.contains('*'),
    ensures
        styled(seq!['*', '*'] + t + seq!['*', '*'] + b) == "\x1b[1m"@ + styled(t) + reset()
            + styled(b),
{
    reveal_strlit("**");
    let s = seq!['*', '*'] + t + seq!['*', '*'] + b;
    assert(s.take(2) =~= "**"@);
    let inner = s.skip(2);
    let n = t.len() as int;
    assert(inner =~= t + seq!['*', '*'] + b);
    lemma_find_seq_first(inner, "**"@);
    assert(inner.subrange(n, n + 2) =~= "**"@);
    let k = find_seq(inner, "**"@)->0 as int;
    if find_seq(inner, "**"@) is Some && k < n {
        assert(inner.subrange(k, k + 2)[0] == '*');
        assert(inner[k] == t[k]);
        assert(t.contains(t[k]));
    }
    assert(k == n);
    assert(inner.take(n) =~= t);
    assert(inner.skip(n + 2) =~= b);
}

/// Text between single stars is shown in italics, letter for letter, and what
/// follows is rendered as if it stood alone.
pub proof fn lemma_italic(t: Seq<char>, b: Seq<char>)
    requires
        !t.contains('*'),
        t.len() > 0,
        t[0] != ' ',
    ensures
        styled(seq!['*'] + t + seq!['*'] + b) == "\x1b[3m"@ + t + reset() + styled(b),
{
    reveal_strlit("**");
    let s = seq!['*'] + t + seq!['*'] + b;
    let after = s.skip(1);
    assert(after =~= t + seq!['*'] + b);
    assert(s[1] == t[0]);
    assert(t.contains(t[0]));
    assert(!begins_with(s, "**"@)) by {
        if begins_with(s, "**"@) {
            assert(s.take(2)[1] == '*');
        }
    }
    lemma_found_behind(t, '*', b);
    assert(after[0] == t[0]);
    assert(after.take(t.len() as int) =~= t);
    assert(after.skip(t.len() as int + 1) =~= b);
}

proof fn lemma_bracket_closes(s: Seq<char>, i: int, end: int)
    requires
        1 <= i <= end < s.len(),
        s[end] == ']',
        forall|k: int| i <= k < end ==> #[trigger] s[k] != '[' && s[k] != ']',
    ensures
        link_close(s, i, 1) == Some(end),
    decreases end - i,
{
    if i < end {
        lemma_bracket_closes(s, i + 1, end);
    }
}

/// A link as it is written.
pub open spec fn link_source(t: Seq<char>, u: Seq<char>) -> Seq<char> {
    seq!['['] + t + seq![']', '('] + u + seq![')']
}

/// A link's text, target and rest are what stands between its brackets,
/// between its parentheses, and behind.
pub proof fn lemma_link_reads(t: Seq<char>, u: Seq<char>, b: Seq<char>)
    requires
        unbracketed(t),
        unbracketed(u),
    ensures
        link_at(link_source(t, u) + b) matches Some(l) && l.text == t && l.target == u && l.tail
            == b,
{
    let s = link_source(t, u) + b;
    let n = t.len() as int;
    assert forall|k: int| 1 <= k < n + 1 implies #[trigger] s[k] != '[' && s[k] != ']' by {
        assert(s[k] == t[k - 1]);
    }
    assert(s[n + 1] == ']' && s[n + 2] == '(');
    lemma_bracket_closes(s, 1, n + 1);
    assert(link_close(s, 0, 0) == Some(n + 1));
    let after = s.skip(n + 2);
    assert(after[0] == '(');
    let inner = after.skip(1);
    assert(inner =~= u + seq![')'] + b);
    assert(!u.contains(')')) by {
        if u.contains(')') {
            let k = choose|k: int| 0 <= k < u.len() && u[k] == ')';
            assert(u[k] != ')');
        }
    }
    lemma_found_behind(u, ')', b);
    assert(s.subrange(1, n + 1) =~= t);
    assert(inner.take(u.len() as int) =~= u);
    assert(inner.skip(u.len() as int + 1) =~= b);
}

/// The address shown behind a link: the first word of its target in
/// parentheses, unless there is none, it stays on the page, or it is the
/// text itself.
pub open spec fn shown_address(t: Seq<char>, u: Seq<char>) -> Seq<char> {
    let url = first_word(u);
    if url.len() == 0 || url[0] == '#' || url == t {
        Seq::empty()
    } else {
        " \x1b[2m("@ + url + ")\x1b[0m"@
    }
}

/// A link is shown as its text, underlined, and its address, and what follows
/// it is rendered as if it stood alone: nothing behind a link is lost.
pub proof fn lemma_link(t: Seq<char>, u: Seq<char>, b: Seq<char>)
    requires
        unbracketed(t),
        unbracketed(u),
    ensures
        styled(link_source(t, u) + b) == "\x1b[4m"@ + styled(t) + reset() + shown_address(t, u)
            + styled(b),
{
    let s = link_source(t, u) + b;
    lemma_link_reads(t, u, b);
    lemma_link_shrinks(s);
    reveal_strlit("**");
    assert(s[0] == '[');
    assert(!begins_with(s, "**"@)) by {
        if begins_with(s, "**"@) {
            assert(s.take(2)[0] == '*');
        }
    }
}

/// An image is shown as its alternative text, and what follows is rendered as
/// if it stood alone.
pub proof fn lemma_image(t: Seq<char>, u: Seq<char>, b: Seq<char>)
    requires
        unbracketed(t),
        unbracketed(u),
    ensures
        styled(seq!['!'] + link_source(t, u) + b) == (if t.len() == 0 {
            "\x1b[3m[image]\x1b[0m"@
        } else {
            "\x1b[3m[image: "@ + t + "]\x1b[0m"@
        }) + styled(b),
{
    let s = seq!['!'] + link_source(t, u) + b;
    let after = s.skip(1);
    assert(after =~= link_source(t, u) + b);
    lemma_link_reads(t, u, b);
    lemma_link_shrinks(after);
    reveal_strlit("**");
    assert(!begins_with(s, "**"@)) by {
        if begins_with(s, "**"@) {
            assert(s.take(2)[0] == '*');
        }
    }
    reveal_strlit("\x1b[3m[image");
    reveal_strlit("\x1b[3m[image: ");
    reveal_strlit("\x1b[3m[image]\x1b[0m");
    reveal_strlit("]\x1b[0m");
    reveal_strlit(": ");
    reveal_strlit("");
    if t.len() == 0 {
        assert("\x1b[3m[image]\x1b[0m"@ =~= "\x1b[3m[image"@ + ""@ + t + "]\x1b[0m"@);
    } else {
        assert("\x1b[3m[image: "@ + t + "]\x1b[0m"@ =~= "\x1b[3m[image"@ + ": "@ + t + "]\x1b[0m"@);
    }
}

proof fn lemma_styles_unseen()
    ensures
        shows("\x1b[0m"@, Seq::empty()),
        shows("\x1b[1m"@, Seq::empty()),
        shows("\x1b[2m"@, Seq::empty()),
        shows("\x1b[3m"@, Seq::empty()),
        shows("\x1b[4m"@, Seq::empty()),
        shows("\x1b[36m"@, Seq::empty()),
{
    reveal_strlit("\x1b[0m");
    reveal_strlit("\x1b[1m");
    reveal_strlit("\x1b[2m");
    reveal_strlit("\x1b[3m");
    reveal_strlit("\x1b[4m");
    reveal_strlit("\x1b[36m");
    lemma_style_unseen("\x1b[0m"@);
    lemma_style_unseen("\x1b[1m"@);
    lemma_style_unseen("\x1b[2m"@);
    lemma_style_unseen("\x1b[3m"@);
    lemma_style_unseen("\x1b[4m"@);
    lemma_style_unseen("\x1b[36m"@);
}

proof fn lemma_style_unseen(s: Seq<char>)
    requires
        3 < s.len() <= 5,
        s[0] == '\u{1b}',
        s[1] == '[',
        forall|i: int| 2 <= i < s.len() - 1 ==> '0' <= #[trigger] s[i] <= '9',
        s.last() == 'm',
    ensures
        shows(s, Seq::empty()),
{
    let n = s.len() - 1;
    assert(final_at(s, n) == n);
    assert('0' <= s[n - 1] <= '9');
    assert(final_at(s, n - 1) == n);
    if n == 4 {
        assert('0' <= s[2] <= '9');
        assert(final_at(s, 2) == n);
    }
    assert(terminated(s));
    assert(escape_length(s) == s.len());
    lemma_escape_alone(s);
    assert(s.take(s.len() as int) =~= s);
}

/// Whether a text is a single line without escape sequences of its own.
proof fn lemma_plain_part(s: Seq<char>, a: int, b: int)
    requires
        plain(s),
        0 <= a <= b <= s.len(),
    ensures
        plain(s.subrange(a, b)),
{
    let t = s.subrange(a, b);
    assert forall|i: int| 0 <= i < t.len() implies #[trigger] t[i] != '\u{1b}' && t[i] != '\n' by {
        assert(t[i] == s[a + i]);
    }
}

/// What is seen of two styled texts is what is seen of the one and then what
/// is seen of the other.
pub proof fn lemma_seen_together(a: Seq<char>, b: Seq<char>)
    requires
        tidy(a),
        tidy(b),
    ensures
        tidy(a + b),
        bare(a + b) == bare(a) + bare(b),
{
    lemma_join(a, b);
}

/// Text without marks is seen as it is written.
pub proof fn lemma_plain_text_is_seen(s: Seq<char>)
    requires
        unmarked(s),
        plain(s),
    ensures
        bare(styled(s)) == s,
{
    lemma_plain_text_stays(s, Seq::empty());
    assert(s + Seq::<char>::empty() =~= s);
    assert(styled(Seq::empty()) =~= Seq::empty());
    lemma_plain(s);
}

/// Nothing around a link is lost: of a line of text, a link and more, the
/// reader sees the text, the link's text, its address, and all that is seen
/// of the rest when it stands alone.
pub proof fn lemma_nothing_around_a_link_is_lost(
    a: Seq<char>,
    t: Seq<char>,
    u: Seq<char>,
    b: Seq<char>,
)
    requires
        unmarked(a),
        plain(a),
        unmarked(t),
        unbracketed(t),
        plain(t),
        unbracketed(u),
        plain(u),
        tidy(styled(b)),
    ensures
        bare(styled(a + (link_source(t, u) + b))) == a + t + seen_address(t, u) + bare(styled(b)),
{
    let link = link_source(t, u) + b;
    lemma_plain_text_stays(a, link);
    lemma_link(t, u, b);
    lemma_plain(a);
    lemma_plain_text_stays(t, Seq::empty());
    assert(t + Seq::<char>::empty() =~= t);
    assert(styled(Seq::empty()) =~= Seq::empty());
    assert(styled(t) =~= t);
    lemma_plain(t);
    lemma_styles_unseen();
    lemma_reset();
    lemma_address_seen(t, u);
    let x = "\x1b[4m"@ + t;
    lemma_seen_together("\x1b[4m"@, t);
    lemma_seen_together(x, reset());
    let y = x + reset();
    lemma_seen_together(y, shown_address(t, u));
    let z = y + shown_address(t, u);
    lemma_seen_together(z, styled(b));
    lemma_seen_together(a, z + styled(b));
    assert(bare(z) =~= t + seen_address(t, u));
    assert(bare(styled(a + link)) =~= a + t + seen_address(t, u) + bare(styled(b)));
}

/// What is seen of a link's address: it stands in parentheses after a space.
pub open spec fn seen_address(t: Seq<char>, u: Seq<char>) -> Seq<char> {
    let url = first_word(u);
    if url.len() == 0 || url[0] == '#' || url == t {
        Seq::empty()
    } else {
        seq![' ', '('] + url + seq![')']
    }
}

proof fn lemma_address_seen(t: Seq<char>, u: Seq<char>)
    requires
        plain(u),
    ensures
        tidy(shown_address(t, u)),
        bare(shown_address(t, u)) == seen_address(t, u),
{
    let url = first_word(u);
    lemma_word_inside(u);
    if shown_address(t, u).len() > 0 {
        reveal_strlit(" \x1b[2m(");
        reveal_strlit(")\x1b[0m");
        reveal_strlit("\x1b[2m");
        reveal_strlit("\x1b[0m");
        lemma_styles_unseen();
        let space = seq![' '];
        let open = seq!['('];
        let close = seq![')'];
        lemma_plain(space);
        lemma_plain(open);
        lemma_plain(close);
        lemma_plain(url);
        let a = space + "\x1b[2m"@;
        lemma_seen_together(space, "\x1b[2m"@);
        let b = a + open;
        lemma_seen_together(a, open);
        let c = b + url;
        lemma_seen_together(b, url);
        let d = c + close;
        lemma_seen_together(c, close);
        lemma_seen_together(d, "\x1b[0m"@);
        assert(shown_address(t, u) =~= d + "\x1b[0m"@);
        assert(bare(shown_address(t, u)) =~= seen_address(t, u));
    } else {
        assert(shown_address(t, u) =~= Seq::empty());
        reveal_strlit(" \x1b[2m(");
        assert(seen_address(t, u) =~= Seq::empty());
        assert(bare(Seq::empty()) =~= Seq::empty());
    }
}

proof fn lemma_word_inside(u: Seq<char>)
    requires
        plain(u),
    ensures
        plain(first_word(u)),
{
    lemma_trim_start_plain(u);
    lemma_word_len(trim_start(u));
    lemma_plain_part(trim_start(u), 0, word_len(trim_start(u)) as int);
    assert(trim_start(u).subrange(0, word_len(trim_start(u)) as int) =~= first_word(u));
}

proof fn lemma_trim_start_plain(u: Seq<char>)
    requires
        plain(u),
    ensures
        plain(trim_start(u)),
    decreases u.len(),
{
    if u.len() > 0 && whitespace(u[0]) {
        lemma_trim_start_plain(u.skip(1));
    }
}

// --- Whole lines ---

proof fn lemma_marks_first(s: Seq<char>)
    requires
        s.len() > 0,
        !whitespace(s[0]),
    ensures
        marks(s).len() > 0,
        marks(s)[0] == s[0],
    decreases s.len(),
{
    if s.len() > 1 {
        lemma_marks_first(s.drop_last());
        assert(s.drop_last()[0] == s[0]);
    } else {
        assert(marks(s.drop_last()) =~= Seq::empty());
    }
}

proof fn lemma_marks_hold(s: Seq<char>, k: int)
    requires
        0 <= k < s.len(),
        !whitespace(s[k]),
    ensures
        marks(s).contains(s[k]),
    decreases s.len(),
{
    let m = marks(s);
    if k == s.len() - 1 {
        assert(m.last() == s[k]);
        assert(m[m.len() - 1] == s[k]);
    } else {
        let d = s.drop_last();
        lemma_marks_hold(d, k);
        let i = choose|i: int| 0 <= i < marks(d).len() && marks(d)[i] == s[k];
        assert(m[i] == s[k]);
    }
}

proof fn lemma_run_all(m: Seq<char>, c: char, i: int)
    requires
        run_of(m, c) == m.len(),
        0 <= i < m.len(),
    ensures
        m[i] == c,
    decreases m.len(),
{
    if i > 0 {
        lemma_run_of_bound(m.skip(1), c);
        assert(m.skip(1)[i - 1] == m[i]);
        lemma_run_all(m.skip(1), c, i - 1);
    }
}

proof fn lemma_run_of_bound(m: Seq<char>, c: char)
    ensures
        run_of(m, c) <= m.len(),
    decreases m.len(),
{
    if m.len() > 0 && m[0] == c {
        lemma_run_of_bound(m.skip(1), c);
    }
}

proof fn lemma_run_of_repeated(c: char, n: nat, rest: Seq<char>)
    requires
        rest.len() == 0 || rest[0] != c,
    ensures
        run_of(repeated(c, n) + rest, c) == n,
    decreases n,
{
    let s = repeated(c, n) + rest;
    if n > 0 {
        assert(s[0] == c);
        assert(s.skip(1) =~= repeated(c, (n - 1) as nat) + rest);
        lemma_run_of_repeated(c, (n - 1) as nat, rest);
    } else {
        assert(s =~= rest);
    }
}

/// A line is no rule where something in it is neither white space nor its
/// first mark.
proof fn lemma_no_rule(s: Seq<char>, k: int)
    requires
        0 < k < s.len(),
        !whitespace(s[0]),
        !whitespace(s[k]),
        s[k] != s[0],
    ensures
        !is_rule(s),
{
    lemma_marks_first(s);
    lemma_marks_hold(s, k);
    let m = marks(s);
    let i = choose|i: int| 0 <= i < m.len() && m[i] == s[k];
    if is_rule(s) {
        lemma_run_all(m, m[0], i);
    }
}

/// A heading is its text in the style of its level: underlined on the first,
/// cyan on the second, yellow on the third, and bold on each.
pub proof fn lemma_headings(level: nat, t: Seq<char>)
    requires
        1 <= level <= 6,
        t.len() > 0,
        t.last() != ' ',
        t.last() != '#',
    ensures
        line_rendered(repeated('#', level) + seq![' '] + t) == (if level == 1 {
            "\x1b[1m\x1b[4m"@
        } else if level == 2 {
            "\x1b[1m\x1b[36m"@
        } else if level == 3 {
            "\x1b[1m\x1b[33m"@
        } else {
            "\x1b[1m"@
        }) + styled(t) + reset(),
{
    let s = repeated('#', level) + seq![' '] + t;
    assert(s[0] == '#');
    assert(trim_start(s) == s);
    lemma_marks_first(s);
    assert(!is_rule(s));
    assert(s =~= repeated('#', level) + (seq![' '] + t));
    lemma_run_of_repeated('#', level, seq![' '] + t);
    assert(s[level as int] == ' ');
    assert(s.skip(level as int + 1) =~= t);
    assert(without_closing(t) == t);
    assert(heading_text(s) == t);
}

/// The number signs that close a heading are dropped.
pub proof fn lemma_closing_signs(t: Seq<char>, n: nat)
    requires
        t.len() > 0,
        t.last() != ' ',
        t.last() != '#',
    ensures
        without_closing(t + seq![' '] + repeated('#', n)) == t,
    decreases n,
{
    let s = t + seq![' '] + repeated('#', n);
    if n > 0 {
        assert(s.last() == '#');
        assert(s.drop_last() =~= t + seq![' '] + repeated('#', (n - 1) as nat));
        lemma_closing_signs(t, (n - 1) as nat);
    } else {
        assert(s =~= t.push(' '));
        assert(s.drop_last() =~= t);
        assert(without_closing(t) == t);
    }
}

/// Three or more dashes, stars or underscores are a rule across the page.
pub proof fn lemma_rules(c: char, n: nat)
    requires
        c == '-' || c == '*' || c == '_',
        n >= 3,
    ensures
        line_rendered(repeated(c, n)) == "\x1b[2m"@ + repeated('─', 40) + reset(),
{
    let s = repeated(c, n);
    assert(s[0] == c);
    assert(trim_start(s) == s);
    lemma_marks_repeated(c, n);
    lemma_run_of_repeated(c, n, Seq::empty());
    assert(s + Seq::<char>::empty() =~= s);
}

proof fn lemma_marks_repeated(c: char, n: nat)
    requires
        !whitespace(c),
    ensures
        marks(repeated(c, n)) == repeated(c, n),
    decreases n,
{
    let s = repeated(c, n);
    if n > 0 {
        assert(s.drop_last() =~= repeated(c, (n - 1) as nat));
        lemma_marks_repeated(c, (n - 1) as nat);
        assert(s.last() == c);
        assert(s =~= repeated(c, (n - 1) as nat).push(c));
    } else {
        assert(marks(s) =~= s);
    }
}

/// An item of a list is a bullet and its text behind what it is indented by.
pub proof fn lemma_items(indent: Seq<char>, mark: char, t: Seq<char>)
    requires
        blank(indent),
        mark == '-' || mark == '*' || mark == '+',
        t.len() > 0,
        !whitespace(t[0]),
        t[0] != mark,
        t[0] != '[',
    ensures
        line_rendered(indent + seq![mark, ' '] + t) == indent + "  • "@ + styled(t),
{
    reveal_strlit("[ ] ");
    reveal_strlit("[x] ");
    reveal_strlit("[X] ");
    lemma_item(indent, mark, t);
    if begins_with(t, "[ ] "@) {
        assert(t.take(4)[0] == '[');
    }
    if begins_with(t, "[x] "@) {
        assert(t.take(4)[0] == '[');
    }
    if begins_with(t, "[X] "@) {
        assert(t.take(4)[0] == '[');
    }
    assert(indent + ("  • "@ + styled(t)) =~= indent + "  • "@ + styled(t));
}

proof fn lemma_task(tick: char, t: Seq<char>)
    requires
        tick == ' ' || tick == 'x' || tick == 'X',
    ensures
        bullet_text(seq!['[', tick, ']', ' '] + t) == (if tick == ' ' {
            "  ☐ "@
        } else {
            "  ☑ "@
        }) + styled(t),
{
    reveal_strlit("[ ] ");
    reveal_strlit("[x] ");
    reveal_strlit("[X] ");
    let a = seq!['[', tick, ']', ' '] + t;
    assert(a.take(4) =~= seq!['[', tick, ']', ' ']);
    assert(a.take(4)[1] == tick);
    assert("[ ] "@ =~= seq!['[', ' ', ']', ' ']);
    assert("[x] "@ =~= seq!['[', 'x', ']', ' ']);
    assert("[X] "@ =~= seq!['[', 'X', ']', ' ']);
    assert("[ ] "@[1] == ' ');
    assert(a.skip(4) =~= t);
}

/// A task has its box in the bullet's place, ticked or not.
pub proof fn lemma_tasks(indent: Seq<char>, mark: char, tick: char, t: Seq<char>)
    requires
        blank(indent),
        mark == '-' || mark == '*' || mark == '+',
        tick == ' ' || tick == 'x' || tick == 'X',
    ensures
        line_rendered(indent + seq![mark, ' '] + (seq!['[', tick, ']', ' '] + t)) == indent + (
        if tick == ' ' {
            "  ☐ "@
        } else {
            "  ☑ "@
        }) + styled(t),
{
    let a = seq!['[', tick, ']', ' '] + t;
    assert(a[0] == '[');
    lemma_item(indent, mark, a);
    lemma_task(tick, t);
    let sign = if tick == ' ' {
        "  ☐ "@
    } else {
        "  ☑ "@
    };
    assert(indent + (sign + styled(t)) =~= indent + sign + styled(t));
}

proof fn lemma_trim_indent(indent: Seq<char>, s: Seq<char>)
    requires
        blank(indent),
        s.len() > 0,
        !whitespace(s[0]),
    ensures
        trim_start(indent + s) == s,
    decreases indent.len(),
{
    let t = indent + s;
    if indent.len() > 0 {
        assert(t[0] == indent[0]);
        assert(t.skip(1) =~= indent.skip(1) + s);
        lemma_trim_indent(indent.skip(1), s);
    } else {
        assert(t =~= s);
    }
}

proof fn lemma_item(indent: Seq<char>, mark: char, t: Seq<char>)
    requires
        blank(indent),
        mark == '-' || mark == '*' || mark == '+',
        t.len() > 0,
        !whitespace(t[0]),
        t[0] != mark,
    ensures
        line_rendered(indent + seq![mark, ' '] + t) == indent + bullet_text(t),
{
    reveal_strlit("- ");
    reveal_strlit("* ");
    reveal_strlit("+ ");
    let s = seq![mark, ' '] + t;
    let line = indent + seq![mark, ' '] + t;
    assert(line =~= indent + s);
    lemma_trim_indent(indent, s);
    assert(s[0] == mark && s[2] == t[0]);
    lemma_no_rule(s, 2);
    assert(s.take(2) =~= if mark == '-' {
        "- "@
    } else if mark == '*' {
        "* "@
    } else {
        "+ "@
    });
    assert(run_of(s, '#') == 0);
    assert(s.skip(2) =~= t);
    assert(line.take(line.len() - s.len()) =~= indent);
}

/// A quotation is a bar and its text.
pub proof fn lemma_quotations(t: Seq<char>)
    requires
        t.len() > 0,
        !whitespace(t[0]),
    ensures
        line_rendered(seq!['>', ' '] + t) == "\x1b[2m│\x1b[0m "@ + styled(t),
{
    reveal_strlit("- ");
    reveal_strlit("* ");
    reveal_strlit("+ ");
    let s = seq!['>', ' '] + t;
    assert(s[0] == '>');
    assert(trim_start(s) == s);
    lemma_marks_first(s);
    assert(!is_bullet(s)) by {
        if is_bullet(s) {
            assert(s.take(2)[0] == '>');
        }
    }
    assert(run_of(s, '#') == 0);
    let r = s.skip(1);
    assert(r =~= seq![' '] + t);
    lemma_trim_indent(seq![' '], t);
    let none = s.take(s.len() - s.len());
    assert(none + "\x1b[2m│\x1b[0m "@ =~= "\x1b[2m│\x1b[0m "@);
}

/// Any other line is its text with its inline styles.
pub proof fn lemma_paragraphs(line: Seq<char>)
    requires
        line.len() > 0,
        'a' <= line[0] <= 'z' || 'A' <= line[0] <= 'Z' || '0' <= line[0] <= '9',
    ensures
        line_rendered(line) == styled(line),
{
    reveal_strlit("- ");
    reveal_strlit("* ");
    reveal_strlit("+ ");
    assert(trim_start(line) == line);
    lemma_marks_first(line);
    assert(!is_bullet(line)) by {
        if is_bullet(line) {
            assert(line.take(2)[0] == line[0]);
        }
    }
    assert(run_of(line, '#') == 0);
}

// --- Whole documents ---

/// A line of text that is no table's is put on the page behind everything
/// that came before it, which stays as it was.
pub proof fn lemma_page_grows(v: Seq<Block>, i: int, p: Page, line: Seq<char>, centered: bool, width: nat)
    requires
        0 <= i <= v.len(),
        !line.contains('|'),
        trim(line).len() > 0,
    ensures
        page(v.push(Block::Text { line, centered }), i, p, width).text == page(v, i, p, width).text
            + placed(line, centered, width),
        page(v.push(Block::Text { line, centered }), i, p, width).code == page(v, i, p, width).code,
    decreases v.len() - i,
{
    let b = Block::Text { line, centered };
    let w = v.push(b);
    if i == v.len() {
        assert(w[i] == b);
        assert(table_at(w, i) is None);
        assert(page(w, i, p, width) == page(
            w,
            i + 1,
            Page { text: p.text + placed(line, centered, width), ..p },
            width,
        ));
    } else {
        assert(w[i] == v[i]);
        match v[i] {
            Block::Code { lang, lines } => {
                lemma_page_grows(
                    v,
                    i + 1,
                    Page {
                        text: p.text + code_box(lang, untabbed(lines), p.code.len(), width),
                        code: p.code.push(join(lines, "\n"@)),
                    },
                    line,
                    centered,
                    width,
                );
            },
            Block::Text { line: l, centered: c } => {
                assert(table_at(w, i) == table_at(v, i)) by {
                    if i + 1 < v.len() {
                        assert(w[i + 1] == v[i + 1]);
                    } else {
                        assert(w[i + 1] == b);
                        assert(delimiter_row(line) is None);
                    }
                }
                match table_at(v, i) {
                    Some(aligns) => {
                        lemma_rows_end(v, i + 2);
                        lemma_rows_end_pushed(v, b, i + 2);
                        let e = rows_end(v, i + 2);
                        assert(w.subrange(i + 2, e) =~= v.subrange(i + 2, e));
                        assert(table_rows(w, i) =~= table_rows(v, i));
                        lemma_page_grows(
                            v,
                            e,
                            Page {
                                text: p.text + table_text(table_rows(v, i), aligns, width),
                                ..p
                            },
                            line,
                            centered,
                            width,
                        );
                    },
                    None => {
                        let q = if trim(l).len() == 0 {
                            Page {
                                text: if p.text.len() > 0 && !ends_with(p.text, "\n\n"@) {
                                    p.text + "\n"@
                                } else {
                                    p.text
                                },
                                ..p
                            }
                        } else {
                            Page { text: p.text + placed(l, c, width), ..p }
                        };
                        lemma_page_grows(v, i + 1, q, line, centered, width);
                    },
                }
            },
        }
    }
}

proof fn lemma_rows_end_pushed(v: Seq<Block>, b: Block, i: int)
    requires
        0 <= i <= v.len(),
        !is_row(b),
    ensures
        rows_end(v.push(b), i) == rows_end(v, i),
    decreases v.len() - i,
{
    let w = v.push(b);
    if i < v.len() {
        assert(w[i] == v[i]);
        if is_row(v[i]) {
            lemma_rows_end_pushed(v, b, i + 1);
        }
    } else {
        assert(w[i] == b);
    }
}

/// Code is put on the page in a box behind everything that came before it,
/// and kept for its copy link as it was written, under the number that the
/// link carries.
pub proof fn lemma_page_keeps_code(lang: Seq<char>, lines: Seq<Seq<char>>, p: Page, width: nat)
    ensures
        ({
            let q = page(seq![Block::Code { lang, lines }], 0, p, width);
            &&& q.text == p.text + code_box(lang, untabbed(lines), p.code.len(), width)
            &&& q.code == p.code.push(join(lines, "\n"@))
        }),
{
    let v = seq![Block::Code { lang, lines }];
    assert(v[0] == (Block::Code { lang, lines }));
    let q = Page {
        text: p.text + code_box(lang, untabbed(lines), p.code.len(), width),
        code: p.code.push(join(lines, "\n"@)),
    };
    assert(page(v, 1, q, width) == q);
}

/// A centered line stands in the middle of the page: as much room before it
/// as behind it, to within a column.
pub proof fn lemma_centered_lines(line: Seq<char>, width: nat) -> (pad: nat)
    requires
        visible(line_rendered(trim(line))) <= width,
    ensures
        placed(line, true, width) == repeated(' ', pad) + line_rendered(trim(line)) + "\n"@,
        2 * pad <= width - visible(line_rendered(trim(line))) <= 2 * pad + 1,
{
    beyond(width, visible(line_rendered(trim(line)))) / 2
}

/// Lines between two fences are code, letter for letter and line by line,
/// under the language that the first fence names; what is read before stays.
pub proof fn lemma_fenced_code(
    r: Reading,
    mark: char,
    n: nat,
    lang: Seq<char>,
    code: Seq<Seq<char>>,
)
    requires
        r.fence is None,
        mark == '`' || mark == '~',
        n >= 3,
        tight(lang),
        lang.len() > 0 ==> lang[0] != mark,
        forall|i: int| 0 <= i < code.len() ==> no_fence(#[trigger] code[i], mark),
    ensures
        ({
            let opened = r.with_line(repeated(mark, n) + lang);
            let inside = reading_from(opened, code);
            let closed = inside.with_line(repeated(mark, n));
            &&& closed.blocks == r.blocks.push(Block::Code { lang, lines: code })
            &&& closed.fence is None
            &&& closed.html == r.html
        }),
{
    let first = repeated(mark, n) + lang;
    assert(first[0] == mark);
    assert(trim_start(first) == first);
    lemma_run_of_repeated(mark, n, lang);
    assert(first.skip(n as int) =~= lang);
    lemma_trim_tight(lang);
    let opened = r.with_line(first);
    let none = first.take(first.len() - first.len());
    assert(none =~= Seq::empty());
    assert(encode_utf8(none) =~= Seq::empty());
    let f = Fence { mark, length: n, indent: 0 };
    assert(opened.fence == Some(f));
    lemma_fenced_lines(r, opened, f, lang, code);
    let inside = reading_from(opened, code);
    let last = repeated(mark, n);
    assert(last[0] == mark && last.last() == mark);
    assert(trim_start(last) == last);
    assert(trim_end(last) == last);
    lemma_run_of_repeated(mark, n, Seq::empty());
    assert(last + Seq::<char>::empty() =~= last);
    assert(closes_fence(last, f));
}

/// Whether a line starts with something else than a fence's mark and white
/// space.
pub open spec fn no_fence(line: Seq<char>, mark: char) -> bool {
    line.len() == 0 || (line[0] != mark && !whitespace(line[0]))
}

/// What has been read after more lines.
pub open spec fn reading_from(r: Reading, v: Seq<Seq<char>>) -> Reading
    decreases v.len(),
{
    if v.len() == 0 {
        r
    } else {
        reading_from(r, v.drop_last()).with_line(v.last())
    }
}

/// Reading a document is reading its lines one after the other.
pub proof fn lemma_reading_goes_on(a: Seq<Seq<char>>, b: Seq<Seq<char>>)
    ensures
        reading(a + b) == reading_from(reading(a), b),
    decreases b.len(),
{
    if b.len() == 0 {
        assert(a + b =~= a);
    } else {
        assert((a + b).drop_last() =~= a + b.drop_last());
        lemma_reading_goes_on(a, b.drop_last());
        assert((a + b).last() == b.last());
    }
}

proof fn lemma_fenced_lines(
    r: Reading,
    opened: Reading,
    f: Fence,
    lang: Seq<char>,
    code: Seq<Seq<char>>,
)
    requires
        opened.fence == Some(f),
        f.indent == 0,
        f.length >= 3,
        opened.html == r.html,
        opened.blocks == r.blocks.push(Block::Code { lang, lines: Seq::empty() }),
        forall|i: int| 0 <= i < code.len() ==> no_fence(#[trigger] code[i], f.mark),
    ensures
        reading_from(opened, code) == (Reading {
            blocks: r.blocks.push(Block::Code { lang, lines: code }),
            html: r.html,
            fence: Some(f),
        }),
    decreases code.len(),
{
    if code.len() == 0 {
        assert(code =~= Seq::empty());
    } else {
        let head = code.drop_last();
        assert forall|i: int| 0 <= i < head.len() implies no_fence(#[trigger] head[i], f.mark) by {
            assert(head[i] == code[i]);
        }
        lemma_fenced_lines(r, opened, f, lang, head);
        let before = reading_from(opened, head);
        let line = code.last();
        assert(no_fence(code[code.len() - 1], f.mark));
        let t = trim_end(trim_start(line));
        if line.len() == 0 {
            assert(t.len() == 0);
        } else {
            assert(trim_start(line) == line);
            lemma_trim_end_first(line);
        }
        assert(!closes_fence(line, f));
        assert(code_line(line, 0) =~= line);
        assert(head.push(line) =~= code);
        assert(before.blocks.drop_last() =~= r.blocks);
        assert(before.with_line(line).blocks =~= r.blocks.push(Block::Code { lang, lines: code }));
    }
}

proof fn lemma_trim_end_first(s: Seq<char>)
    requires
        s.len() > 0,
        !whitespace(s[0]),
    ensures
        trim_end(s).len() > 0,
        trim_end(s)[0] == s[0],
    decreases s.len(),
{
    if whitespace(s.last()) {
        assert(s.len() > 1);
        lemma_trim_end_first(s.drop_last());
        assert(s.drop_last()[0] == s[0]);
    }
}

/// A line without HTML outside a fence is one line of text.
pub proof fn lemma_text_lines(r: Reading, line: Seq<char>)
    requires
        r.fence is None,
        !r.html.in_comment,
        r.html.center is None,
        unhtml(line),
        feedless(line),
        !opens_fence(trim_start(line)),
    ensures
        ({
            let next = r.with_line(line);
            &&& next.blocks == r.blocks.push(Block::Text { line, centered: false })
            &&& next.fence is None
            &&& !next.html.in_comment
            &&& next.html.center is None
        }),
{
    let h = HtmlState { centered_here: false, ..r.html };
    lemma_text_stays(h, Seq::empty(), line, Seq::empty());
    assert(line + Seq::<char>::empty() =~= line);
    assert(Seq::<char>::empty() + line =~= line);
    assert(HtmlState { in_comment: false, ..h } == h);
    assert(converted(r.html, line) == (Rewritten { html: h, out: line }));
    if line.len() > 0 {
        assert(line[line.len() - 1] != '\n');
    }
    assert(once_broken(line) == line);
    lemma_find_char_first(line, '\n');
    let n = find_char(line, '\n') as int;
    if n < line.len() {
        assert(line[n] != '\n');
    }
    assert(split_on(line, '\n') =~= seq![line]);
    assert(text_blocks(seq![line], false) =~= seq![Block::Text { line, centered: false }]);
    assert(r.with_line(line).blocks =~= r.blocks.push(Block::Text { line, centered: false }));
}

} // verus!
