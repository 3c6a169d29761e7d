//! Styles within a line: code, bold, italic, images and links.
use vstd::prelude::*;

use crate::markdown::ansi::reset;
use crate::text::{
    add_chars, add_text, begins_with, chars_of, find_char, find_char_at, find_chars, find_seq,
    first_word, head_of, lemma_find_seq, same_chars, slice_of, starts, tail_of, word_of,
};

verus! {

/// Where the bracket that opens a link is closed. Brackets may nest;
/// anything outside them ends the search.
pub open spec fn link_close(s: Seq<char>, i: int, depth: int) -> Option<int>
    decreases s.len() - i,
{
    if i >= s.len() {
        None
    } else if s[i] == '[' {
        link_close(s, i + 1, depth + 1)
    } else if s[i] == ']' {
        if depth == 1 {
            Some(i)
        } else {
            link_close(s, i + 1, depth - 1)
        }
    } else if depth == 0 {
        None
    } else {
        link_close(s, i + 1, depth)
    }
}

/// A closing bracket that is found lies inside the text.
pub proof fn lemma_link_close(s: Seq<char>, i: int, depth: int)
    requires
        0 <= i,
    ensures
        link_close(s, i, depth) matches Some(n) ==> i <= n < s.len() && (n == i ==> depth == 1),
    decreases s.len() - i,
{
    if i < s.len() {
        if s[i] == '[' {
            lemma_link_close(s, i + 1, depth + 1);
        } else if s[i] == ']' {
            lemma_link_close(s, i + 1, depth - 1);
        } else {
            lemma_link_close(s, i + 1, depth);
        }
    }
}

/// A link: the bracketed text, the parenthesised target, and what follows.
pub ghost struct Link {
    pub text: Seq<char>,
    pub target: Seq<char>,
    pub tail: Seq<char>,
}

/// The link that `s` starts with. Brackets may nest, as in a badge:
/// `[![alt](img)](url)`.
pub open spec fn link_at(s: Seq<char>) -> Option<Link> {
    match link_close(s, 0, 0) {
        None => None,
        Some(i) => {
            let after = s.skip(i + 1);
            if after.len() > 0 && after[0] == '(' {
                let inner = after.skip(1);
                let end = find_char(inner, ')') as int;
                if end < inner.len() {
                    Some(
                        Link {
                            text: s.subrange(1, i),
                            target: inner.take(end),
                            tail: inner.skip(end + 1),
                        },
                    )
                } else {
                    None
                }
            } else {
                None
            }
        },
    }
}

/// What follows a link is shorter than the text it starts.
pub proof fn lemma_link_shrinks(s: Seq<char>)
    ensures
        link_at(s) matches Some(l) ==> l.text.len() < s.len() && l.tail.len() < s.len(),
{
    lemma_link_close(s, 0, 0);
}

/// What a link's target leads to: a trailing "title" is dropped, and in-page
/// anchors go nowhere in a pager.
pub open spec fn link_note(l: Link) -> Seq<char> {
    let url = first_word(l.target);
    if url.len() > 0 && url[0] != '#' && url != l.text {
        " \x1b[2m("@ + url + ")\x1b[0m"@
    } else {
        Seq::empty()
    }
}

/// An image as its alternative text.
pub open spec fn image_text(alt: Seq<char>) -> Seq<char> {
    "\x1b[3m[image"@ + (if alt.len() == 0 {
        ""@
    } else {
        ": "@
    }) + alt + "]\x1b[0m"@
}

/// `code` in cyan, **bold**, *italic*, images as their alt text, and
/// [text](url) as underlined text with the URL after it so it can be
/// cmd-clicked.
pub open spec fn styled(s: Seq<char>) -> Seq<char>
    decreases s.len(),
{
    if s.len() == 0 {
        Seq::empty()
    } else {
        let after = s.skip(1);
        let inner = s.skip(2);
        let tick = find_char(after, '`') as int;
        let star = find_char(after, '*') as int;
        proof {
            lemma_find_seq(inner, "**"@);
            reveal_strlit("**");
            lemma_link_shrinks(s);
            lemma_link_shrinks(after);
        }
        if s[0] == '`' && tick < after.len() {
            "\x1b[36m"@ + after.take(tick) + reset() + styled(after.skip(tick + 1))
        } else if begins_with(s, "**"@) && find_seq(inner, "**"@) is Some {
            let end = (find_seq(inner, "**"@)->0) as int;
            "\x1b[1m"@ + styled(inner.take(end)) + reset() + styled(inner.skip(end + 2))
        } else if s[0] == '*' && after.len() > 0 && after[0] != ' ' && after[0] != '*' && star
            < after.len() {
            "\x1b[3m"@ + after.take(star) + reset() + styled(after.skip(star + 1))
        } else if s[0] == '!' && link_at(after) is Some {
            let l = link_at(after)->0;
            image_text(l.text) + styled(l.tail)
        } else if link_at(s) is Some {
            let l = link_at(s)->0;
            "\x1b[4m"@ + styled(l.text) + reset() + link_note(l) + styled(l.tail)
        } else {
            seq![s[0]] + styled(after)
        }
    }
}

/// Where a link's parts lie: the text is `1..close`, the target
/// `close + 2..end`, and the rest starts at `end + 1`.
struct LinkSpan {
    close: usize,
    end: usize,
}

fn find_link(s: &[char]) -> (r: Option<LinkSpan>)
    ensures
        match r {
            None => link_at(s@) is None,
            Some(l) => {
                &&& 1 <= l.close
                &&& l.close + 2 <= l.end < s@.len()
                &&& link_at(s@) == Some(
                    Link {
                        text: s@.subrange(1, l.close as int),
                        target: s@.subrange(l.close + 2, l.end as int),
                        tail: s@.skip(l.end + 1),
                    },
                )
            },
        },
{
    let mut depth: i128 = 0;
    let mut i: usize = 0;
    while i < s.len()
        invariant
            i <= s.len(),
            -(i as int) <= depth <= i,
            link_close(s@, 0, 0) == link_close(s@, i as int, depth as int),
        decreases s.len() - i,
    {
        let c = s[i];
        if c == '[' {
            depth += 1;
        } else if c == ']' {
            if depth == 1 {
                proof {
                    lemma_link_close(s@, 0, 0);
                }
                let ghost after = s@.skip(i + 1);
                if i + 1 < s.len() {
                    assert(after[0] == s@[i + 1]);
                }
                if i + 1 == s.len() || s[i + 1] != '(' {
                    return None;
                }
                let inner = tail_of(s, i + 2);
                assert(inner@ =~= after.skip(1));
                let end = find_char_at(inner, ')');
                if end == inner.len() {
                    return None;
                }
                assert(inner@.take(end as int) =~= s@.subrange(i + 2, i + 2 + end));
                assert(inner@.skip(end + 1) =~= s@.skip(i + 2 + end + 1));
                return Some(LinkSpan { close: i, end: i + 2 + end });
            }
            depth -= 1;
        } else if depth == 0 {
            return None;
        }
        i += 1;
    }
    None
}

fn add_link_note(out: &mut Vec<char>, s: &[char], l: &LinkSpan)
    requires
        1 <= l.close,
        l.close + 2 <= l.end < s@.len(),
    ensures
        final(out)@ == old(out)@ + link_note(
            Link {
                text: s@.subrange(1, l.close as int),
                target: s@.subrange(l.close + 2, l.end as int),
                tail: s@.skip(l.end + 1),
            },
        ),
{
    let text = slice_of(s, 1, l.close);
    let url = word_of(&slice_of(s, l.close + 2, l.end));
    let ghost before = out@;
    if url.len() > 0 && url[0] != '#' && !same_chars(&url, &text) {
        add_text(out, " \x1b[2m(");
        add_chars(out, &url);
        add_text(out, ")\x1b[0m");
        assert(out@ =~= before + (" \x1b[2m("@ + url@ + ")\x1b[0m"@));
    } else {
        assert(out@ =~= before + Seq::<char>::empty());
    }
}

/// Where a bold text that `rest` starts with ends, counted from inside.
fn bold_end(rest: &[char]) -> (r: Option<usize>)
    requires
        rest@.len() > 0,
    ensures
        r is Some <==> begins_with(rest@, "**"@) && find_seq(rest@.skip(2), "**"@) is Some,
        r matches Some(n) ==> find_seq(rest@.skip(2), "**"@) == Some(n as nat) && n + 4
            <= rest@.len(),
{
    proof {
        reveal_strlit("**");
    }
    if starts(rest, "**") {
        find_chars(tail_of(rest, 2), &chars_of("**"))
    } else {
        None
    }
}

/// Text between an opening and a closing style.
fn enclosed(open: &str, text: &[char]) -> (r: Vec<char>)
    ensures
        r@ == open@ + text@ + reset(),
{
    let mut r = chars_of(open);
    add_chars(&mut r, text);
    add_text(&mut r, "\x1b[0m");
    r
}

fn image(alt: &[char]) -> (r: Vec<char>)
    ensures
        r@ == image_text(alt@),
{
    let mut r = chars_of("\x1b[3m[image");
    add_text(
        &mut r,
        if alt.len() == 0 {
            ""
        } else {
            ": "
        },
    );
    add_chars(&mut r, alt);
    add_text(&mut r, "]\x1b[0m");
    r
}

/// The first piece of a line, styled, and how much of the line it takes up.
fn first_piece(rest: &[char]) -> (r: (Vec<char>, usize))
    requires
        rest@.len() > 0,
    ensures
        0 < r.1 <= rest@.len(),
        styled(rest@) == r.0@ + styled(rest@.skip(r.1 as int)),
    decreases rest@.len(), 0int,
{
    let after = tail_of(rest, 1);
    let ghost s = rest@;
    assert(after@ == s.skip(1));
    let tick = find_char_at(after, '`');
    if rest[0] == '`' && tick < after.len() {
        assert(after@.skip(tick + 1) =~= s.skip(tick + 2));
        return (enclosed("\x1b[36m", head_of(after, tick)), tick + 2);
    }
    if let Some(end) = bold_end(rest) {
        let inner = tail_of(rest, 2);
        let text = inline(head_of(inner, end));
        assert(inner@.skip(end + 2) =~= s.skip(end + 4));
        return (enclosed("\x1b[1m", &text), end + 4);
    }
    let star = find_char_at(after, '*');
    if rest[0] == '*' && after.len() > 0 && after[0] != ' ' && after[0] != '*' && star
        < after.len() {
        assert(after@.skip(star + 1) =~= s.skip(star + 2));
        return (enclosed("\x1b[3m", head_of(after, star)), star + 2);
    }
    if rest[0] == '!' {
        if let Some(l) = find_link(after) {
            assert(after@.skip(l.end + 1) =~= s.skip(l.end + 2));
            return (image(&slice_of(after, 1, l.close)), l.end + 2);
        }
    }
    if let Some(l) = find_link(rest) {
        let text = inline(&slice_of(rest, 1, l.close));
        let mut piece = enclosed("\x1b[4m", &text);
        add_link_note(&mut piece, rest, &l);
        return (piece, l.end + 1);
    }
    let mut piece: Vec<char> = Vec::new();
    piece.push(rest[0]);
    assert(piece@ =~= seq![s[0]]);
    (piece, 1)
}

/// A line with its inline styles turned into escape sequences.
pub fn inline(s: &[char]) -> (r: Vec<char>)
    ensures
        r@ == styled(s@),
    decreases s@.len(), 1int,
{
    let mut out: Vec<char> = Vec::new();
    let mut i: usize = 0;
    assert(s@.skip(0) =~= s@);
    assert(out@ + styled(s@) =~= styled(s@));
    while i < s.len()
        invariant
            i <= s.len(),
            styled(s@) == out@ + styled(s@.skip(i as int)),
        decreases s.len() - i,
    {
        let rest = tail_of(s, i);
        let ghost before = out@;
        let (piece, n) = first_piece(rest);
        add_chars(&mut out, &piece);
        proof {
            let next = rest@.skip(n as int);
            assert(next =~= s@.skip(i + n));
            assert(before + (piece@ + styled(next)) =~= out@ + styled(next));
        }
        i += n;
    }
    assert(s@.skip(i as int) =~= Seq::empty());
    assert(out@ + Seq::<char>::empty() =~= out@);
    out
}

} // verus!
