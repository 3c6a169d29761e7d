//! The bundled changelog, rendered to ANSI for paging in a terminal tab.
//! The maintainer preamble and the empty Unreleased section are skipped.
use vstd::prelude::*;

use crate::markdown::{render, rendered, Rendered};
use crate::text::{
    add_chars, add_text, begins_with, chars_of, chars_views, lemma_replaced_joined, lines,
    replace_char, replaced, split_lines, starts, string_of,
};

verus! {

/// The changelog that ships with the application.
pub const CHANGELOG: &'static str = "# Changelog

All notable changes to Oxide. Keep the newest version first.

## [Unreleased]

## [0.1.0]

- First release.
";

/// Whether a line is the heading of a released version.
pub open spec fn is_release(line: Seq<char>) -> bool {
    begins_with(line, "## ["@) && !begins_with(line, "## [Unreleased]"@)
}

/// The first released version's line.
pub open spec fn first_release(v: Seq<Seq<char>>) -> int
    decreases v.len(),
{
    if v.len() == 0 || is_release(v[0]) {
        0
    } else {
        1 + first_release(v.skip(1))
    }
}

/// A line as it is shown: brackets dropped from version headings.
pub open spec fn shown_line(line: Seq<char>) -> Seq<char> {
    if begins_with(line, "## "@) {
        replaced(replaced(line, '[', ""@), ']', ""@)
    } else {
        line
    }
}

/// Lines one after the other, each ended.
pub open spec fn shown_lines(v: Seq<Seq<char>>) -> Seq<char>
    decreases v.len(),
{
    if v.len() == 0 {
        Seq::empty()
    } else {
        shown_lines(v.drop_last()) + shown_line(v.last()) + "\n"@
    }
}

/// The document that is rendered for a changelog.
pub open spec fn whats_new(md: Seq<char>) -> Seq<char> {
    "# Oxide — what's new\n\n"@ + shown_lines(lines(md).skip(first_release(lines(md))))
}

/// A changelog, rendered for a pager of `width` columns.
pub fn render_ansi(md: &str, width: usize) -> (r: Rendered)
    ensures
        r@ == rendered(whats_new(md@), width as nat),
{
    let list = split_lines(md);
    let ghost all = lines(md@);
    let mut from: usize = 0;
    assert(all.skip(0) =~= all);
    // Skip everything before the first released version heading.
    while from < list.len() && !(starts(&list[from], "## [") && !starts(
        &list[from],
        "## [Unreleased]",
    ))
        invariant
            from <= list.len(),
            all == chars_views(list@),
            first_release(all) == from + first_release(all.skip(from as int)),
        decreases list.len() - from,
    {
        assert(all.skip(from as int)[0] == list@[from as int]@);
        assert(all.skip(from as int).skip(1) =~= all.skip(from + 1));
        from += 1;
    }
    proof {
        if from < list.len() {
            assert(all.skip(from as int)[0] == list@[from as int]@);
        }
        assert(first_release(all) == from);
    }
    let ghost rest = all.skip(from as int);
    let mut body = chars_of("# Oxide — what's new\n\n");
    let ghost head = body@;
    let mut i: usize = from;
    assert(rest.take(0) =~= Seq::empty());
    assert(body@ =~= head + shown_lines(rest.take(0)));
    while i < list.len()
        invariant
            from <= i <= list.len(),
            all == chars_views(list@),
            rest == all.skip(from as int),
            body@ == head + shown_lines(rest.take(i - from)),
        decreases list.len() - i,
    {
        proof {
            let t = rest.take(i - from + 1);
            assert(t.drop_last() =~= rest.take(i - from));
            assert(t.last() == list@[i as int]@);
        }
        if starts(&list[i], "## ") {
            let line = replace_char(string_of(&list[i]).as_str(), '[', "");
            add_text(&mut body, replace_char(line.as_str(), ']', "").as_str());
        } else {
            add_chars(&mut body, &list[i]);
        }
        add_text(&mut body, "\n");
        i += 1;
        assert(body@ =~= head + shown_lines(rest.take(i - from)));
    }
    assert(rest.take(i - from) =~= rest);
    render(string_of(&body).as_str(), width)
}

/// The first release is the first line that names one: none before it does.
pub proof fn lemma_the_first_release(v: Seq<Seq<char>>)
    ensures
        0 <= first_release(v) <= v.len(),
        first_release(v) < v.len() ==> is_release(v[first_release(v)]),
        forall|i: int| 0 <= i < first_release(v) ==> !is_release(#[trigger] v[i]),
    decreases v.len(),
{
    if v.len() > 0 && !is_release(v[0]) {
        let r = v.skip(1);
        lemma_the_first_release(r);
        assert(first_release(v) < v.len() ==> v[first_release(v)] == r[first_release(r)]);
        assert forall|i: int| 0 <= i < first_release(v) implies !is_release(#[trigger] v[i]) by {
            if i > 0 {
                assert(r[i - 1] == v[i]);
            }
        }
    }
}

proof fn lemma_replacing_nothing(s: Seq<char>, c: char)
    requires
        !s.contains(c),
    ensures
        replaced(s, c, ""@) == s,
    decreases s.len(),
{
    if s.len() > 0 {
        let r = s.drop_last();
        assert(!r.contains(c)) by {
            if r.contains(c) {
                let i = choose|i: int| 0 <= i < r.len() && r[i] == c;
                assert(s[i] == c);
            }
        }
        lemma_replacing_nothing(r, c);
        assert(s.contains(s.last()));
        assert(replaced(s, c, ""@) =~= s);
    } else {
        assert(replaced(s, c, ""@) =~= s);
    }
}

proof fn lemma_dropping_one(a: Seq<char>, c: char, b: Seq<char>)
    requires
        !a.contains(c),
        !b.contains(c),
    ensures
        replaced(a + seq![c] + b, c, ""@) == a + b,
{
    reveal_strlit("");
    let one = seq![c];
    assert(one.drop_last() =~= Seq::<char>::empty());
    assert(replaced(one.drop_last(), c, ""@) =~= Seq::<char>::empty());
    assert(replaced(one, c, ""@) =~= Seq::<char>::empty());
    lemma_replacing_nothing(a, c);
    lemma_replacing_nothing(b, c);
    lemma_replaced_joined(a + one, b, c, ""@);
    lemma_replaced_joined(a, one, c, ""@);
    assert(a + Seq::<char>::empty() + b =~= a + b);
}

/// A release's heading is shown without the brackets around its version; a
/// line that is no such heading stays.
pub proof fn lemma_shown_headings(version: Seq<char>, rest: Seq<char>, line: Seq<char>)
    requires
        !version.contains('[') && !version.contains(']'),
        !rest.contains('[') && !rest.contains(']'),
    ensures
        shown_line("## "@ + seq!['['] + version + seq![']'] + rest) == "## "@ + version + rest,
        !begins_with(line, "## "@) ==> shown_line(line) == line,
{
    reveal_strlit("## ");
    let h = "## "@;
    let s = h + seq!['['] + version + seq![']'] + rest;
    assert(s.take(3) =~= h);
    let tail = version + seq![']'] + rest;
    assert(s =~= h + seq!['['] + tail);
    assert(!h.contains('['));
    assert(!h.contains(']'));
    assert(!tail.contains('[')) by {
        if tail.contains('[') {
            let i = choose|i: int| 0 <= i < tail.len() && tail[i] == '[';
            if i < version.len() {
                assert(version.contains(version[i]));
            } else if i > version.len() {
                assert(rest.contains(rest[i - version.len() - 1]));
            }
        }
    }
    lemma_dropping_one(h, '[', tail);
    let t = h + version;
    assert(!t.contains(']')) by {
        if t.contains(']') {
            let i = choose|i: int| 0 <= i < t.len() && t[i] == ']';
            if i >= h.len() {
                assert(version.contains(version[i - h.len()]));
            } else {
                assert(h.contains(h[i]));
            }
        }
    }
    assert(h + tail =~= t + seq![']'] + rest);
    lemma_dropping_one(t, ']', rest);
}

/// A heading in brackets is a release unless it is the one for what is not
/// released yet.
pub proof fn lemma_releases(rest: Seq<char>)
    ensures
        is_release("## ["@ + rest) <==> !begins_with(rest, "Unreleased]"@),
        rest.len() == 0 || rest[0] != '#' ==> !is_release(rest),
{
    reveal_strlit("## [");
    reveal_strlit("## [Unreleased]");
    reveal_strlit("Unreleased]");
    let h = "## ["@;
    let u = "Unreleased]"@;
    let all = "## [Unreleased]"@;
    let s = h + rest;
    assert(all =~= h + u);
    assert(s.take(4) =~= h);
    assert(h[0] == '#');
    if begins_with(rest, u) {
        assert(s.take(15) =~= h + rest.take(11));
    }
    if begins_with(s, all) {
        assert(rest.take(11) =~= s.take(15).skip(4));
        assert(all.skip(4) =~= u);
    }
    if begins_with(rest, h) {
        assert(rest[0] == rest.take(4)[0]);
    }
}

} // verus!
