//! What's under the pointer when you cmd-click terminal text: a URL, or a
//! `path:line:col` that resolves to a real file. The pane supplies the grid
//! row and the existence check.
use vstd::prelude::*;

use crate::path::{absolute, join_path, joined_path};
use crate::text::{
    all_digits, begins_with, chars_of, decimal, digits_value, find_seq, has_char, has_prefix,
    has_seq, is_whitespace, lemma_decimal_reads_back, lemma_replaced_front, lemma_rfind,
    lemma_rfind_last, read_digits, replace_char, replaced, rfind, rfind_char, same, slice_of,
    string_of, views, whitespace,
};

verus! {

/// What a click opens.
#[derive(Debug, Clone, PartialEq, Eq)]
pub enum ClickTarget {
    Url(String),
    Path { path: String, line: Option<u32>, col: Option<u32> },
}

/// A token's span within its row, for hover underlining.
#[derive(Debug, Clone, PartialEq, Eq)]
pub struct Token {
    pub start: usize,
    /// Exclusive.
    pub end: usize,
    pub text: String,
}

/// Whether a character separates tokens.
pub open spec fn breaks(c: char) -> bool {
    whitespace(c) || c == '"' || c == '\'' || c == '<' || c == '>' || c == '(' || c == ')' || c
        == '[' || c == ']' || c == '{' || c == '}'
}

fn is_break(c: char) -> (r: bool)
    ensures
        r == breaks(c),
{
    is_whitespace(c) || matches!(c, '"' | '\'' | '<' | '>' | '(' | ')' | '[' | ']' | '{' | '}')
}

/// Whether a character at a token's end belongs to the sentence around it.
pub open spec fn sentence_mark(c: char) -> bool {
    c == ',' || c == '.' || c == ';' || c == ':' || c == '!' || c == '?'
}

/// The column after the last separator in `row`.
pub open spec fn run_start(row: Seq<char>) -> nat
    decreases row.len(),
{
    if row.len() == 0 || breaks(row.last()) {
        row.len()
    } else {
        run_start(row.drop_last())
    }
}

/// The first column from `from` on that holds a separator, or the row's end.
pub open spec fn run_end(row: Seq<char>, from: int) -> int
    decreases row.len() - from,
{
    if from >= row.len() || breaks(row[from]) {
        from
    } else {
        run_end(row, from + 1)
    }
}

/// Where a token that starts at `start` ends once the sentence's punctuation
/// is taken off.
pub open spec fn trimmed_end(row: Seq<char>, start: int, end: int) -> int
    decreases end - start,
{
    if end > start && sentence_mark(row[end - 1]) {
        trimmed_end(row, start, end - 1)
    } else {
        end
    }
}

/// The column that a click on `ix` lands on: past the end is the last one.
pub open spec fn landed(row: Seq<char>, ix: int) -> int {
    if ix < row.len() {
        ix
    } else {
        row.len() - 1
    }
}

/// Where the token at column `ix` starts.
pub open spec fn token_start(row: Seq<char>, ix: int) -> int {
    run_start(row.take(landed(row, ix) + 1)) as int
}

/// Where the token at column `ix` ends.
pub open spec fn token_end(row: Seq<char>, ix: int) -> int {
    trimmed_end(row, token_start(row, ix), run_end(row, landed(row, ix)))
}

/// Whether there is a token at column `ix`.
pub open spec fn has_token(row: Seq<char>, ix: int) -> bool {
    row.len() > 0 && !breaks(row[landed(row, ix)]) && token_start(row, ix) < token_end(row, ix)
}

/// The whitespace/bracket-delimited token covering column `ix`, with
/// trailing sentence punctuation trimmed (`foo.rs:12,` in a traceback).
pub fn token_at(chars: &[char], ix: usize) -> (r: Option<Token>)
    ensures
        match r {
            None => !has_token(chars@, ix as int),
            Some(t) => has_token(chars@, ix as int) && t.start == token_start(chars@, ix as int)
                && t.end == token_end(chars@, ix as int) && t.start < t.end <= chars@.len()
                && t.text@ == chars@.subrange(t.start as int, t.end as int),
        },
{
    if chars.len() == 0 {
        return None;
    }
    let at: usize = if ix < chars.len() {
        ix
    } else {
        chars.len() - 1
    };
    if is_break(chars[at]) {
        return None;
    }
    let mut start: usize = at + 1;
    while start > 0 && !is_break(chars[start - 1])
        invariant
            start <= at + 1 <= chars.len(),
            run_start(chars@.take(at + 1)) == run_start(chars@.take(start as int)),
        decreases start,
    {
        proof {
            let row = chars@.take(start as int);
            assert(row.last() == chars@[start - 1]);
            assert(row.drop_last() =~= chars@.take(start - 1));
        }
        start -= 1;
    }
    proof {
        let row = chars@.take(start as int);
        if start > 0 {
            assert(row.last() == chars@[start - 1]);
        }
        assert(run_start(row) == start);
    }
    let mut end: usize = at;
    while end < chars.len() && !is_break(chars[end])
        invariant
            at <= end <= chars.len(),
            run_end(chars@, at as int) == run_end(chars@, end as int),
        decreases chars.len() - end,
    {
        end += 1;
    }
    assert(run_end(chars@, at as int) == end);
    let ghost run = end as int;
    while end > start && matches!(chars[end - 1], ',' | '.' | ';' | ':' | '!' | '?')
        invariant
            end <= chars.len(),
            trimmed_end(chars@, start as int, run) == trimmed_end(chars@, start as int, end as int),
        decreases end,
    {
        end -= 1;
    }
    if end <= start {
        return None;
    }
    Some(Token { start, end, text: string_of(&slice_of(chars, start, end)) })
}

/// Where a trailing `:<number>` starts, if a path is left before it.
pub open spec fn number_at(s: Seq<char>) -> Option<int> {
    match rfind(s, ':') {
        None => None,
        Some(i) => if i > 0 && all_digits(s.skip(i as int + 1)) && digits_value(
            s.skip(i as int + 1),
        ) <= u32::MAX {
            Some(i as int)
        } else {
            None
        },
    }
}

/// The number after the colon at `i`.
pub open spec fn number_after(s: Seq<char>, i: int) -> int {
    digits_value(s.skip(i + 1))
}

/// A place in a file as text: its path, and the line and column if given.
pub ghost struct Spot {
    pub path: Seq<char>,
    pub line: Option<int>,
    pub col: Option<int>,
}

/// The place that a token names. Of two numbers at its end the first is the
/// line.
pub open spec fn spot(token: Seq<char>) -> Spot {
    match number_at(token) {
        None => Spot { path: token, line: None, col: None },
        Some(i) => {
            let head = token.take(i);
            match number_at(head) {
                None => Spot { path: head, line: Some(number_after(token, i)), col: None },
                Some(j) => Spot {
                    path: head.take(j),
                    line: Some(number_after(head, j)),
                    col: Some(number_after(token, i)),
                },
            }
        },
    }
}

/// The value of an optional number.
pub open spec fn number(n: Option<u32>) -> Option<int> {
    match n {
        None => None,
        Some(v) => Some(v as int),
    }
}

fn last_number(s: &[char]) -> (r: Option<(usize, u32)>)
    ensures
        match r {
            None => number_at(s@) is None,
            Some((i, n)) => number_at(s@) == Some(i as int) && i < s@.len() && n == number_after(
                s@,
                i as int,
            ),
        },
{
    proof {
        lemma_rfind(s@, ':');
    }
    let n: usize = s.len();
    match rfind_char(s, ':') {
        None => None,
        Some(i) => {
            let tail = slice_of(s, i + 1, n);
            assert(tail@ =~= s@.skip(i + 1));
            match read_digits(&tail, 0xffff_ffff) {
                None => None,
                Some(n) => if i > 0 {
                    Some((i, n as u32))
                } else {
                    None
                },
            }
        },
    }
}

/// Split `src/main.rs:42:8` into the path text and the line/column suffix.
/// Only trailing all-digit components count, so `foo:bar` stays whole and a
/// Windows drive letter is never mistaken for a line number.
pub fn split_line_col(token: &str) -> (r: (String, Option<u32>, Option<u32>))
    ensures
        r.0@ == spot(token@).path,
        number(r.1) == spot(token@).line,
        number(r.2) == spot(token@).col,
{
    let chars = chars_of(token);
    match last_number(&chars) {
        None => (token.to_owned(), None, None),
        Some((i, n)) => {
            let head = slice_of(&chars, 0, i);
            assert(head@ =~= chars@.take(i as int));
            match last_number(&head) {
                None => (string_of(&head), Some(n), None),
                Some((j, line)) => {
                    let path = slice_of(&head, 0, j);
                    assert(path@ =~= head@.take(j as int));
                    (string_of(&path), Some(line), Some(n))
                },
            }
        },
    }
}

/// Where a relative path may be anchored, in precedence order.
pub struct Roots<'a> {
    pub cwd: Option<&'a str>,
    pub git_root: Option<&'a str>,
    pub tree_root: Option<&'a str>,
    pub home: Option<&'a str>,
}

/// The path below one anchor, where there is such an anchor.
pub open spec fn anchored(base: Option<&str>, text: Seq<char>) -> Seq<Seq<char>> {
    match base {
        None => Seq::empty(),
        Some(b) => seq![joined_path(b@, text)],
    }
}

/// The paths that a text may stand for, in the order in which they are tried.
pub open spec fn candidates(text: Seq<char>, roots: Roots) -> Seq<Seq<char>> {
    if text.len() == 0 || find_seq(text, "://"@) is Some {
        Seq::empty()
    } else if begins_with(text, "~/"@) {
        anchored(roots.home, text.skip(2))
    } else if text == "~"@ {
        Seq::empty()
    } else if absolute(text) {
        seq![text]
    } else {
        anchored(roots.cwd, text) + anchored(roots.git_root, text) + anchored(roots.tree_root, text)
    }
}

/// Whether the existence check was asked about `path` and answered `answer`.
pub open spec fn told<F: Fn(&str) -> bool>(on_disk: F, path: Seq<char>, answer: bool) -> bool {
    exists|p: &str| p@ == path && #[trigger] call_ensures(on_disk, (p,), answer)
}

/// The first of `list` that the existence check knows, or none of them.
pub open spec fn first_existing<F: Fn(&str) -> bool>(
    list: Seq<Seq<char>>,
    on_disk: F,
    found: Option<Seq<char>>,
) -> bool {
    match found {
        None => forall|k: int| 0 <= k < list.len() ==> told(on_disk, #[trigger] list[k], false),
        Some(p) => exists|k: int|
            0 <= k < list.len() && #[trigger] list[k] == p && told(on_disk, p, true) && (forall|j: int|
                0 <= j < k ==> told(on_disk, #[trigger] list[j], false)),
    }
}

/// The text of a string that may be missing.
pub open spec fn found_text(r: Option<String>) -> Option<Seq<char>> {
    match r {
        None => None,
        Some(s) => Some(s@),
    }
}

fn push_anchored(out: &mut Vec<String>, base: Option<&str>, text: &str)
    ensures
        views(final(out)@) == views(old(out)@) + anchored(base, text@),
{
    if let Some(b) = base {
        let joined = join_path(b, text);
        out.push(joined);
        assert(views(out@) =~= views(old(out)@) + anchored(base, text@));
    } else {
        assert(views(out@) =~= views(old(out)@) + anchored(base, text@));
    }
}

fn candidate_list(text: &str, roots: &Roots) -> (r: Vec<String>)
    ensures
        views(r@) == candidates(text@, *roots),
{
    let chars = chars_of(text);
    let mut out: Vec<String> = Vec::new();
    let ghost none = Seq::<Seq<char>>::empty();
    assert(views(out@) =~= none);
    if chars.len() == 0 || has_seq(text, "://") {
        return out;
    }
    if has_prefix(text, "~/") {
        proof {
            reveal_strlit("~/");
        }
        let rest = slice_of(&chars, 2, chars.len());
        assert(rest@ =~= text@.skip(2));
        let rest = string_of(&rest);
        push_anchored(&mut out, roots.home, rest.as_str());
        assert(none + anchored(roots.home, rest@) =~= anchored(roots.home, rest@));
        return out;
    }
    if same(text, "~") {
        return out;
    }
    if chars[0] == '/' {
        out.push(text.to_owned());
        assert(views(out@) =~= seq![text@]);
        return out;
    }
    push_anchored(&mut out, roots.cwd, text);
    push_anchored(&mut out, roots.git_root, text);
    push_anchored(&mut out, roots.tree_root, text);
    assert(none + anchored(roots.cwd, text@) =~= anchored(roots.cwd, text@));
    out
}

/// Resolve `text` to an existing path. Absolute and `~` paths are taken as
/// is; relative ones are tried against the pane's cwd, then the repo root
/// (tools print repo-relative paths from subdirectories), then the tree
/// root. No basename search: opening the wrong `mod.rs` is worse than
/// opening nothing.
pub fn resolve_path<F: Fn(&str) -> bool>(text: &str, roots: &Roots, on_disk: &F) -> (r: Option<
    String,
>)
    requires
        forall|p: &str| call_requires(*on_disk, (p,)),
    ensures
        first_existing(candidates(text@, *roots), *on_disk, found_text(r)),
{
    let list = candidate_list(text, roots);
    let ghost all = candidates(text@, *roots);
    let mut i: usize = 0;
    while i < list.len()
        invariant
            i <= list.len(),
            all == views(list@),
            all == candidates(text@, *roots),
            forall|p: &str| call_requires(*on_disk, (p,)),
            forall|j: int| 0 <= j < i ==> told(*on_disk, #[trigger] all[j], false),
        decreases list.len() - i,
    {
        let p = list[i].as_str();
        let known = on_disk(p);
        assert(all[i as int] == p@);
        assert(told(*on_disk, p@, known));
        if known {
            return Some(p.to_owned());
        }
        i += 1;
    }
    None
}

/// Whether a token is a web or file address.
pub open spec fn is_url(token: Seq<char>) -> bool {
    begins_with(token, "http://"@) || begins_with(token, "https://"@) || begins_with(
        token,
        "file://"@,
    )
}

/// Whether a token looks enough like a path to be tried: a separator, an
/// extension or a line number.
pub open spec fn plausible(token: Seq<char>) -> bool {
    spot(token).path.contains('/') || spot(token).path.contains('.') || spot(token).line is Some
}

/// What a token leads to: URLs win, then `path[:line[:col]]` that resolves.
pub open spec fn leads_to<F: Fn(&str) -> bool>(
    token: Seq<char>,
    roots: Roots,
    on_disk: F,
    r: Option<ClickTarget>,
) -> bool {
    if is_url(token) {
        r matches Some(ClickTarget::Url(u)) && u@ == token
    } else if !plausible(token) {
        r is None
    } else {
        match r {
            None => first_existing(candidates(spot(token).path, roots), on_disk, None),
            Some(ClickTarget::Url(_)) => false,
            Some(ClickTarget::Path { path, line, col }) => first_existing(
                candidates(spot(token).path, roots),
                on_disk,
                Some(path@),
            ) && number(line) == spot(token).line && number(col) == spot(token).col,
        }
    }
}

/// Classify a token: URLs win, then `path[:line[:col]]` that resolves.
pub fn classify<F: Fn(&str) -> bool>(token: &str, roots: &Roots, on_disk: &F) -> (r: Option<
    ClickTarget,
>)
    requires
        forall|p: &str| call_requires(*on_disk, (p,)),
    ensures
        leads_to(token@, *roots, *on_disk, r),
{
    if has_prefix(token, "http://") || has_prefix(token, "https://") || has_prefix(
        token,
        "file://",
    ) {
        return Some(ClickTarget::Url(token.to_owned()));
    }
    let (text, line, col) = split_line_col(token);
    let chars = chars_of(text.as_str());
    // A bare word is rarely a path someone wants opened.
    if !(has_char(&chars, '/') || has_char(&chars, '.') || line.is_some()) {
        return None;
    }
    match resolve_path(text.as_str(), roots, on_disk) {
        None => None,
        Some(path) => Some(ClickTarget::Path { path, line, col }),
    }
}

/// A text between single quotes, its own quotes spelled out.
pub open spec fn single_quoted(text: Seq<char>) -> Seq<char> {
    "'"@ + replaced(text, '\'', "'\\''"@) + "'"@
}

/// A text that starts with a dash, moved out of reach of option parsing.
pub open spec fn undashed(text: Seq<char>) -> Seq<char> {
    if text.len() > 0 && text[0] == '-' {
        "./"@ + text
    } else {
        text
    }
}

/// Quote a text for any Bourne-family shell.
pub fn single_quote(text: &str) -> (r: String)
    ensures
        r@ == single_quoted(text@),
{
    let mut out = "'".to_owned();
    out.push_str(replace_char(text, '\'', "'\\''").as_str());
    out.push_str("'");
    out
}

/// Single-quote for any Bourne-family shell, so a space in a name stays one
/// argument. A leading `-` gets `./` so the shell can't read it as a flag.
pub fn shell_quote(text: &str) -> (r: String)
    ensures
        r@ == single_quoted(undashed(text@)),
{
    let chars = chars_of(text);
    if chars.len() > 0 && chars[0] == '-' {
        let mut safe = "./".to_owned();
        safe.push_str(text);
        single_quote(safe.as_str())
    } else {
        single_quote(text)
    }
}

/// The word that a Bourne shell reads from quoted text, or `None` where the
/// text is no single word of quotes and escapes.
pub open spec fn shell_word(s: Seq<char>) -> Option<Seq<char>>
    decreases s.len(), 1int,
{
    if s.len() == 0 {
        Some(Seq::empty())
    } else if s[0] == '\'' {
        in_quotes(s.skip(1))
    } else if s[0] == '\\' && s.len() >= 2 {
        match shell_word(s.skip(2)) {
            None => None,
            Some(w) => Some(seq![s[1]] + w),
        }
    } else {
        None
    }
}

/// What is read from inside single quotes on.
pub open spec fn in_quotes(s: Seq<char>) -> Option<Seq<char>>
    decreases s.len(), 0int,
{
    if s.len() == 0 {
        None
    } else if s[0] == '\'' {
        shell_word(s.skip(1))
    } else {
        match in_quotes(s.skip(1)) {
            None => None,
            Some(w) => Some(seq![s[0]] + w),
        }
    }
}

proof fn lemma_reads_back(text: Seq<char>)
    ensures
        in_quotes(replaced(text, '\'', "'\\''"@) + "'"@) == Some(text),
    decreases text.len(),
{
    reveal_strlit("'");
    reveal_strlit("'\\''");
    let by = "'\\''"@;
    let s = replaced(text, '\'', by) + "'"@;
    if text.len() == 0 {
        assert(s =~= "'"@);
        assert(s.skip(1) =~= Seq::empty());
        assert(shell_word(s.skip(1)) == Some(Seq::<char>::empty()));
        assert(text =~= Seq::empty());
    } else {
        let rest = text.skip(1);
        lemma_replaced_front(text, '\'', by);
        lemma_reads_back(rest);
        let tail = replaced(rest, '\'', by) + "'"@;
        assert(seq![text[0]] + rest =~= text);
        if text[0] == '\'' {
            assert(s =~= by + tail);
            let s1 = s.skip(1);
            let s3 = s1.skip(2);
            assert(s1[0] == '\\' && s1[1] == '\'');
            assert(s3[0] == '\'');
            assert(s3.skip(1) =~= tail);
            assert(shell_word(s3) == in_quotes(tail));
            assert(shell_word(s1) == Some(seq!['\''] + rest));
        } else {
            assert(s =~= seq![text[0]] + tail);
            assert(s.skip(1) =~= tail);
        }
    }
}

/// A shell reads a quoted text back as one word, letter for letter.
pub proof fn lemma_quoting_reads_back(text: Seq<char>)
    ensures
        shell_word(single_quoted(text)) == Some(text),
{
    reveal_strlit("'");
    lemma_reads_back(text);
    let s = single_quoted(text);
    assert(s.skip(1) =~= replaced(text, '\'', "'\\''"@) + "'"@);
}

/// What a quoted path reads back as never starts with a dash.
pub proof fn lemma_quoted_path_is_no_flag(text: Seq<char>)
    ensures
        shell_word(single_quoted(undashed(text))) == Some(undashed(text)),
        undashed(text).len() > 0 ==> undashed(text)[0] != '-',
{
    reveal_strlit("./");
    lemma_quoting_reads_back(undashed(text));
}

/// What a click on column `ix` of a row would open, and the token's span.
/// An explicit hyperlink of the cell wins over textual detection.
pub fn target_at<F: Fn(&str) -> bool>(
    link: Option<&str>,
    row: &[char],
    ix: usize,
    roots: &Roots,
    on_disk: &F,
) -> (r: Option<(ClickTarget, Token)>)
    requires
        forall|p: &str| call_requires(*on_disk, (p,)),
        ix < usize::MAX,
    ensures
        match link {
            Some(uri) => match r {
                Some((ClickTarget::Url(u), t)) => u@ == uri@ && t.start == ix && t.end == ix + 1
                    && t.text@ == uri@,
                _ => false,
            },
            None => if !has_token(row@, ix as int) {
                r is None
            } else {
                let text = row@.subrange(token_start(row@, ix as int), token_end(row@, ix as int));
                match r {
                    None => leads_to(text, *roots, *on_disk, None),
                    Some((target, t)) => leads_to(text, *roots, *on_disk, Some(target)) && t.start
                        == token_start(row@, ix as int) && t.end == token_end(row@, ix as int)
                        && t.text@ == text,
                }
            },
        },
{
    if let Some(uri) = link {
        let token = Token { start: ix, end: ix + 1, text: uri.to_owned() };
        return Some((ClickTarget::Url(uri.to_owned()), token));
    }
    let token = match token_at(row, ix) {
        None => {
            return None;
        },
        Some(t) => t,
    };
    match classify(token.text.as_str(), roots, on_disk) {
        None => None,
        Some(target) => Some((target, token)),
    }
}

// --- What a click is for ---

/// Every web or file address opens as itself, whatever follows the scheme,
/// wherever the shell is and whatever is on disk.
pub proof fn lemma_addresses_open<F: Fn(&str) -> bool>(
    s: Seq<char>,
    roots: Roots,
    on_disk: F,
    r: Option<ClickTarget>,
)
    ensures
        leads_to("http://"@ + s, roots, on_disk, r) ==> (r matches Some(ClickTarget::Url(u)) && u@
            == "http://"@ + s),
        leads_to("https://"@ + s, roots, on_disk, r) ==> (r matches Some(ClickTarget::Url(u))
            && u@ == "https://"@ + s),
        leads_to("file://"@ + s, roots, on_disk, r) ==> (r matches Some(ClickTarget::Url(u)) && u@
            == "file://"@ + s),
{
    assert(("http://"@ + s).take("http://"@.len() as int) =~= "http://"@);
    assert(("https://"@ + s).take("https://"@.len() as int) =~= "https://"@);
    assert(("file://"@ + s).take("file://"@.len() as int) =~= "file://"@);
}

/// Nothing else opens as an address: what does is the token itself, and
/// starts with one of the three schemes.
pub proof fn lemma_only_addresses_open<F: Fn(&str) -> bool>(
    token: Seq<char>,
    roots: Roots,
    on_disk: F,
    url: String,
) -> (s: Seq<char>)
    requires
        leads_to(token, roots, on_disk, Some(ClickTarget::Url(url))),
    ensures
        url@ == token,
        token == "http://"@ + s || token == "https://"@ + s || token == "file://"@ + s,
{
    let n = if begins_with(token, "http://"@) {
        "http://"@.len() as int
    } else if begins_with(token, "https://"@) {
        "https://"@.len() as int
    } else {
        "file://"@.len() as int
    };
    let s = token.skip(n);
    assert(token =~= token.take(n) + s);
    s
}

/// A path opens only where it is on disk.
pub proof fn lemma_paths_exist<F: Fn(&str) -> bool>(
    token: Seq<char>,
    roots: Roots,
    on_disk: F,
    path: String,
    line: Option<u32>,
    col: Option<u32>,
)
    requires
        leads_to(token, roots, on_disk, Some(ClickTarget::Path { path, line, col })),
    ensures
        told(on_disk, path@, true),
{
}

/// A bare word opens nothing: without a slash, a dot or a colon in it, a
/// token is no path and no address.
pub proof fn lemma_bare_words_open_nothing<F: Fn(&str) -> bool>(
    token: Seq<char>,
    roots: Roots,
    on_disk: F,
    r: Option<ClickTarget>,
)
    requires
        !token.contains('/'),
        !token.contains('.'),
        !token.contains(':'),
        leads_to(token, roots, on_disk, r),
    ensures
        r is None,
{
    reveal_strlit("http://");
    reveal_strlit("https://");
    reveal_strlit("file://");
    lemma_rfind_last(token, ':');
    if rfind(token, ':') is Some {
        assert(token.contains(token[rfind(token, ':')->0 as int]));
    }
    if begins_with(token, "http://"@) {
        assert(token.take(7)[4] == ':');
        assert(token.contains(token[4]));
    }
    if begins_with(token, "https://"@) {
        assert(token.take(8)[5] == ':');
        assert(token.contains(token[5]));
    }
    if begins_with(token, "file://"@) {
        assert(token.take(7)[4] == ':');
        assert(token.contains(token[4]));
    }
}

proof fn lemma_number_behind(p: Seq<char>, n: nat)
    requires
        p.len() > 0,
        n <= u32::MAX,
    ensures
        ({
            let s = p + seq![':'] + decimal(n);
            number_at(s) == Some(p.len() as int) && number_after(s, p.len() as int) == n && s.take(
                p.len() as int,
            ) == p
        }),
{
    lemma_decimal_reads_back(n);
    let d = decimal(n);
    let s = p + seq![':'] + d;
    lemma_rfind_last(s, ':');
    assert(s[p.len() as int] == ':');
    if let Some(k) = rfind(s, ':') {
        if k > p.len() {
            assert(s[k as int] == d[k - p.len() - 1]);
        }
    }
    assert(s.skip(p.len() as int + 1) =~= d);
    assert(s.take(p.len() as int) =~= p);
}

/// A path with a line and a column behind it is read as that path, that line
/// and that column, in this order; with a line alone, as the path and the
/// line; and a path without a colon as just the path.
pub proof fn lemma_places_read_back(path: Seq<char>, line: nat, col: nat)
    requires
        path.len() > 0,
        line <= u32::MAX,
        col <= u32::MAX,
    ensures
        spot(path + seq![':'] + decimal(line) + seq![':'] + decimal(col)) == (Spot {
            path,
            line: Some(line as int),
            col: Some(col as int),
        }),
        !path.contains(':') ==> spot(path + seq![':'] + decimal(line)) == (Spot {
            path,
            line: Some(line as int),
            col: None,
        }),
        !path.contains(':') ==> spot(path) == (Spot { path, line: None, col: None }),
{
    let one = path + seq![':'] + decimal(line);
    lemma_number_behind(path, line);
    lemma_number_behind(one, col);
    lemma_rfind_last(path, ':');
    if rfind(path, ':') is Some {
        assert(path.contains(path[rfind(path, ':')->0 as int]));
    }
}

/// An absolute path stands for itself alone, and a path below `~` for the
/// one below the home directory alone.
pub proof fn lemma_rooted_paths(text: Seq<char>, roots: Roots)
    requires
        find_seq(text, "://"@) is None,
    ensures
        text.len() > 0 && text[0] == '/' ==> candidates(text, roots) == seq![text],
        text.len() > 1 && text[0] == '~' && text[1] == '/' ==> candidates(text, roots) == (
        match roots.home {
            None => Seq::<Seq<char>>::empty(),
            Some(h) => seq![joined_path(h@, text.skip(2))],
        }),
{
    reveal_strlit("~/");
    reveal_strlit("~");
    if text.len() > 0 && text[0] == '/' && begins_with(text, "~/"@) {
        assert(text.take(2)[0] == '~');
    }
    if text.len() > 1 && text[0] == '~' && text[1] == '/' {
        assert(text.take(2) =~= "~/"@);
    }
}

/// A relative path is looked for where the shell is before anywhere else,
/// then in the repository, then in the tree, and nowhere besides.
pub proof fn lemma_relative_paths(text: Seq<char>, cwd: &str, git: &str, tree: &str, roots: Roots)
    requires
        text.len() > 0,
        text[0] != '/',
        text[0] != '~',
        find_seq(text, "://"@) is None,
        roots.cwd == Some(cwd),
        roots.git_root == Some(git),
        roots.tree_root == Some(tree),
    ensures
        candidates(text, roots) == seq![
            joined_path(cwd@, text),
            joined_path(git@, text),
            joined_path(tree@, text),
        ],
{
    reveal_strlit("~/");
    reveal_strlit("~");
    if begins_with(text, "~/"@) {
        assert(text.take(2)[0] == '~');
    }
    assert(text != "~"@) by {
        if text == "~"@ {
            assert(text[0] == '~');
        }
    }
    assert(candidates(text, roots) =~= seq![
        joined_path(cwd@, text),
        joined_path(git@, text),
        joined_path(tree@, text),
    ]);
}

/// White space, quotes and brackets of every kind end a token, and nothing
/// else does; a comma, a stop, a colon, a semicolon, an exclamation or a
/// question mark at its end is the sentence's.
pub proof fn lemma_token_characters(c: char)
    ensures
        breaks(c) <==> whitespace(c) || "\"'<>()[]{}"@.contains(c),
        sentence_mark(c) <==> ",.;:!?"@.contains(c),
{
    reveal_strlit("\"'<>()[]{}");
    reveal_strlit(",.;:!?");
    let a = "\"'<>()[]{}"@;
    let b = ",.;:!?"@;
    assert(a[0] == '"' && a[1] == '\'' && a[2] == '<' && a[3] == '>' && a[4] == '(' && a[5] == ')'
        && a[6] == '[' && a[7] == ']' && a[8] == '{' && a[9] == '}');
    assert(b[0] == ',' && b[1] == '.' && b[2] == ';' && b[3] == ':' && b[4] == '!' && b[5] == '?');
}

proof fn lemma_run_start(row: Seq<char>)
    ensures
        run_start(row) <= row.len(),
        run_start(row) > 0 ==> breaks(row[run_start(row) - 1]),
        forall|i: int| run_start(row) <= i < row.len() ==> !breaks(#[trigger] row[i]),
    decreases row.len(),
{
    if row.len() > 0 && !breaks(row.last()) {
        let r = row.drop_last();
        lemma_run_start(r);
        assert forall|i: int| run_start(row) <= i < row.len() implies !breaks(
            #[trigger] row[i],
        ) by {
            if i < r.len() {
                assert(r[i] == row[i]);
            }
        }
    }
}

proof fn lemma_run_end(row: Seq<char>, from: int)
    requires
        0 <= from <= row.len(),
    ensures
        from <= run_end(row, from) <= row.len(),
        run_end(row, from) < row.len() ==> breaks(row[run_end(row, from)]),
        forall|i: int| from <= i < run_end(row, from) ==> !breaks(#[trigger] row[i]),
    decreases row.len() - from,
{
    if from < row.len() && !breaks(row[from]) {
        lemma_run_end(row, from + 1);
    }
}

proof fn lemma_trimmed_end(row: Seq<char>, start: int, end: int)
    requires
        0 <= start <= end <= row.len(),
    ensures
        start <= trimmed_end(row, start, end) <= end,
        trimmed_end(row, start, end) > start ==> !sentence_mark(
            row[trimmed_end(row, start, end) - 1],
        ),
        forall|i: int|
            trimmed_end(row, start, end) <= i < end ==> sentence_mark(#[trigger] row[i]),
    decreases end - start,
{
    if end > start && sentence_mark(row[end - 1]) {
        lemma_trimmed_end(row, start, end - 1);
    }
}

/// A token is the whole run of characters around the click: it holds no
/// separator, a separator or the row's end stands before it, and between it
/// and the next separator there is nothing but the sentence's punctuation,
/// none of which it ends in.
pub proof fn lemma_token_is_the_run(row: Seq<char>, ix: int) -> (end: int)
    requires
        0 <= ix,
        has_token(row, ix),
    ensures
        ({
            let a = token_start(row, ix);
            let b = token_end(row, ix);
            &&& 0 <= a < b <= end <= row.len()
            &&& a <= ix
            &&& ix < row.len() ==> ix < end
            &&& a > 0 ==> breaks(row[a - 1])
            &&& end < row.len() ==> breaks(row[end])
            &&& forall|i: int| a <= i < end ==> !breaks(#[trigger] row[i])
            &&& forall|i: int| b <= i < end ==> sentence_mark(#[trigger] row[i])
            &&& !sentence_mark(row[b - 1])
        }),
{
    let at = landed(row, ix);
    let head = row.take(at + 1);
    lemma_run_start(head);
    let a = run_start(head) as int;
    assert(head[at] == row[at]);
    lemma_run_end(row, at);
    let end = run_end(row, at);
    lemma_trimmed_end(row, a, end);
    assert(a <= at) by {
        if a == at + 1 {
            assert(breaks(head[a - 1]));
        }
    }
    assert forall|i: int| a <= i < end implies !breaks(#[trigger] row[i]) by {
        if i <= at {
            assert(head[i] == row[i]);
        }
    }
    if a > 0 {
        assert(head[a - 1] == row[a - 1]);
    }
    end
}

} // verus!
