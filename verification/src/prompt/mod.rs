//! The prompt, compiled into init scripts for zsh and bash.
use vstd::prelude::*;

pub mod integration;

use crate::config::schema::{CwdStyle, PromptConfig, SegmentConfig, SegmentKind, SegmentOptions};
use crate::config::theme::{hex_colour, parse_hex};
use crate::text::{
    chars_of, chars_views, decimal, join, lines, push_decimal, lemma_replaced_joined, replace_char,
    replaced, split_lines, string_of, joined, views,
};

verus! {

/// A colour as the parameters of an SGR sequence.
pub open spec fn rgb_text(r: u8, g: u8, b: u8) -> Seq<char> {
    decimal(r as nat) + ";"@ + decimal(g as nat) + ";"@ + decimal(b as nat)
}

/// The colour of text that has none.
pub open spec fn default_fg() -> Seq<char> {
    rgb_text(17, 17, 27)
}

/// The colour behind text that has none.
pub open spec fn default_bg() -> Seq<char> {
    rgb_text(137, 180, 250)
}

/// "r;g;b" for SGR 38;2/48;2 parameters.
pub open spec fn sgr(hex: Option<String>, fallback: Seq<char>) -> Seq<char> {
    match hex {
        None => fallback,
        Some(h) => match hex_colour(h@) {
            None => fallback,
            Some(c) => rgb_text(c.r, c.g, c.b),
        },
    }
}

fn sgr_rgb(hex: &Option<String>, r: u8, g: u8, b: u8) -> (s: String)
    ensures
        s@ == sgr(*hex, rgb_text(r, g, b)),
{
    let mut red: u8 = r;
    let mut green: u8 = g;
    let mut blue: u8 = b;
    if let Some(h) = hex {
        if let Some(c) = parse_hex(h.as_str()) {
            red = c.r;
            green = c.g;
            blue = c.b;
        }
    }
    let mut out = String::new();
    push_decimal(&mut out, red as u64);
    assert(out@ =~= decimal(red as nat));
    out.push_str(";");
    push_decimal(&mut out, green as u64);
    out.push_str(";");
    push_decimal(&mut out, blue as u64);
    out
}

/// A text escaped for inclusion inside a shell's double quotes.
pub open spec fn dq(s: Seq<char>) -> Seq<char> {
    replaced(
        replaced(replaced(replaced(s, '\\', "\\\\"@), '"', "\\\""@), '$', "\\$"@),
        '`',
        "\\`"@,
    )
}

/// Escape a string for inclusion inside zsh double quotes.
pub fn zsh_dq(s: &str) -> (r: String)
    ensures
        r@ == dq(s@),
{
    let a = replace_char(s, '\\', "\\\\");
    let b = replace_char(a.as_str(), '"', "\\\"");
    let c = replace_char(b.as_str(), '$', "\\$");
    replace_char(c.as_str(), '`', "\\`")
}

/// The characters that mean something between double quotes.
pub open spec fn dq_special(c: char) -> bool {
    c == '\\' || c == '"' || c == '$' || c == '`'
}

/// What a shell reads between double quotes, or `None` where the quotes
/// would end, something would be expanded, or a backslash escapes nothing.
pub open spec fn dq_word(s: Seq<char>) -> Option<Seq<char>>
    decreases s.len(),
{
    if s.len() == 0 {
        Some(Seq::empty())
    } else if s[0] == '\\' && s.len() >= 2 && dq_special(s[1]) {
        match dq_word(s.skip(2)) {
            None => None,
            Some(w) => Some(seq![s[1]] + w),
        }
    } else if dq_special(s[0]) {
        None
    } else {
        match dq_word(s.skip(1)) {
            None => None,
            Some(w) => Some(seq![s[0]] + w),
        }
    }
}

/// One character escaped.
pub open spec fn dq_char(c: char) -> Seq<char> {
    if dq_special(c) {
        seq!['\\', c]
    } else {
        seq![c]
    }
}

proof fn lemma_one(c: char, d: char, by: Seq<char>)
    ensures
        replaced(seq![c], d, by) == (if c == d {
            by
        } else {
            seq![c]
        }),
{
    let s = seq![c];
    assert(s.drop_last() =~= Seq::empty());
    assert(replaced(s.drop_last(), d, by) =~= Seq::empty());
    assert(Seq::<char>::empty() + by =~= by);
    assert(replaced(s, d, by) =~= (if c == d {
        by
    } else {
        seq![c]
    }));
}

proof fn lemma_two(a: char, c: char, d: char, by: Seq<char>)
    requires
        a != d,
        c != d,
    ensures
        replaced(seq![a, c], d, by) == seq![a, c],
{
    assert(seq![a, c] =~= seq![a] + seq![c]);
    lemma_replaced_joined(seq![a], seq![c], d, by);
    lemma_one(a, d, by);
    lemma_one(c, d, by);
}

proof fn lemma_dq_front(s: Seq<char>)
    requires
        s.len() > 0,
    ensures
        dq(s) == dq_char(s[0]) + dq(s.skip(1)),
{
    reveal_strlit("\\\\");
    reveal_strlit("\\\"");
    reveal_strlit("\\$");
    reveal_strlit("\\`");
    assert("\\\\"@ =~= seq!['\\', '\\']);
    assert("\\\""@ =~= seq!['\\', '"']);
    assert("\\$"@ =~= seq!['\\', '$']);
    assert("\\`"@ =~= seq!['\\', '`']);
    let c = s[0];
    let h = seq![c];
    let t = s.skip(1);
    assert(s =~= h + t);
    lemma_replaced_joined(h, t, '\\', "\\\\"@);
    let h1 = replaced(h, '\\', "\\\\"@);
    let t1 = replaced(t, '\\', "\\\\"@);
    lemma_replaced_joined(h1, t1, '"', "\\\""@);
    let h2 = replaced(h1, '"', "\\\""@);
    let t2 = replaced(t1, '"', "\\\""@);
    lemma_replaced_joined(h2, t2, '$', "\\$"@);
    let h3 = replaced(h2, '$', "\\$"@);
    let t3 = replaced(t2, '$', "\\$"@);
    lemma_replaced_joined(h3, t3, '`', "\\`"@);
    lemma_one(c, '\\', "\\\\"@);
    lemma_one(c, '"', "\\\""@);
    lemma_one(c, '$', "\\$"@);
    lemma_one(c, '`', "\\`"@);
    lemma_two('\\', '\\', '"', "\\\""@);
    lemma_two('\\', '\\', '$', "\\$"@);
    lemma_two('\\', '\\', '`', "\\`"@);
    lemma_two('\\', '"', '$', "\\$"@);
    lemma_two('\\', '"', '`', "\\`"@);
    lemma_two('\\', '$', '`', "\\`"@);
}

/// A shell reads an escaped text back letter for letter: nothing in it ends
/// the quotes or is expanded.
pub proof fn lemma_dq_reads_back(s: Seq<char>)
    ensures
        dq_word(dq(s)) == Some(s),
    decreases s.len(),
{
    if s.len() == 0 {
        assert(dq(s) =~= Seq::empty());
        assert(s =~= Seq::empty());
    } else {
        let t = s.skip(1);
        lemma_dq_front(s);
        lemma_dq_reads_back(t);
        let d = dq_char(s[0]) + dq(t);
        assert(s =~= seq![s[0]] + t);
        if dq_special(s[0]) {
            assert(d.skip(2) =~= dq(t));
        } else {
            assert(d.skip(1) =~= dq(t));
        }
    }
}

/// A text that may be missing, with a default.
pub open spec fn or_default(s: Option<String>, default: Seq<char>) -> Seq<char> {
    match s {
        None => default,
        Some(t) => t@,
    }
}

fn default_text(s: &Option<String>, default: &str) -> (r: String)
    ensures
        r@ == or_default(*s, default@),
{
    match s {
        None => default.to_owned(),
        Some(t) => t.clone(),
    }
}

/// Whether bold is on.
pub open spec fn bold_flag(bold: bool) -> Seq<char> {
    if bold {
        "1"@
    } else {
        "0"@
    }
}

/// The call that draws a segment.
pub open spec fn draw(text: Seq<char>, fg: Seq<char>, bg: Seq<char>, bold: Seq<char>) -> Seq<char> {
    "__oxide_seg \""@ + text + "\" \""@ + fg + "\" \""@ + bg + "\" "@ + bold
}

fn add_draw(out: &mut String, text: &str, fg: &String, bg: &String, bold: &str)
    ensures
        final(out)@ == old(out)@ + draw(text@, fg@, bg@, bold@),
{
    let ghost before = out@;
    out.push_str("__oxide_seg \"");
    out.push_str(text);
    out.push_str("\" \"");
    out.push_str(fg.as_str());
    out.push_str("\" \"");
    out.push_str(bg.as_str());
    out.push_str("\" ");
    out.push_str(bold);
    assert(out@ =~= before + draw(text@, fg@, bg@, bold@));
}

fn drawn(text: &str, fg: &String, bg: &String, bold: &str) -> (r: String)
    ensures
        r@ == draw(text@, fg@, bg@, bold@) + "\n"@,
{
    let mut out = String::new();
    add_draw(&mut out, text, fg, bg, bold);
    assert(out@ =~= draw(text@, fg@, bg@, bold@));
    out.push_str("\n");
    out
}

/// How a working directory is shown.
pub open spec fn cwd_style(o: SegmentOptions) -> CwdStyle {
    match o.style {
        None => CwdStyle::TruncateToRepo,
        Some(s) => s,
    }
}

/// The longest working directory, four characters at least.
pub open spec fn max_length(o: SegmentOptions) -> nat {
    match o.max_len {
        None => 40,
        Some(n) => if n < 4 {
            4
        } else {
            n as nat
        },
    }
}

/// The line that cuts a working directory to a length.
pub open spec fn cut_to(n: nat) -> Seq<char> {
    "(( ${#__cwd} > "@ + decimal(n) + " )) && __cwd=\"…${__cwd: -"@ + decimal(n) + "}\"\n"@
}

fn add_cut(out: &mut String, o: &SegmentOptions)
    ensures
        final(out)@ == old(out)@ + cut_to(max_length(*o)),
{
    let ghost before = out@;
    let n: usize = match o.max_len {
        None => 40,
        Some(n) => if n < 4 {
            4
        } else {
            n
        },
    };
    out.push_str("(( ${#__cwd} > ");
    push_decimal(out, n as u64);
    out.push_str(" )) && __cwd=\"…${__cwd: -");
    push_decimal(out, n as u64);
    out.push_str("}\"\n");
    assert(out@ =~= before + cut_to(n as nat));
}

/// A choice that is on unless it is switched off.
pub open spec fn unless_off(choice: Option<bool>) -> bool {
    match choice {
        None => true,
        Some(b) => b,
    }
}

fn on(choice: Option<bool>) -> (r: bool)
    ensures
        r == unless_off(choice),
{
    match choice {
        None => true,
        Some(b) => b,
    }
}

/// The branch segment: its name, and whether the tree is dirty and how far
/// it is from its upstream, as far as those are wanted.
pub open spec fn git_snippet(o: SegmentOptions, fg: Seq<char>, bg: Seq<char>, bold: Seq<char>) -> Seq<
    char,
> {
    "local __br=\"\"\n(( __oxide_git_ok )) && __br=$(command git symbolic-ref --short HEAD 2>/dev/null || command git rev-parse --short HEAD 2>/dev/null)\nif [[ -n \"$__br\" ]]; then\n  local __gbg=\""@ + bg + "\"\n  local __gtext=\" $__br\"\n"@ + (if unless_off(o.show_dirty) {
        "  if [[ -n $(command git status --porcelain --untracked-files=no 2>/dev/null | command head -c1) ]]; then __gbg=\""@ + sgr(o.dirty_bg, rgb_text(249, 226, 175)) + "\"; fi\n"@
    } else {
        ""@
    }) + (if unless_off(o.ahead_behind) {
        "  local __ab=$(command git rev-list --left-right --count 'HEAD...@{upstream}' 2>/dev/null)\n  if [[ -n \"$__ab\" ]]; then\n    local __ahead=\"${__ab%%$'\\t'*}\" __behind=\"${__ab##*$'\\t'}\"\n    (( __ahead > 0 )) && __gtext+=\" ⇡$__ahead\"\n    (( __behind > 0 )) && __gtext+=\" ⇣$__behind\"\n  fi\n"@
    } else {
        ""@
    }) + "  "@ + draw("$__gtext"@, fg, "$__gbg"@, bold) + "\nfi\n"@
}

fn git_segment(o: &SegmentOptions, fg: &String, bg: &String, bold: &str) -> (r: String)
    ensures
        r@ == git_snippet(*o, fg@, bg@, bold@),
{
    let mut out = "local __br=\"\"\n(( __oxide_git_ok )) && __br=$(command git symbolic-ref --short HEAD 2>/dev/null || command git rev-parse --short HEAD 2>/dev/null)\nif [[ -n \"$__br\" ]]; then\n  local __gbg=\"".to_owned();
    out.push_str(bg.as_str());
    out.push_str("\"\n  local __gtext=\" $__br\"\n");
    let mut dirty = "".to_owned();
    if on(o.show_dirty) {
        dirty = "  if [[ -n $(command git status --porcelain --untracked-files=no 2>/dev/null | command head -c1) ]]; then __gbg=\"".to_owned();
        dirty.push_str(sgr_rgb(&o.dirty_bg, 249, 226, 175).as_str());
        dirty.push_str("\"; fi\n");
    }
    out.push_str(dirty.as_str());
    out.push_str(
        if on(o.ahead_behind) {
            "  local __ab=$(command git rev-list --left-right --count 'HEAD...@{upstream}' 2>/dev/null)\n  if [[ -n \"$__ab\" ]]; then\n    local __ahead=\"${__ab%%$'\\t'*}\" __behind=\"${__ab##*$'\\t'}\"\n    (( __ahead > 0 )) && __gtext+=\" ⇡$__ahead\"\n    (( __behind > 0 )) && __gtext+=\" ⇣$__behind\"\n  fi\n"
        } else {
            ""
        },
    );
    out.push_str("  ");
    add_draw(&mut out, "$__gtext", fg, &"$__gbg".to_owned(), bold);
    out.push_str("\nfi\n");
    out
}

/// The exit status segment, on success only where that is wanted.
pub open spec fn exit_snippet(o: SegmentOptions, fg: Seq<char>, bg: Seq<char>, bold: Seq<char>) -> Seq<
    char,
> {
    if unless_off(o.hide_on_success) {
        "if (( __oxide_exit != 0 )); then "@ + draw("✗ $__oxide_exit"@, fg, bg, bold) + "; fi\n"@
    } else {
        draw("$__oxide_exit"@, fg, bg, bold) + "\n"@
    }
}

fn exit_segment(o: &SegmentOptions, fg: &String, bg: &String, bold: &str) -> (r: String)
    ensures
        r@ == exit_snippet(*o, fg@, bg@, bold@),
{
    if on(o.hide_on_success) {
        let mut out = "if (( __oxide_exit != 0 )); then ".to_owned();
        add_draw(&mut out, "✗ $__oxide_exit", fg, bg, bold);
        out.push_str("; fi\n");
        out
    } else {
        drawn("$__oxide_exit", fg, bg, bold)
    }
}

/// Whether a text is made of ASCII letters, digits and underscores alone.
pub open spec fn is_identifier(s: Seq<char>) -> bool {
    forall|i: int| 0 <= i < s.len() ==> identifier_char(#[trigger] s[i])
}

pub open spec fn identifier_char(c: char) -> bool {
    'a' <= c <= 'z' || 'A' <= c <= 'Z' || '0' <= c <= '9' || c == '_'
}

fn identifier(s: &str) -> (r: bool)
    ensures
        r == is_identifier(s@),
{
    let v = chars_of(s);
    let mut i: usize = 0;
    while i < v.len()
        invariant
            i <= v.len(),
            v@ == s@,
            forall|k: int| 0 <= k < i ==> identifier_char(#[trigger] v@[k]),
        decreases v.len() - i,
    {
        let c = v[i];
        if !((c >= 'a' && c <= 'z') || (c >= 'A' && c <= 'Z') || (c >= '0' && c <= '9') || c
            == '_') {
            assert(!identifier_char(s@[i as int]));
            return false;
        }
        i += 1;
    }
    true
}

/// A line with a prefix, unless it is empty.
pub open spec fn prefixed(line: Seq<char>, prefix: Seq<char>) -> Seq<char> {
    if line.len() == 0 {
        line
    } else {
        prefix + line
    }
}

/// The lines of a text, indented.
pub open spec fn indented(s: Seq<char>, prefix: Seq<char>) -> Seq<char> {
    join(lines(s).map_values(|l: Seq<char>| prefixed(l, prefix)), "\n"@) + "\n"@
}

fn indent_lines(s: &str, prefix: &str) -> (r: String)
    ensures
        r@ == indented(s@, prefix@),
{
    let list = split_lines(s);
    let ghost all = lines(s@);
    let mut out: Vec<String> = Vec::new();
    let mut i: usize = 0;
    while i < list.len()
        invariant
            i == out.len() <= list.len(),
            all == chars_views(list@),
            forall|k: int| 0 <= k < i ==> (#[trigger] out@[k])@ == prefixed(all[k], prefix@),
        decreases list.len() - i,
    {
        assert(all[i as int] == list@[i as int]@);
        let line = string_of(&list[i]);
        if list[i].len() == 0 {
            out.push(line);
        } else {
            let mut l = prefix.to_owned();
            l.push_str(line.as_str());
            out.push(l);
        }
        i += 1;
    }
    assert(views(out@) =~= all.map_values(|l: Seq<char>| prefixed(l, prefix@)));
    let mut r = joined(&out, "\n");
    r.push_str("\n");
    r
}

/// The text of a working directory's computation.
pub open spec fn zsh_cwd(style: CwdStyle) -> Seq<char> {
    match style {
        CwdStyle::Full => "local __cwd=\"${(%):-%~}\"\n"@,
        CwdStyle::Basename => "local __cwd=\"${PWD:t}\"\n"@,
        CwdStyle::TruncateToRepo => "local __cwd=\"${(%):-%~}\"\nlocal __root=\"\"\n(( __oxide_git_ok )) && __root=$(command git rev-parse --show-toplevel 2>/dev/null)\nif [[ -n \"$__root\" && \"$PWD\" == \"$__root\"* ]]; then __cwd=\"${__root:t}${PWD#$__root}\"; fi\n"@,
    }
}

/// What one segment of the prompt is in zsh.
pub open spec fn zsh_snippet(ix: nat, seg: SegmentConfig) -> Seq<char> {
    let o = seg.options;
    let fg = sgr(seg.fg, default_fg());
    let bg = sgr(seg.bg, default_bg());
    let bold = bold_flag(seg.bold);
    match seg.kind {
        SegmentKind::Cwd => zsh_cwd(cwd_style(o)) + cut_to(max_length(o)) + draw("$__cwd"@, fg, bg, bold)
            + "\n"@,
        SegmentKind::Git => git_snippet(o, fg, bg, bold),
        SegmentKind::ExitStatus => exit_snippet(o, fg, bg, bold),
        SegmentKind::Time => draw("${(%):-%D{"@ + or_default(o.format, "%H:%M"@) + "}}"@, fg, bg, bold) + "\n"@,
        SegmentKind::User => draw("${(%):-%n}"@, fg, bg, bold) + "\n"@,
        SegmentKind::Host => draw("${(%):-%m}"@, fg, bg, bold) + "\n"@,
        SegmentKind::Duration => "if [[ -n \"$__oxide_dur\" ]] && (( __oxide_dur >= 2.0 )); then\n  local __ds\n  if (( __oxide_dur >= 60 )); then __ds=\"$(( ${__oxide_dur%%.*} / 60 ))m$(( ${__oxide_dur%%.*} % 60 ))s\"; else __ds=$(printf '%.1fs' \"$__oxide_dur\"); fi\n  "@ + draw("$__ds"@, fg, bg, bold) + "\nfi\n"@,
        SegmentKind::Text => draw(dq(or_default(o.text, ""@)), fg, bg, bold) + "\n"@,
        SegmentKind::Env => match o.var {
            None => Seq::empty(),
            Some(var) => if is_identifier(var@) {
                "[[ -n \"${"@ + var@ + "}\" ]] && "@ + draw("${"@ + var@ + "}"@, fg, bg, bold) + " # segment "@ + decimal(ix) + "\n"@
            } else {
                Seq::empty()
            },
        },
    }
}

/// What one segment of the prompt is in zsh. An environment variable
/// whose name is no identifier is left out.
pub fn segment_snippet(ix: usize, seg: &SegmentConfig) -> (r: String)
    ensures
        r@ == zsh_snippet(ix as nat, *seg),
{
    let o = &seg.options;
    let fg = sgr_rgb(&seg.fg, 17, 17, 27);
    let bg = sgr_rgb(&seg.bg, 137, 180, 250);
    let bold = if seg.bold {
        "1"
    } else {
        "0"
    };
    match seg.kind {
        SegmentKind::Cwd => {
            let style = match o.style {
                None => CwdStyle::TruncateToRepo,
                Some(s) => s,
            };
            let mut out = match style {
                CwdStyle::Full => "local __cwd=\"${(%):-%~}\"\n".to_owned(),
                CwdStyle::Basename => "local __cwd=\"${PWD:t}\"\n".to_owned(),
                CwdStyle::TruncateToRepo => "local __cwd=\"${(%):-%~}\"\nlocal __root=\"\"\n(( __oxide_git_ok )) && __root=$(command git rev-parse --show-toplevel 2>/dev/null)\nif [[ -n \"$__root\" && \"$PWD\" == \"$__root\"* ]]; then __cwd=\"${__root:t}${PWD#$__root}\"; fi\n".to_owned(),
            };
            add_cut(&mut out, o);
            add_draw(&mut out, "$__cwd", &fg, &bg, bold);
            out.push_str("\n");
            out
        },
        SegmentKind::Git => git_segment(o, &fg, &bg, bold),
        SegmentKind::ExitStatus => exit_segment(o, &fg, &bg, bold),
        SegmentKind::Time => {
            let mut text = "${(%):-%D{".to_owned();
            text.push_str(default_text(&o.format, "%H:%M").as_str());
            text.push_str("}}");
            drawn(text.as_str(), &fg, &bg, bold)
        },
        SegmentKind::User => drawn("${(%):-%n}", &fg, &bg, bold),
        SegmentKind::Host => drawn("${(%):-%m}", &fg, &bg, bold),
        SegmentKind::Duration => {
            let mut out = "if [[ -n \"$__oxide_dur\" ]] && (( __oxide_dur >= 2.0 )); then\n  local __ds\n  if (( __oxide_dur >= 60 )); then __ds=\"$(( ${__oxide_dur%%.*} / 60 ))m$(( ${__oxide_dur%%.*} % 60 ))s\"; else __ds=$(printf '%.1fs' \"$__oxide_dur\"); fi\n  ".to_owned();
            add_draw(&mut out, "$__ds", &fg, &bg, bold);
            out.push_str("\nfi\n");
            out
        },
        SegmentKind::Text => drawn(zsh_dq(default_text(&o.text, "").as_str()).as_str(), &fg, &bg, bold),
        SegmentKind::Env => match &o.var {
            Some(var) => if identifier(var.as_str()) {
                let mut text = "${".to_owned();
                text.push_str(var.as_str());
                text.push_str("}");
                let mut out = "[[ -n \"${".to_owned();
                out.push_str(var.as_str());
                out.push_str("}\" ]] && ");
                add_draw(&mut out, text.as_str(), &fg, &bg, bold);
                out.push_str(" # segment ");
                push_decimal(&mut out, ix as u64);
                out.push_str("\n");
                out
            } else {
                String::new()
            },
            None => String::new(),
        },
    }
}

/// The text of a working directory's computation.
pub open spec fn bash_cwd(style: CwdStyle) -> Seq<char> {
    match style {
        CwdStyle::Full => "local __cwd=\"${PWD/#$HOME/\\~}\"\n"@,
        CwdStyle::Basename => "local __cwd=\"${PWD##*/}\"\n"@,
        CwdStyle::TruncateToRepo => "local __cwd=\"${PWD/#$HOME/\\~}\"\nlocal __root=\"\"\n(( __oxide_git_ok )) && __root=$(command git rev-parse --show-toplevel 2>/dev/null)\nif [[ -n \"$__root\" && \"$PWD\" == \"$__root\"* ]]; then __cwd=\"${__root##*/}${PWD#$__root}\"; fi\n"@,
    }
}

/// What one segment of the prompt is in bash.
pub open spec fn bash_snippet(seg: SegmentConfig) -> Seq<char> {
    let o = seg.options;
    let fg = sgr(seg.fg, default_fg());
    let bg = sgr(seg.bg, default_bg());
    let bold = bold_flag(seg.bold);
    match seg.kind {
        SegmentKind::Cwd => bash_cwd(cwd_style(o)) + cut_to(max_length(o)) + draw("$__cwd"@, fg, bg, bold)
            + "\n"@,
        SegmentKind::Git => git_snippet(o, fg, bg, bold),
        SegmentKind::ExitStatus => exit_snippet(o, fg, bg, bold),
        SegmentKind::Time => draw("$(command date +\""@ + dq(or_default(o.format, "%H:%M"@)) + "\")"@, fg, bg, bold) + "\n"@,
        SegmentKind::User => draw("$USER"@, fg, bg, bold) + "\n"@,
        SegmentKind::Host => draw("${HOSTNAME%%.*}"@, fg, bg, bold) + "\n"@,
        SegmentKind::Duration => "if [[ -n \"$__oxide_dur\" ]] && (( __oxide_dur >= 2 )); then\n  local __ds=\"${__oxide_dur}s\"\n  (( __oxide_dur >= 60 )) && __ds=\"$(( __oxide_dur / 60 ))m$(( __oxide_dur % 60 ))s\"\n  "@ + draw("$__ds"@, fg, bg, bold) + "\nfi\n"@,
        SegmentKind::Text => draw(dq(or_default(o.text, ""@)), fg, bg, bold) + "\n"@,
        SegmentKind::Env => match o.var {
            None => Seq::empty(),
            Some(var) => if is_identifier(var@) {
                "[[ -n \"${"@ + var@ + "}\" ]] && "@ + draw("${"@ + var@ + "}"@, fg, bg, bold) + "\n"@
            } else {
                Seq::empty()
            },
        },
    }
}

/// What one segment of the prompt is in bash. An environment variable
/// whose name is no identifier is left out.
pub fn bash_segment_snippet(seg: &SegmentConfig) -> (r: String)
    ensures
        r@ == bash_snippet(*seg),
{
    let o = &seg.options;
    let fg = sgr_rgb(&seg.fg, 17, 17, 27);
    let bg = sgr_rgb(&seg.bg, 137, 180, 250);
    let bold = if seg.bold {
        "1"
    } else {
        "0"
    };
    match seg.kind {
        SegmentKind::Cwd => {
            let style = match o.style {
                None => CwdStyle::TruncateToRepo,
                Some(s) => s,
            };
            let mut out = match style {
                CwdStyle::Full => "local __cwd=\"${PWD/#$HOME/\\~}\"\n".to_owned(),
                CwdStyle::Basename => "local __cwd=\"${PWD##*/}\"\n".to_owned(),
                CwdStyle::TruncateToRepo => "local __cwd=\"${PWD/#$HOME/\\~}\"\nlocal __root=\"\"\n(( __oxide_git_ok )) && __root=$(command git rev-parse --show-toplevel 2>/dev/null)\nif [[ -n \"$__root\" && \"$PWD\" == \"$__root\"* ]]; then __cwd=\"${__root##*/}${PWD#$__root}\"; fi\n".to_owned(),
            };
            add_cut(&mut out, o);
            add_draw(&mut out, "$__cwd", &fg, &bg, bold);
            out.push_str("\n");
            out
        },
        SegmentKind::Git => git_segment(o, &fg, &bg, bold),
        SegmentKind::ExitStatus => exit_segment(o, &fg, &bg, bold),
        SegmentKind::Time => {
            let mut text = "$(command date +\"".to_owned();
            text.push_str(zsh_dq(default_text(&o.format, "%H:%M").as_str()).as_str());
            text.push_str("\")");
            drawn(text.as_str(), &fg, &bg, bold)
        },
        SegmentKind::User => drawn("$USER", &fg, &bg, bold),
        SegmentKind::Host => drawn("${HOSTNAME%%.*}", &fg, &bg, bold),
        SegmentKind::Duration => {
            let mut out = "if [[ -n \"$__oxide_dur\" ]] && (( __oxide_dur >= 2 )); then\n  local __ds=\"${__oxide_dur}s\"\n  (( __oxide_dur >= 60 )) && __ds=\"$(( __oxide_dur / 60 ))m$(( __oxide_dur % 60 ))s\"\n  ".to_owned();
            add_draw(&mut out, "$__ds", &fg, &bg, bold);
            out.push_str("\nfi\n");
            out
        },
        SegmentKind::Text => drawn(zsh_dq(default_text(&o.text, "").as_str()).as_str(), &fg, &bg, bold),
        SegmentKind::Env => match &o.var {
            Some(var) => if identifier(var.as_str()) {
                let mut text = "${".to_owned();
                text.push_str(var.as_str());
                text.push_str("}");
                let mut out = "[[ -n \"${".to_owned();
                out.push_str(var.as_str());
                out.push_str("}\" ]] && ");
                add_draw(&mut out, text.as_str(), &fg, &bg, bold);
                out.push_str("\n");
                out
            } else {
                String::new()
            },
            None => String::new(),
        },
    }
}

/// The script around some segments.
pub open spec fn zsh_script(
    flag: Seq<char>,
    segments: Seq<char>,
    sep: Seq<char>,
    end: Seq<char>,
    newline: Seq<char>,
) -> Seq<char> {
    "# Generated by Oxide — do not edit; regenerated from config.toml on launch.\n[[ -o interactive ]] || return\nzmodload zsh/datetime 2>/dev/null\nautoload -Uz add-zsh-hook\n\ntypeset -g __oxide_style_prompt="@
        + flag
        + "\ntypeset -g __oxide_exit=0\n__oxide_git_ok=0\nif command -v git >/dev/null 2>&1; then\n  __oxide_git_ok=1\n  # Apple's /usr/bin/git is an installer shim until the CLT exist; running it\n  # would pop a GUI dialog from inside the prompt. Check without invoking it.\n  if [ \"$(uname)\" = Darwin ] && [ \"$(command -v git)\" = /usr/bin/git ] \\\n    && ! /usr/bin/xcode-select -p >/dev/null 2>&1; then\n    __oxide_git_ok=0\n  fi\nfi\n\ntypeset -g __oxide_dur=\"\"\ntypeset -g __oxide_t0=\"\"\n\n__oxide_preexec() {\n  __oxide_t0=$EPOCHREALTIME\n  if [[ \"${OXIDE_EMIT_CMDLINE:-1}\" == 1 ]]; then\n    printf '\\033]133;C;cmdline=%s\\033\\\\' \"${1//[[:cntrl:]]/ }\"\n  else\n    printf '\\033]133;C\\033\\\\'\n  fi\n}\n\n__oxide_seg() {\n  __oxide_texts+=(\"$1\"); __oxide_fgs+=(\"$2\"); __oxide_bgs+=(\"$3\"); __oxide_bolds+=(\"$4\")\n}\n\n__oxide_precmd() {\n  # Capture $? before anything else or we report our own exit status.\n  __oxide_exit=$?\n  if [[ -n \"$__oxide_t0\" ]]; then\n    __oxide_dur=$(( EPOCHREALTIME - __oxide_t0 ))\n  else\n    __oxide_dur=\"\"\n  fi\n  __oxide_t0=\"\"\n  printf '\\033]133;D;%s\\033\\\\' \"$__oxide_exit\"\n  printf '\\033]7;file://%s%s\\033\\\\' \"$HOST\" \"$PWD\"\n\n  local -a __oxide_texts __oxide_fgs __oxide_bgs __oxide_bolds\n"@
        + segments
        + "\n  local sep=\""@
        + sep
        + "\"\n  local endc=\""@
        + end
        + "\"\n  local p=$'%{\\033]133;A\\033\\\\%}'\n  local n=${#__oxide_texts} i\n  for (( i=1; i<=n; i++ )); do\n    local b=\"\"\n    [[ \"${__oxide_bolds[i]}\" == 1 ]] && b=$'\\033[1m'\n    # %{...%} zero-width markers keep zsh's printable-width math honest.\n    p+=\"%{\"$'\\033[38;2;'\"${__oxide_fgs[i]}m\"$'\\033[48;2;'\"${__oxide_bgs[i]}m${b}%} ${__oxide_texts[i]//\\%/%%} \"\n    if (( i < n )); then\n      p+=\"%{\"$'\\033[0m\\033[38;2;'\"${__oxide_bgs[i]}m\"$'\\033[48;2;'\"${__oxide_bgs[i+1]}m%}${sep}\"\n    else\n      p+=\"%{\"$'\\033[0m\\033[38;2;'\"${__oxide_bgs[i]}m%}${endc}\"\n    fi\n  done\n  p+=\"%{\"$'\\033[0m'\"%}\"\n  "@
        + newline
        + "\n  p+=\" \"\n  p+=$'%{\\033]133;B\\033\\\\%}'\n  (( n > 0 && __oxide_style_prompt )) && PROMPT=\"$p\"\n}\n\nadd-zsh-hook precmd __oxide_precmd\nadd-zsh-hook preexec __oxide_preexec\n\n# Silent cd: the app writes a target path and sends the trigger sequence.\n# Running it as a zle widget (rather than typing a command) means nothing is\n# echoed and reset-prompt redraws the existing prompt with the new directory.\n__oxide_cd_widget() {\n  local f=\"${HOME}/.cache/oxide/cd_target\" d\n  if [[ -r $f ]]; then\n    d=\"$(<$f)\"\n    [[ -d $d ]] && builtin cd -- \"$d\"\n  fi\n  zle reset-prompt\n}\nzle -N __oxide_cd_widget\nbindkey '\\e[9001~' __oxide_cd_widget\n"@
}

/// The snippets of the first `n` segments, indented.
pub open spec fn zsh_segments(segments: Seq<SegmentConfig>, n: nat) -> Seq<char>
    decreases n,
{
    if n == 0 {
        Seq::empty()
    } else {
        zsh_segments(segments, (n - 1) as nat) + indented(zsh_snippet((n - 1) as nat, segments[n - 1]), "  "@)
    }
}

/// Compile the `[prompt]` spec into a zsh init script: OSC 133 semantic prompt
pub open spec fn zsh_init(prompt: PromptConfig, style_prompt: bool) -> Seq<char> {
    zsh_script(
        if style_prompt {
            "1"@
        } else {
            "0"@
        },
        zsh_segments(prompt.segments@, prompt.segments@.len()),
        dq(prompt.separator@),
        dq(
            if prompt.end@.len() == 0 {
                prompt.separator@
            } else {
                prompt.end@
            },
        ),
        if prompt.newline_before_input {
            "p+=$'\\n'"@
        } else {
            ":"@
        },
    )
}

/// Compile the `[prompt]` spec into a zsh init script: OSC 133 semantic prompt
/// markers plus a precmd that rebuilds PROMPT from powerline segments.
pub fn generate_init(prompt: &PromptConfig, style_prompt: bool) -> (r: String)
    ensures
        r@ == zsh_init(*prompt, style_prompt),
{
    let mut segments = String::new();
    let mut i: usize = 0;
    assert(segments@ =~= zsh_segments(prompt.segments@, 0));
    while i < prompt.segments.len()
        invariant
            i <= prompt.segments.len(),
            segments@ == zsh_segments(prompt.segments@, i as nat),
        decreases prompt.segments.len() - i,
    {
        let snippet = segment_snippet(i, &prompt.segments[i]);
        segments.push_str(indent_lines(snippet.as_str(), "  ").as_str());
        i += 1;
    }
    let sep = zsh_dq(prompt.separator.as_str());
    let end = zsh_dq(
        if chars_of(prompt.end.as_str()).len() == 0 {
            prompt.separator.as_str()
        } else {
            prompt.end.as_str()
        },
    );
    let newline = if prompt.newline_before_input {
        "p+=$'\\n'"
    } else {
        ":"
    };
    let flag = if style_prompt {
        "1"
    } else {
        "0"
    };
    let mut out = "# Generated by Oxide — do not edit; regenerated from config.toml on launch.\n[[ -o interactive ]] || return\nzmodload zsh/datetime 2>/dev/null\nautoload -Uz add-zsh-hook\n\ntypeset -g __oxide_style_prompt=".to_owned();
    out.push_str(flag);
    out.push_str("\ntypeset -g __oxide_exit=0\n__oxide_git_ok=0\nif command -v git >/dev/null 2>&1; then\n  __oxide_git_ok=1\n  # Apple's /usr/bin/git is an installer shim until the CLT exist; running it\n  # would pop a GUI dialog from inside the prompt. Check without invoking it.\n  if [ \"$(uname)\" = Darwin ] && [ \"$(command -v git)\" = /usr/bin/git ] \\\n    && ! /usr/bin/xcode-select -p >/dev/null 2>&1; then\n    __oxide_git_ok=0\n  fi\nfi\n\ntypeset -g __oxide_dur=\"\"\ntypeset -g __oxide_t0=\"\"\n\n__oxide_preexec() {\n  __oxide_t0=$EPOCHREALTIME\n  if [[ \"${OXIDE_EMIT_CMDLINE:-1}\" == 1 ]]; then\n    printf '\\033]133;C;cmdline=%s\\033\\\\' \"${1//[[:cntrl:]]/ }\"\n  else\n    printf '\\033]133;C\\033\\\\'\n  fi\n}\n\n__oxide_seg() {\n  __oxide_texts+=(\"$1\"); __oxide_fgs+=(\"$2\"); __oxide_bgs+=(\"$3\"); __oxide_bolds+=(\"$4\")\n}\n\n__oxide_precmd() {\n  # Capture $? before anything else or we report our own exit status.\n  __oxide_exit=$?\n  if [[ -n \"$__oxide_t0\" ]]; then\n    __oxide_dur=$(( EPOCHREALTIME - __oxide_t0 ))\n  else\n    __oxide_dur=\"\"\n  fi\n  __oxide_t0=\"\"\n  printf '\\033]133;D;%s\\033\\\\' \"$__oxide_exit\"\n  printf '\\033]7;file://%s%s\\033\\\\' \"$HOST\" \"$PWD\"\n\n  local -a __oxide_texts __oxide_fgs __oxide_bgs __oxide_bolds\n");
    out.push_str(segments.as_str());
    out.push_str("\n  local sep=\"");
    out.push_str(sep.as_str());
    out.push_str("\"\n  local endc=\"");
    out.push_str(end.as_str());
    out.push_str("\"\n  local p=$'%{\\033]133;A\\033\\\\%}'\n  local n=${#__oxide_texts} i\n  for (( i=1; i<=n; i++ )); do\n    local b=\"\"\n    [[ \"${__oxide_bolds[i]}\" == 1 ]] && b=$'\\033[1m'\n    # %{...%} zero-width markers keep zsh's printable-width math honest.\n    p+=\"%{\"$'\\033[38;2;'\"${__oxide_fgs[i]}m\"$'\\033[48;2;'\"${__oxide_bgs[i]}m${b}%} ${__oxide_texts[i]//\\%/%%} \"\n    if (( i < n )); then\n      p+=\"%{\"$'\\033[0m\\033[38;2;'\"${__oxide_bgs[i]}m\"$'\\033[48;2;'\"${__oxide_bgs[i+1]}m%}${sep}\"\n    else\n      p+=\"%{\"$'\\033[0m\\033[38;2;'\"${__oxide_bgs[i]}m%}${endc}\"\n    fi\n  done\n  p+=\"%{\"$'\\033[0m'\"%}\"\n  ");
    out.push_str(newline);
    out.push_str("\n  p+=\" \"\n  p+=$'%{\\033]133;B\\033\\\\%}'\n  (( n > 0 && __oxide_style_prompt )) && PROMPT=\"$p\"\n}\n\nadd-zsh-hook precmd __oxide_precmd\nadd-zsh-hook preexec __oxide_preexec\n\n# Silent cd: the app writes a target path and sends the trigger sequence.\n# Running it as a zle widget (rather than typing a command) means nothing is\n# echoed and reset-prompt redraws the existing prompt with the new directory.\n__oxide_cd_widget() {\n  local f=\"${HOME}/.cache/oxide/cd_target\" d\n  if [[ -r $f ]]; then\n    d=\"$(<$f)\"\n    [[ -d $d ]] && builtin cd -- \"$d\"\n  fi\n  zle reset-prompt\n}\nzle -N __oxide_cd_widget\nbindkey '\\e[9001~' __oxide_cd_widget\n");
    out
}

/// The script around some segments.
pub open spec fn bash_script(
    flag: Seq<char>,
    segments: Seq<char>,
    sep: Seq<char>,
    end: Seq<char>,
    newline: Seq<char>,
) -> Seq<char> {
    "# Generated by Oxide — do not edit; regenerated from config.toml on launch.\n# Login-shell emulation: --init-file replaced -l, so run the profile chain.\nif [[ -f /etc/profile ]]; then source /etc/profile; fi\nif [[ -f \"$HOME/.bash_profile\" ]]; then source \"$HOME/.bash_profile\"\nelif [[ -f \"$HOME/.bash_login\" ]]; then source \"$HOME/.bash_login\"\nelif [[ -f \"$HOME/.profile\" ]]; then source \"$HOME/.profile\"\nelif [[ -f \"$HOME/.bashrc\" ]]; then source \"$HOME/.bashrc\"\nfi\n\n[[ $- == *i* ]] || return 0\n\n__oxide_style_prompt="@
        + flag
        + "\n__oxide_cd_erase=0\n__oxide_git_ok=0\nif command -v git >/dev/null 2>&1; then\n  __oxide_git_ok=1\n  # Apple's /usr/bin/git is an installer shim until the CLT exist; running it\n  # would pop a GUI dialog from inside the prompt. Check without invoking it.\n  if [ \"$(uname)\" = Darwin ] && [ \"$(command -v git)\" = /usr/bin/git ] \\\n    && ! /usr/bin/xcode-select -p >/dev/null 2>&1; then\n    __oxide_git_ok=0\n  fi\nfi\n\n__oxide_at_prompt=1\n__oxide_t0=\"\"\n__oxide_dur=\"\"\n__oxide_exit=0\n__oxide_original_prompt_command=\"$PROMPT_COMMAND\"\n\n# Note: this installs a DEBUG trap (the bash-preexec pattern) for OSC 133;C\n# and command timing; a pre-existing DEBUG trap would be replaced.\n__oxide_debug_trap() {\n  [[ -n \"$COMP_LINE\" ]] && return\n  [[ \"$BASH_COMMAND\" == __oxide_prompt_command* ]] && return\n  if (( __oxide_at_prompt )); then\n    __oxide_at_prompt=0\n    __oxide_t0=$SECONDS\n    printf '\\033]133;C\\033\\\\'\n  fi\n}\ntrap '__oxide_debug_trap' DEBUG\n\n__oxide_seg() {\n  __oxide_texts+=(\"$1\"); __oxide_fgs+=(\"$2\"); __oxide_bgs+=(\"$3\"); __oxide_bolds+=(\"$4\")\n}\n\n__oxide_prompt_command() {\n  # Capture $? before anything else or we report our own exit status.\n  __oxide_exit=$?\n  if [[ -n \"$__oxide_t0\" ]]; then __oxide_dur=$(( SECONDS - __oxide_t0 )); else __oxide_dur=\"\"; fi\n  __oxide_t0=\"\"\n  __oxide_at_prompt=1\n  # Triggered by a silent cd: walk back over the prompt we just left behind\n  # and clear it, so this prompt replaces it rather than stacking below.\n  if (( __oxide_cd_erase > 0 )); then\n    printf '\\033[%dA\\033[J' \"$__oxide_cd_erase\"\n    __oxide_cd_erase=0\n  fi\n  printf '\\033]133;D;%s\\033\\\\' \"$__oxide_exit\"\n  printf '\\033]7;file://%s%s\\033\\\\' \"${HOSTNAME:-localhost}\" \"$PWD\"\n  if [[ -n \"$__oxide_original_prompt_command\" ]]; then\n    ( exit \"$__oxide_exit\" )\n    eval \"$__oxide_original_prompt_command\"\n  fi\n\n  local __oxide_texts=() __oxide_fgs=() __oxide_bgs=() __oxide_bolds=()\n"@
        + segments
        + "\n  local sep=\""@
        + sep
        + "\"\n  local endc=\""@
        + end
        + "\"\n  local p=$'\\001\\033]133;A\\033\\\\\\002'\n  local n=${#__oxide_texts[@]} i\n  for (( i=0; i<n; i++ )); do\n    local b=\"\"\n    [[ \"${__oxide_bolds[i]}\" == 1 ]] && b=$'\\033[1m'\n    local t=\"${__oxide_texts[i]}\"\n    t=\"${t//\\\\/\\\\\\\\}\"; t=\"${t//\\$/\\\\\\$}\"; t=\"${t//\\`/\\\\\\`}\"\n    p+=$'\\001\\033[38;2;'\"${__oxide_fgs[i]}m\"$'\\033[48;2;'\"${__oxide_bgs[i]}m$b\"$'\\002'\" $t \"\n    if (( i+1 < n )); then\n      p+=$'\\001\\033[0m\\033[38;2;'\"${__oxide_bgs[i]}m\"$'\\033[48;2;'\"${__oxide_bgs[i+1]}m\"$'\\002'\"$sep\"\n    else\n      p+=$'\\001\\033[0m\\033[38;2;'\"${__oxide_bgs[i]}m\"$'\\002'\"$endc\"\n    fi\n  done\n  p+=$'\\001\\033[0m\\002'\n  "@
        + newline
        + "\n  p+=\" \"\n  p+=$'\\001\\033]133;B\\033\\\\\\002'\n  (( n > 0 && __oxide_style_prompt )) && PS1=\"$p\"\n}\nPROMPT_COMMAND=\"__oxide_prompt_command\"\n\n# Silent cd. bash has no `zle reset-prompt`, so the app follows the trigger\n# with an empty line to get a freshly expanded prompt. Record how tall the\n# outgoing prompt is; the next __oxide_prompt_command erases it so the new\n# prompt lands in place instead of stacking up.\n__oxide_cd_widget() {\n  local f=\"${HOME}/.cache/oxide/cd_target\" d\n  if [[ -r $f ]]; then\n    d=\"$(<$f)\"\n    [[ -d $d ]] && builtin cd -- \"$d\"\n  fi\n  if (( BASH_VERSINFO[0] >= 5 )); then\n    # Count the outgoing prompt's lines so the erase covers all of them.\n    # ${PS1@P} needs bash 4.4+; older bash assumes a one-line prompt.\n    local __p=\"${PS1@P}\" __nl\n    __nl=\"${__p//[!$'\\n']/}\"\n    __oxide_cd_erase=$(( ${#__nl} + 1 ))\n  else\n    __oxide_cd_erase=1\n  fi\n}\nif (( BASH_VERSINFO[0] > 4 || (BASH_VERSINFO[0] == 4 && BASH_VERSINFO[1] >= 3) )); then\n  bind -x '\"\\e[9001~\": __oxide_cd_widget' 2>/dev/null\nelse\n  # bash < 4.3 cannot `bind -x` a multi-character sequence — invoking it dies\n  # with \"bash_execute_unix_command: cannot find keymap for command\" (Apple's\n  # /bin/bash 3.2 included). Trampoline through a two-key binding instead,\n  # the same trick fzf uses.\n  bind -x '\"\\C-x\\C-a\": __oxide_cd_widget' 2>/dev/null\n  bind '\"\\e[9001~\": \"\\C-x\\C-a\"' 2>/dev/null\nfi\n"@
}

/// The snippets of the first `n` segments, indented.
pub open spec fn bash_segments(segments: Seq<SegmentConfig>, n: nat) -> Seq<char>
    decreases n,
{
    if n == 0 {
        Seq::empty()
    } else {
        bash_segments(segments, (n - 1) as nat) + indented(bash_snippet(segments[n - 1]), "  "@)
    }
}

/// Bash flavor of the init script, injected via `--init-file`. Emulates a
pub open spec fn bash_init(prompt: PromptConfig, style_prompt: bool) -> Seq<char> {
    bash_script(
        if style_prompt {
            "1"@
        } else {
            "0"@
        },
        bash_segments(prompt.segments@, prompt.segments@.len()),
        dq(prompt.separator@),
        dq(
            if prompt.end@.len() == 0 {
                prompt.separator@
            } else {
                prompt.end@
            },
        ),
        if prompt.newline_before_input {
            "p+=$'\\n'"@
        } else {
            ":"@
        },
    )
}

/// Bash flavor of the init script, injected via `--init-file`. Emulates a
/// login shell (the flag is ignored by real login shells, so the caller strips
/// `-l`), then installs a PROMPT_COMMAND that rebuilds PS1 per prompt.
/// `\x01`/`\x02` are readline's zero-width markers (what `\[`/`\]` compile to).
pub fn generate_init_bash(prompt: &PromptConfig, style_prompt: bool) -> (r: String)
    ensures
        r@ == bash_init(*prompt, style_prompt),
{
    let mut segments = String::new();
    let mut i: usize = 0;
    assert(segments@ =~= bash_segments(prompt.segments@, 0));
    while i < prompt.segments.len()
        invariant
            i <= prompt.segments.len(),
            segments@ == bash_segments(prompt.segments@, i as nat),
        decreases prompt.segments.len() - i,
    {
        let snippet = bash_segment_snippet(&prompt.segments[i]);
        segments.push_str(indent_lines(snippet.as_str(), "  ").as_str());
        i += 1;
    }
    let sep = zsh_dq(prompt.separator.as_str());
    let end = zsh_dq(
        if chars_of(prompt.end.as_str()).len() == 0 {
            prompt.separator.as_str()
        } else {
            prompt.end.as_str()
        },
    );
    let newline = if prompt.newline_before_input {
        "p+=$'\\n'"
    } else {
        ":"
    };
    let flag = if style_prompt {
        "1"
    } else {
        "0"
    };
    let mut out = "# Generated by Oxide — do not edit; regenerated from config.toml on launch.\n# Login-shell emulation: --init-file replaced -l, so run the profile chain.\nif [[ -f /etc/profile ]]; then source /etc/profile; fi\nif [[ -f \"$HOME/.bash_profile\" ]]; then source \"$HOME/.bash_profile\"\nelif [[ -f \"$HOME/.bash_login\" ]]; then source \"$HOME/.bash_login\"\nelif [[ -f \"$HOME/.profile\" ]]; then source \"$HOME/.profile\"\nelif [[ -f \"$HOME/.bashrc\" ]]; then source \"$HOME/.bashrc\"\nfi\n\n[[ $- == *i* ]] || return 0\n\n__oxide_style_prompt=".to_owned();
    out.push_str(flag);
    out.push_str("\n__oxide_cd_erase=0\n__oxide_git_ok=0\nif command -v git >/dev/null 2>&1; then\n  __oxide_git_ok=1\n  # Apple's /usr/bin/git is an installer shim until the CLT exist; running it\n  # would pop a GUI dialog from inside the prompt. Check without invoking it.\n  if [ \"$(uname)\" = Darwin ] && [ \"$(command -v git)\" = /usr/bin/git ] \\\n    && ! /usr/bin/xcode-select -p >/dev/null 2>&1; then\n    __oxide_git_ok=0\n  fi\nfi\n\n__oxide_at_prompt=1\n__oxide_t0=\"\"\n__oxide_dur=\"\"\n__oxide_exit=0\n__oxide_original_prompt_command=\"$PROMPT_COMMAND\"\n\n# Note: this installs a DEBUG trap (the bash-preexec pattern) for OSC 133;C\n# and command timing; a pre-existing DEBUG trap would be replaced.\n__oxide_debug_trap() {\n  [[ -n \"$COMP_LINE\" ]] && return\n  [[ \"$BASH_COMMAND\" == __oxide_prompt_command* ]] && return\n  if (( __oxide_at_prompt )); then\n    __oxide_at_prompt=0\n    __oxide_t0=$SECONDS\n    printf '\\033]133;C\\033\\\\'\n  fi\n}\ntrap '__oxide_debug_trap' DEBUG\n\n__oxide_seg() {\n  __oxide_texts+=(\"$1\"); __oxide_fgs+=(\"$2\"); __oxide_bgs+=(\"$3\"); __oxide_bolds+=(\"$4\")\n}\n\n__oxide_prompt_command() {\n  # Capture $? before anything else or we report our own exit status.\n  __oxide_exit=$?\n  if [[ -n \"$__oxide_t0\" ]]; then __oxide_dur=$(( SECONDS - __oxide_t0 )); else __oxide_dur=\"\"; fi\n  __oxide_t0=\"\"\n  __oxide_at_prompt=1\n  # Triggered by a silent cd: walk back over the prompt we just left behind\n  # and clear it, so this prompt replaces it rather than stacking below.\n  if (( __oxide_cd_erase > 0 )); then\n    printf '\\033[%dA\\033[J' \"$__oxide_cd_erase\"\n    __oxide_cd_erase=0\n  fi\n  printf '\\033]133;D;%s\\033\\\\' \"$__oxide_exit\"\n  printf '\\033]7;file://%s%s\\033\\\\' \"${HOSTNAME:-localhost}\" \"$PWD\"\n  if [[ -n \"$__oxide_original_prompt_command\" ]]; then\n    ( exit \"$__oxide_exit\" )\n    eval \"$__oxide_original_prompt_command\"\n  fi\n\n  local __oxide_texts=() __oxide_fgs=() __oxide_bgs=() __oxide_bolds=()\n");
    out.push_str(segments.as_str());
    out.push_str("\n  local sep=\"");
    out.push_str(sep.as_str());
    out.push_str("\"\n  local endc=\"");
    out.push_str(end.as_str());
    out.push_str("\"\n  local p=$'\\001\\033]133;A\\033\\\\\\002'\n  local n=${#__oxide_texts[@]} i\n  for (( i=0; i<n; i++ )); do\n    local b=\"\"\n    [[ \"${__oxide_bolds[i]}\" == 1 ]] && b=$'\\033[1m'\n    local t=\"${__oxide_texts[i]}\"\n    t=\"${t//\\\\/\\\\\\\\}\"; t=\"${t//\\$/\\\\\\$}\"; t=\"${t//\\`/\\\\\\`}\"\n    p+=$'\\001\\033[38;2;'\"${__oxide_fgs[i]}m\"$'\\033[48;2;'\"${__oxide_bgs[i]}m$b\"$'\\002'\" $t \"\n    if (( i+1 < n )); then\n      p+=$'\\001\\033[0m\\033[38;2;'\"${__oxide_bgs[i]}m\"$'\\033[48;2;'\"${__oxide_bgs[i+1]}m\"$'\\002'\"$sep\"\n    else\n      p+=$'\\001\\033[0m\\033[38;2;'\"${__oxide_bgs[i]}m\"$'\\002'\"$endc\"\n    fi\n  done\n  p+=$'\\001\\033[0m\\002'\n  ");
    out.push_str(newline);
    out.push_str("\n  p+=\" \"\n  p+=$'\\001\\033]133;B\\033\\\\\\002'\n  (( n > 0 && __oxide_style_prompt )) && PS1=\"$p\"\n}\nPROMPT_COMMAND=\"__oxide_prompt_command\"\n\n# Silent cd. bash has no `zle reset-prompt`, so the app follows the trigger\n# with an empty line to get a freshly expanded prompt. Record how tall the\n# outgoing prompt is; the next __oxide_prompt_command erases it so the new\n# prompt lands in place instead of stacking up.\n__oxide_cd_widget() {\n  local f=\"${HOME}/.cache/oxide/cd_target\" d\n  if [[ -r $f ]]; then\n    d=\"$(<$f)\"\n    [[ -d $d ]] && builtin cd -- \"$d\"\n  fi\n  if (( BASH_VERSINFO[0] >= 5 )); then\n    # Count the outgoing prompt's lines so the erase covers all of them.\n    # ${PS1@P} needs bash 4.4+; older bash assumes a one-line prompt.\n    local __p=\"${PS1@P}\" __nl\n    __nl=\"${__p//[!$'\\n']/}\"\n    __oxide_cd_erase=$(( ${#__nl} + 1 ))\n  else\n    __oxide_cd_erase=1\n  fi\n}\nif (( BASH_VERSINFO[0] > 4 || (BASH_VERSINFO[0] == 4 && BASH_VERSINFO[1] >= 3) )); then\n  bind -x '\"\\e[9001~\": __oxide_cd_widget' 2>/dev/null\nelse\n  # bash < 4.3 cannot `bind -x` a multi-character sequence — invoking it dies\n  # with \"bash_execute_unix_command: cannot find keymap for command\" (Apple's\n  # /bin/bash 3.2 included). Trampoline through a two-key binding instead,\n  # the same trick fzf uses.\n  bind -x '\"\\C-x\\C-a\": __oxide_cd_widget' 2>/dev/null\n  bind '\"\\e[9001~\": \"\\C-x\\C-a\"' 2>/dev/null\nfi\n");
    out
}

/// An environment variable's segment is left out unless its name is an
/// identifier, so no other text reaches the script.
pub proof fn lemma_env_needs_identifier(ix: nat, seg: SegmentConfig, var: String)
    requires
        seg.kind == SegmentKind::Env,
        seg.options.var == Some(var),
        !is_identifier(var@),
    ensures
        zsh_snippet(ix, seg) == Seq::<char>::empty(),
        bash_snippet(seg) == Seq::<char>::empty(),
{
}

/// A length that is set is kept from four on; forty is what stands where none
/// is.
pub proof fn lemma_lengths(o: SegmentOptions)
    ensures
        max_length(o) >= 4,
        o.max_len is None ==> max_length(o) == 40,
        o.max_len matches Some(n) ==> (n >= 4 ==> max_length(o) == n),
{
}

/// The segments that only show a text: the user, the host, and a fixed text,
/// each with its foreground before its background.
pub proof fn lemma_plain_segments(ix: nat, seg: SegmentConfig)
    ensures
        ({
            let colours = "\" \""@ + sgr(seg.fg, rgb_text(17, 17, 27)) + "\" \""@ + sgr(
                seg.bg,
                rgb_text(137, 180, 250),
            ) + "\" "@ + (if seg.bold {
                "1"@
            } else {
                "0"@
            }) + "\n"@;
            let shown = |text: Seq<char>| "__oxide_seg \""@ + text + colours;
            &&& seg.kind is User ==> zsh_snippet(ix, seg) == shown("${(%):-%n}"@) && bash_snippet(
                seg,
            ) == shown("$USER"@)
            &&& seg.kind is Host ==> zsh_snippet(ix, seg) == shown("${(%):-%m}"@) && bash_snippet(
                seg,
            ) == shown("${HOSTNAME%%.*}"@)
            &&& seg.kind is Text ==> (seg.options.text matches Some(t) ==> zsh_snippet(ix, seg)
                == shown(dq(t@)) && bash_snippet(seg) == shown(dq(t@)))
        }),
{
    let fg = sgr(seg.fg, default_fg());
    let bg = sgr(seg.bg, default_bg());
    let bold = bold_flag(seg.bold);
    let colours = "\" \""@ + fg + "\" \""@ + bg + "\" "@ + bold + "\n"@;
    assert forall|text: Seq<char>| #[trigger] draw(text, fg, bg, bold) + "\n"@ == "__oxide_seg \""@
        + text + colours by {
        assert(draw(text, fg, bg, bold) + "\n"@ =~= "__oxide_seg \""@ + text + colours);
    }
}

/// A colour that can be read is written as its three numbers; any other gives
/// way to the default.
pub proof fn lemma_segment_colours(h: String, fallback: Seq<char>)
    ensures
        hex_colour(h@) matches Some(c) ==> sgr(Some(h), fallback) == decimal(c.r as nat) + ";"@
            + decimal(c.g as nat) + ";"@ + decimal(c.b as nat),
        hex_colour(h@) is None ==> sgr(Some(h), fallback) == fallback,
        sgr(None, fallback) == fallback,
{
}

/// A prompt without an end of its own ends with its separator.
pub proof fn lemma_the_end_of_a_prompt(a: PromptConfig, b: PromptConfig, style_prompt: bool)
    requires
        a.segments == b.segments,
        a.separator == b.separator,
        a.newline_before_input == b.newline_before_input,
        a.end@.len() == 0,
        b.end == b.separator,
    ensures
        zsh_init(a, style_prompt) == zsh_init(b, style_prompt),
        bash_init(a, style_prompt) == bash_init(b, style_prompt),
{
}

} // verus!
