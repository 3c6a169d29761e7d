//! Opening a file in the user's editor from a shell prompt.
use vstd::prelude::*;

use crate::path::program_name;
use crate::prompt::integration::{edit_name, lemma_edit_name_plain, plain_char};
use crate::terminal::click::{single_quote, single_quoted};
use crate::terminal::session::{is_posix_shell, posix};
use crate::text::{begins_with, chars_of, find_seq, has_char, maybe, replaced};

verus! {

/// Characters that no single quoting style survives across every shell at
/// once: nushell has no escape for `'` inside a literal, fish reads `\` there
/// as an escape, and csh expands `!` even inside single quotes.
pub open spec fn needs_indirection(path: Seq<char>) -> bool {
    path.contains('\'') || path.contains('\\') || path.contains('!')
}

/// Whether a path holds a character that not every shell can quote. Rare
/// enough in real paths to be worth an uglier route rather than a per-shell
/// escaping table for every shell someone might install.
pub fn path_needs_indirection(path: &str) -> (r: bool)
    ensures
        r == needs_indirection(path@),
{
    let v = chars_of(path);
    has_char(v.as_slice(), '\'') || has_char(v.as_slice(), '\\') || has_char(v.as_slice(), '!')
}

/// The line for a shell that reads Bourne syntax.
pub open spec fn direct_command(path: Seq<char>) -> Seq<char> {
    "if [ -n \"${EDITOR:-}\" ]; then $EDITOR "@ + single_quoted(path) + "; else open -t "@
        + single_quoted(path) + "; fi"@
}

/// The line that takes the path out of a file.
pub open spec fn indirect_command(name: Seq<char>) -> Seq<char> {
    "/bin/sh -c 'f=\"$HOME/.cache/oxide/edit/"@ + name
        + "\"; p=$(cat \"$f\"); rm -f \"$f\"; if [ -n \"${EDITOR:-}\" ]; then $EDITOR \"$p\"; else open -t \"$p\"; fi'"@
}

/// The line that hands the path to `/bin/sh` as an argument.
pub open spec fn delegated_command(path: Seq<char>) -> Seq<char> {
    "/bin/sh -c 'if [ -n \"${EDITOR:-}\" ]; then $EDITOR \"$1\"; else open -t \"$1\"; fi' oxide "@
        + single_quoted(path)
}

/// Whether a name is made of characters that every shell leaves alone.
pub open spec fn plain_name(s: Seq<char>) -> bool {
    forall|i: int| 0 <= i < s.len() ==> plain_char(#[trigger] s[i])
}

fn is_plain_name(s: &str) -> (r: bool)
    ensures
        r == plain_name(s@),
{
    let v = chars_of(s);
    let mut i: usize = 0;
    while i < v.len()
        invariant
            i <= v.len(),
            v@ == s@,
            forall|k: int| 0 <= k < i ==> plain_char(#[trigger] s@[k]),
        decreases v.len() - i,
    {
        let c = v[i];
        if !('a' <= c && c <= 'z' || '0' <= c && c <= '9' || c == '-' || c == '.') {
            assert(!plain_char(s@[i as int]));
            return false;
        }
        i += 1;
    }
    true
}

/// The line to type at a prompt of `shell` to open a file. There is none for
/// a path that has to go through a file when no file holds it.
pub open spec fn edit_command(
    path: Seq<char>,
    shell: Seq<char>,
    target: Option<Seq<char>>,
) -> Option<Seq<char>> {
    if posix(program_name(shell)) {
        Some(direct_command(path))
    } else if !needs_indirection(path) {
        Some(delegated_command(path))
    } else {
        match target {
            Some(name) if plain_name(name) => Some(indirect_command(name)),
            _ => None,
        }
    }
}

/// Open a file in the user's editor, or hand it to the OS default text
/// editor when no $EDITOR is set: a fresh Mac has no nvim, and "command
/// not found: nvim" is a rough first impression.
///
/// Only the shell knows what $EDITOR is (a GUI-launched app does not inherit
/// it), so the choice has to be made there. `shell` is the program that will
/// run this: under fish, csh, or nushell the Bourne syntax below is a parse
/// error, so it goes to /bin/sh instead. That costs a non-exported $EDITOR,
/// worth it only where the direct form cannot run at all.
///
/// A path no shell can quote goes through a file instead, so the line typed
/// at the prompt holds no path text at all: `target` is the name of the file
/// it was written to. Where that did not work there is nothing safe to type,
/// and no line. Any other path goes to /bin/sh as an argument rather than
/// interpolated into the script, so the script itself contains no single
/// quotes and the outer token stays a plain single-quoted string, which fish,
/// csh, and nushell all agree on.
pub fn edit_file_command(path: &str, shell: &str, target: Option<&str>) -> (r: Option<String>)
    ensures
        maybe(r) == edit_command(
            path@,
            shell@,
            match target {
                Some(t) => Some(t@),
                None => None,
            },
        ),
{
    let quoted = single_quote(path);
    if is_posix_shell(shell) {
        let mut out = "if [ -n \"${EDITOR:-}\" ]; then $EDITOR ".to_owned();
        out.push_str(quoted.as_str());
        out.push_str("; else open -t ");
        out.push_str(quoted.as_str());
        out.push_str("; fi");
        return Some(out);
    }
    if path_needs_indirection(path) {
        if let Some(name) = target {
            if !is_plain_name(name) {
                return None;
            }
            let mut out = "/bin/sh -c 'f=\"$HOME/.cache/oxide/edit/".to_owned();
            out.push_str(name);
            out.push_str(
                "\"; p=$(cat \"$f\"); rm -f \"$f\"; if [ -n \"${EDITOR:-}\" ]; then $EDITOR \"$p\"; else open -t \"$p\"; fi'",
            );
            return Some(out);
        }
        return None;
    }
    let mut out =
        "/bin/sh -c 'if [ -n \"${EDITOR:-}\" ]; then $EDITOR \"$1\"; else open -t \"$1\"; fi' oxide ".to_owned();
    out.push_str(quoted.as_str());
    Some(out)
}

/// Whether a text holds no backslash.
pub open spec fn unescaped(s: Seq<char>) -> bool {
    forall|i: int| 0 <= i < s.len() ==> #[trigger] s[i] != '\\'
}

proof fn lemma_unescaped_add(a: Seq<char>, b: Seq<char>)
    requires
        unescaped(a),
        unescaped(b),
    ensures
        unescaped(a + b),
{
}

proof fn lemma_nothing_replaced(s: Seq<char>, by: Seq<char>)
    requires
        !s.contains('\''),
    ensures
        replaced(s, '\'', by) == s,
    decreases s.len(),
{
    if s.len() > 0 {
        assert(s[s.len() - 1] == s.last());
        assert(s.contains(s.last()));
        assert forall|i: int| 0 <= i < s.drop_last().len() implies s.drop_last()[i] != '\'' by {
            assert(s.contains(s[i]));
        }
        lemma_nothing_replaced(s.drop_last(), by);
        assert(s.drop_last().push(s.last()) =~= s);
        assert(s.drop_last() + seq![s.last()] =~= s);
    }
}

proof fn lemma_no_splice(s: Seq<char>)
    requires
        unescaped(s),
    ensures
        find_seq(s, "'\\''"@) is None,
    decreases s.len(),
{
    reveal_strlit("'\\''");
    if begins_with(s, "'\\''"@) {
        assert(s.take(4)[1] == "'\\''"@[1]);
    } else if s.len() > 0 {
        lemma_no_splice(s.skip(1));
    }
}

/// A POSIX shell splices a quote into a quoted string by `'\''`; other
/// shells read that differently or not at all. No line for such a shell holds
/// one, whatever the path and whatever file it was written to.
pub proof fn lemma_no_splice_elsewhere(path: Seq<char>, shell: Seq<char>, target: Option<Seq<char>>)
    requires
        !posix(program_name(shell)),
    ensures
        edit_command(path, shell, target) matches Some(line) ==> find_seq(line, "'\\''"@) is None,
{
    if edit_command(path, shell, target) is None {
    } else if needs_indirection(path) {
        let head = "/bin/sh -c 'f=\"$HOME/.cache/oxide/edit/"@;
        let tail =
            "\"; p=$(cat \"$f\"); rm -f \"$f\"; if [ -n \"${EDITOR:-}\" ]; then $EDITOR \"$p\"; else open -t \"$p\"; fi'"@;
        assert(unescaped(head)) by {
            reveal_strlit("/bin/sh -c 'f=\"$HOME/.cache/oxide/edit/");
        }
        assert(unescaped(tail)) by {
            reveal_strlit(
                "\"; p=$(cat \"$f\"); rm -f \"$f\"; if [ -n \"${EDITOR:-}\" ]; then $EDITOR \"$p\"; else open -t \"$p\"; fi'",
            );
        }
        let name = target->0;
        assert(plain_name(name));
        assert forall|i: int| 0 <= i < name.len() implies #[trigger] name[i] != '\\' by {
            assert(plain_char(name[i]));
        }
        lemma_unescaped_add(head, name);
        lemma_unescaped_add(head + name, tail);
        lemma_no_splice(indirect_command(name));
    } else {
        let head =
            "/bin/sh -c 'if [ -n \"${EDITOR:-}\" ]; then $EDITOR \"$1\"; else open -t \"$1\"; fi' oxide "@;
        assert(unescaped(head)) by {
            reveal_strlit(
                "/bin/sh -c 'if [ -n \"${EDITOR:-}\" ]; then $EDITOR \"$1\"; else open -t \"$1\"; fi' oxide ",
            );
        }
        lemma_nothing_replaced(path, "'\\''"@);
        assert(unescaped(path)) by {
            assert forall|i: int| 0 <= i < path.len() implies #[trigger] path[i] != '\\' by {
                assert(path.contains(path[i]));
            }
        }
        assert(unescaped("'"@)) by {
            reveal_strlit("'");
        }
        lemma_unescaped_add("'"@, path);
        lemma_unescaped_add("'"@ + path, "'"@);
        lemma_unescaped_add(head, single_quoted(path));
        lemma_no_splice(delegated_command(path));
    }
}

/// The routing decision: only a shell that cannot read the line directly
/// pays for `/bin/sh`.
pub proof fn lemma_delegated(path: Seq<char>, shell: Seq<char>, target: Option<Seq<char>>)
    ensures
        edit_command(path, shell, target) matches Some(line) ==> (begins_with(line, "/bin/sh -c"@)
            <==> !posix(program_name(shell))),
{
    let line = edit_command(path, shell, target)->0;
    reveal_strlit("/bin/sh -c");
    if posix(program_name(shell)) {
        reveal_strlit("if [ -n \"${EDITOR:-}\" ]; then $EDITOR ");
        assert(line[0] == 'i');
        assert(line.take(10)[0] == 'i');
        assert("/bin/sh -c"@[0] == '/');
    } else if edit_command(path, shell, target) is None {
    } else if needs_indirection(path) {
        reveal_strlit("/bin/sh -c 'f=\"$HOME/.cache/oxide/edit/");
        assert(line.take(10) =~= "/bin/sh -c"@);
    } else {
        reveal_strlit(
            "/bin/sh -c 'if [ -n \"${EDITOR:-}\" ]; then $EDITOR \"$1\"; else open -t \"$1\"; fi' oxide ",
        );
        assert(line.take(10) =~= "/bin/sh -c"@);
    }
}

/// There is a line for every path: for one that needs a file, as soon as the
/// file has the name that an edit target gets.
pub proof fn lemma_always_opens(path: Seq<char>, shell: Seq<char>, pid: nat, seq: nat)
    ensures
        edit_command(path, shell, Some(edit_name(pid, seq))) is Some,
        !needs_indirection(path) || posix(program_name(shell)) ==> edit_command(
            path,
            shell,
            None,
        ) is Some,
{
    lemma_edit_name_plain(pid, seq);
}

} // verus!
