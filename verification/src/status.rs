//! The texts around the panes: tab titles, the status bar, and where new
//! panes start.
use vstd::prelude::*;

use crate::config::schema::NewTabDirectory;
use crate::git::{BranchState, GitStatus};
use crate::path::{a_name, file_name, last_name, lemma_names_are_last, named, same_path, same_place};
use crate::text::{
    begins_with, chars_of, decimal, has_prefix, lemma_rfind_last, push_decimal, string_of, tail_of,
};

verus! {

/// A text that may be missing.
pub open spec fn given(s: Option<&str>) -> Option<Seq<char>> {
    match s {
        None => None,
        Some(t) => Some(t@),
    }
}

/// The first of two places that is known, else the root.
pub open spec fn first_place(a: Option<Seq<char>>, b: Option<Seq<char>>) -> Seq<char> {
    match (a, b) {
        (Some(p), _) => p,
        (None, Some(p)) => p,
        (None, None) => "/"@,
    }
}

/// Where a pane starts that goes on from another: the other's directory,
/// else home, else the root.
pub fn start_directory(cwd: Option<&str>, home: Option<&str>) -> (r: String)
    ensures
        r@ == first_place(given(cwd), given(home)),
{
    match (cwd, home) {
        (Some(p), _) => p.to_owned(),
        (None, Some(p)) => p.to_owned(),
        (None, None) => "/".to_owned(),
    }
}

/// Where a new tab starts: at home, or in the focused pane's directory.
pub fn new_tab_cwd(setting: NewTabDirectory, cwd: Option<&str>, home: Option<&str>) -> (r: String)
    ensures
        r@ == first_place(
            if setting is Home {
                None
            } else {
                given(cwd)
            },
            given(home),
        ),
{
    match setting {
        NewTabDirectory::Home => start_directory(None, home),
        NewTabDirectory::Pwd => start_directory(cwd, home),
    }
}

/// What a tab is called: the directory of its active pane.
pub open spec fn title(cwd: Option<Seq<char>>, home: Option<Seq<char>>) -> Seq<char> {
    match cwd {
        None => "shell"@,
        Some(p) => if home is Some && same_place(home->0, p) {
            "~"@
        } else {
            match named(p) {
                Some(n) => n,
                None => "/"@,
            }
        },
    }
}

/// What a tab is called: the last name of its active pane's directory, `~`
/// at home, and `shell` where no directory is known yet.
pub fn tab_title(cwd: Option<&str>, home: Option<&str>) -> (r: String)
    ensures
        r@ == title(given(cwd), given(home)),
{
    let p = match cwd {
        None => {
            return "shell".to_owned();
        },
        Some(p) => p,
    };
    if let Some(h) = home {
        if same_path(h, p) {
            return "~".to_owned();
        }
    }
    match file_name(p) {
        Some(n) => n,
        None => "/".to_owned(),
    }
}

/// A directory as the status bar shows it.
pub open spec fn shortened(cwd: Option<Seq<char>>, home: Option<Seq<char>>) -> Seq<char> {
    match cwd {
        None => ""@,
        Some(p) => if home is Some && begins_with(p, home->0) {
            "~"@ + p.skip(home->0.len() as int)
        } else {
            p
        },
    }
}

/// A directory as the status bar shows it: the home directory in front
/// becomes `~`.
pub fn status_directory(cwd: Option<&str>, home: Option<&str>) -> (r: String)
    ensures
        r@ == shortened(given(cwd), given(home)),
{
    let p = match cwd {
        None => {
            return "".to_owned();
        },
        Some(p) => p,
    };
    if let Some(h) = home {
        if has_prefix(p, h) {
            let v = chars_of(p);
            let n = chars_of(h).len();
            let rest = tail_of(v.as_slice(), n);
            assert(rest@ =~= p@.skip(h@.len() as int));
            let mut out = "~".to_owned();
            out.push_str(string_of(rest).as_str());
            return out;
        }
    }
    p.to_owned()
}

/// A count behind an arrow, where there is anything to count.
pub open spec fn counted(arrow: Seq<char>, n: int) -> Seq<char> {
    if n > 0 {
        arrow + decimal(n as nat)
    } else {
        Seq::empty()
    }
}

/// A repository as the status bar shows it.
pub open spec fn branch_label(s: BranchState) -> Option<Seq<char>> {
    match s.branch {
        None => None,
        Some(b) => Some(
            "\u{e0a0} "@ + b + if s.dirty {
                " ●"@
            } else {
                Seq::empty()
            } + counted(" ⇡"@, s.ahead) + counted(" ⇣"@, s.behind),
        ),
    }
}

/// The status bar's git label: the branch, a dot where files changed, and how
/// far it is ahead of and behind its upstream.
pub fn git_label(s: &GitStatus) -> (r: Option<String>)
    ensures
        match r {
            None => branch_label(s@) is None,
            Some(t) => branch_label(s@) == Some(t@),
        },
{
    match &s.branch {
        None => None,
        Some(b) => {
            let mut out = "\u{e0a0} ".to_owned();
            out.push_str(b.as_str());
            let ghost a = out@;
            if s.dirty {
                out.push_str(" ●");
            }
            assert(out@ =~= a + if s.dirty {
                " ●"@
            } else {
                Seq::empty()
            });
            let ghost a = out@;
            if s.ahead > 0 {
                out.push_str(" ⇡");
                push_decimal(&mut out, s.ahead as u64);
            }
            assert(out@ =~= a + counted(" ⇡"@, s@.ahead));
            let ghost a = out@;
            if s.behind > 0 {
                out.push_str(" ⇣");
                push_decimal(&mut out, s.behind as u64);
            }
            assert(out@ =~= a + counted(" ⇣"@, s@.behind));
            Some(out)
        },
    }
}

/// Whether the status bar shows: as it was last switched in this window, else
/// as configured.
pub fn status_bar_shown(switched: Option<bool>, enabled: bool) -> (r: bool)
    ensures
        r == (switched == Some(true) || (switched is None && enabled)),
{
    match switched {
        Some(b) => b,
        None => enabled,
    }
}

// --- What the texts say ---

/// A tab is named after its directory: `~` at home, the last name elsewhere,
/// a slash at the root, and `shell` where the directory is not known.
pub proof fn lemma_tab_titles(d: Seq<char>, n: Seq<char>, home: Seq<char>)
    requires
        a_name(n),
        n != seq!['.', '.'],
    ensures
        title(None, Some(home)) == "shell"@,
        title(None, None) == "shell"@,
        title(Some(home), Some(home)) == "~"@,
        title(Some(d + seq!['/'] + n), None) == n,
        !same_place(home, d + seq!['/'] + n) ==> title(Some(d + seq!['/'] + n), Some(home)) == n,
        title(Some(seq!['/']), None) == "/"@,
{
    lemma_names_are_last(d, n);
    let p = seq!['/'];
    let none = Seq::<char>::empty();
    lemma_rfind_last(p, '/');
    assert(p[0] == '/');
    assert(p.skip(1) =~= none);
    assert(p.take(0) =~= none);
    lemma_rfind_last(none, '/');
    assert(last_name(none) is None);
    assert(last_name(p) is None);
}

/// A directory below home is shown with `~` in its place; any other is shown
/// whole.
pub proof fn lemma_shortened_directories(p: Seq<char>, home: Seq<char>)
    ensures
        shortened(Some(home + p), Some(home)) == "~"@ + p,
        shortened(Some(p), None) == p,
        !begins_with(p, home) ==> shortened(Some(p), Some(home)) == p,
        shortened(None, Some(home)) == ""@,
{
    assert((home + p).take(home.len() as int) =~= home);
    assert((home + p).skip(home.len() as int) =~= p);
}

/// The branch, a dot where there are changes, and how far it is ahead and
/// behind where it is.
pub proof fn lemma_branch_labels(b: Seq<char>, n: u32, k: u32)
    requires
        n > 0,
        k > 0,
    ensures
        branch_label(BranchState { branch: None, dirty: true, ahead: 0, behind: 0 }) is None,
        branch_label(BranchState { branch: Some(b), dirty: false, ahead: 0, behind: 0 }) == Some(
            "\u{e0a0} "@ + b,
        ),
        branch_label(BranchState { branch: Some(b), dirty: true, ahead: 0, behind: 0 }) == Some(
            "\u{e0a0} "@ + b + " ●"@,
        ),
        branch_label(BranchState { branch: Some(b), dirty: false, ahead: n as int, behind: 0 })
            == Some("\u{e0a0} "@ + b + " ⇡"@ + decimal(n as nat)),
        branch_label(BranchState { branch: Some(b), dirty: false, ahead: 0, behind: k as int })
            == Some("\u{e0a0} "@ + b + " ⇣"@ + decimal(k as nat)),
        branch_label(BranchState { branch: Some(b), dirty: true, ahead: n as int, behind: k as int })
            == Some(
            "\u{e0a0} "@ + b + " ●"@ + " ⇡"@ + decimal(n as nat) + " ⇣"@ + decimal(k as nat),
        ),
{
    let h = "\u{e0a0} "@ + b;
    let e = Seq::<char>::empty();
    assert(h + e + e + e =~= h);
    assert(h + " ●"@ + e + e =~= h + " ●"@);
    assert(h + e + (" ⇡"@ + decimal(n as nat)) + e =~= h + " ⇡"@ + decimal(n as nat));
    assert(h + e + e + (" ⇣"@ + decimal(k as nat)) =~= h + " ⇣"@ + decimal(k as nat));
    assert(h + " ●"@ + (" ⇡"@ + decimal(n as nat)) + (" ⇣"@ + decimal(k as nat)) =~= h + " ●"@
        + " ⇡"@ + decimal(n as nat) + " ⇣"@ + decimal(k as nat));
}

/// The first place that is known is taken, and the root where none is.
pub proof fn lemma_first_places(a: Seq<char>, b: Option<Seq<char>>)
    ensures
        first_place(Some(a), b) == a,
        first_place(None, Some(a)) == a,
        first_place(None, None) == "/"@,
{
}

/// A new tab starts where the last one is, or at home where that is asked
/// for.
pub proof fn lemma_new_tabs(cwd: &str, home: &str, r: String)
    ensures
        call_ensures(new_tab_cwd, (NewTabDirectory::Home, Some(cwd), Some(home)), r) ==> r@ == home@,
        call_ensures(new_tab_cwd, (NewTabDirectory::Pwd, Some(cwd), Some(home)), r) ==> r@
            == cwd@,
        call_ensures(new_tab_cwd, (NewTabDirectory::Pwd, None, Some(home)), r) ==> r@ == home@,
        call_ensures(new_tab_cwd, (NewTabDirectory::Pwd, None, None), r) ==> r@ == "/"@,
{
}

/// The status bar is shown as it was last switched, and as configured before
/// that.
pub proof fn lemma_the_status_bar(switched: bool, enabled: bool, r: bool)
    ensures
        call_ensures(status_bar_shown, (Some(switched), enabled), r) ==> r == switched,
        call_ensures(status_bar_shown, (None, enabled), r) ==> r == enabled,
{
}

} // verus!
