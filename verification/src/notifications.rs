//! Desktop notifications for finished commands and for programs that post
//! their own (OSC 9 / OSC 777): whether to post one, and what it says.
use vstd::prelude::*;

use crate::config::schema::NotificationsConfig;
use crate::terminal::commands::{duration_text, format_duration};
use crate::text::{lemma_replaced_joined, push_signed, replace_char, replaced, signed_decimal};

verus! {

/// What just finished, as the threshold logic sees it.
#[derive(Debug, Clone, Copy, PartialEq, Structural)]
pub struct Finished {
    /// In nanoseconds.
    pub duration: u64,
    pub exit: Option<i32>,
    /// The pane had keyboard focus in an active window.
    pub pane_focused: bool,
}

/// Whether a command failed.
pub open spec fn failed(exit: Option<i32>) -> bool {
    exit is Some && exit->0 != 0
}

/// Whether a finished command is long or bad enough, and unseen.
pub open spec fn notifies(config: NotificationsConfig, finished: Finished) -> bool {
    &&& config.enabled
    &&& !(config.only_when_unfocused && finished.pane_focused)
    &&& finished.duration >= config.min_duration.0 || (failed(finished.exit)
        && config.on_failure_always)
}

/// Whether a finished command deserves a notification.
pub fn should_notify(config: &NotificationsConfig, finished: Finished) -> (r: bool)
    ensures
        r == notifies(*config, finished),
{
    if !config.enabled {
        return false;
    }
    if config.only_when_unfocused && finished.pane_focused {
        return false;
    }
    let failed = match finished.exit {
        None => false,
        Some(e) => e != 0,
    };
    finished.duration as u128 >= config.min_duration.0 || (failed && config.on_failure_always)
}

/// `✓ cargo build — 2m14s` / `✗ npm test — exit 1 · 4.2s`.
pub open spec fn summary(label: Seq<char>, exit: Option<i32>, duration: u64) -> Seq<char> {
    match exit {
        None => "• "@ + label + " — "@ + duration_text(duration as nat),
        Some(code) => if code == 0 {
            "✓ "@ + label + " — "@ + duration_text(duration as nat)
        } else {
            "✗ "@ + label + " — exit "@ + signed_decimal(code as int) + " · "@ + duration_text(duration as nat)
        },
    }
}

/// `✓ cargo build — 2m14s` / `✗ npm test — exit 1 · 4.2s`. The duration is
/// in nanoseconds.
pub fn command_summary(label: &str, exit: Option<i32>, duration: u64) -> (r: String)
    ensures
        r@ == summary(label@, exit, duration),
{
    let time = format_duration(duration);
    let mut out = match exit {
        None => "• ".to_owned(),
        Some(code) => if code == 0 {
            "✓ ".to_owned()
        } else {
            "✗ ".to_owned()
        },
    };
    out.push_str(label);
    match exit {
        Some(code) => if code == 0 {
            out.push_str(" — ");
        } else {
            out.push_str(" — exit ");
            push_signed(&mut out, code);
            out.push_str(" · ");
        },
        None => {
            out.push_str(" — ");
        },
    }
    out.push_str(time.as_str());
    out
}

/// A text as the inside of an AppleScript string literal.
pub open spec fn script_text(s: Seq<char>) -> Seq<char> {
    replaced(replaced(s, '\\', "\\\\"@), '"', "\\\""@)
}

/// The AppleScript line that posts a notification.
pub fn notification_script(title: &str, body: &str) -> (r: String)
    ensures
        r@ == "display notification \""@ + script_text(body@) + "\" with title \""@ + script_text(
            title@,
        ) + "\""@,
{
    let mut out = "display notification \"".to_owned();
    let body = replace_char(body, '\\', "\\\\");
    out.push_str(replace_char(body.as_str(), '"', "\\\"").as_str());
    out.push_str("\" with title \"");
    let title = replace_char(title, '\\', "\\\\");
    out.push_str(replace_char(title.as_str(), '"', "\\\"").as_str());
    out.push_str("\"");
    out
}

/// Nothing is posted while notifications are off, nor for a pane that is in
/// focus where that keeps them quiet, nor for a short success.
pub proof fn lemma_quiet(config: NotificationsConfig, finished: Finished)
    requires
        !config.enabled || (config.only_when_unfocused && finished.pane_focused) || (
        finished.duration < config.min_duration.0 && !failed(finished.exit)),
    ensures
        !notifies(config, finished),
{
}

/// A command that ended is told of where notifications are on and it is not
/// in sight, if it ran long enough; a failed one, with an exit code that is
/// not zero, is told of at once where that is asked for.
pub proof fn lemma_told(config: NotificationsConfig, finished: Finished)
    requires
        config.enabled,
        !config.only_when_unfocused || !finished.pane_focused,
    ensures
        finished.duration >= config.min_duration.0 ==> notifies(config, finished),
        config.on_failure_always && (finished.exit matches Some(code) && code != 0) ==> notifies(
            config,
            finished,
        ),
        finished.duration < config.min_duration.0 && (finished.exit is None || finished.exit == Some(
            0i32,
        ) || !config.on_failure_always) ==> !notifies(config, finished),
{
}

/// A summary is a sign, the label and how long it took: a tick for success, a
/// cross with the exit code for a failure, and a dot where no code came.
pub proof fn lemma_summaries(label: Seq<char>, code: i32, duration: u64)
    ensures
        summary(label, Some(0), duration) == "✓ "@ + label + " — "@ + duration_text(duration as nat),
        code != 0 ==> summary(label, Some(code), duration) == "✗ "@ + label + " — exit "@
            + signed_decimal(code as int) + " · "@ + duration_text(duration as nat),
        summary(label, None, duration) == "• "@ + label + " — "@ + duration_text(duration as nat),
{
}

/// What a quoted text of a script stands for: a backslash lets the next
/// character stand for itself. There is none where a quote stands bare.
pub open spec fn quoted_text(s: Seq<char>) -> Option<Seq<char>>
    decreases s.len(),
{
    if s.len() == 0 {
        Some(Seq::empty())
    } else if s[0] == '"' {
        None
    } else if s[0] == '\\' {
        if s.len() < 2 {
            None
        } else {
            match quoted_text(s.skip(2)) {
                None => None,
                Some(t) => Some(seq![s[1]] + t),
            }
        }
    } else {
        match quoted_text(s.skip(1)) {
            None => None,
            Some(t) => Some(seq![s[0]] + t),
        }
    }
}

proof fn lemma_script_front(c: char, s: Seq<char>)
    ensures
        script_text(seq![c] + s) == (if c == '\\' {
            seq!['\\', '\\']
        } else if c == '"' {
            seq!['\\', '"']
        } else {
            seq![c]
        }) + script_text(s),
{
    reveal_strlit("\\\\");
    reveal_strlit("\\\"");
    let one = seq![c];
    lemma_replaced_joined(one, s, '\\', "\\\\"@);
    let x = replaced(one, '\\', "\\\\"@);
    assert(one.drop_last() =~= Seq::<char>::empty());
    assert(replaced(one.drop_last(), '\\', "\\\\"@) =~= Seq::<char>::empty());
    assert("\\\\"@ =~= seq!['\\', '\\']);
    assert("\\\""@ =~= seq!['\\', '"']);
    lemma_replaced_joined(x, replaced(s, '\\', "\\\\"@), '"', "\\\""@);
    if c == '\\' {
        assert(x =~= seq!['\\', '\\']);
        assert(x.drop_last() =~= seq!['\\']);
        assert(x.drop_last().drop_last() =~= Seq::<char>::empty());
        assert(replaced(x.drop_last().drop_last(), '"', "\\\""@) =~= Seq::<char>::empty());
        assert(replaced(x.drop_last(), '"', "\\\""@) =~= seq!['\\']);
        assert(replaced(x, '"', "\\\""@) =~= seq!['\\', '\\']);
    } else {
        assert(x =~= seq![c]);
        assert(x.drop_last() =~= Seq::<char>::empty());
        assert(replaced(x.drop_last(), '"', "\\\""@) =~= Seq::<char>::empty());
        assert(replaced(x, '"', "\\\""@) =~= if c == '"' {
            seq!['\\', '"']
        } else {
            seq![c]
        });
    }
}

/// A text in quotes reads back as itself: no quote ends it early and no
/// backslash is lost.
pub proof fn lemma_script_text_reads_back(s: Seq<char>)
    ensures
        quoted_text(script_text(s)) == Some(s),
    decreases s.len(),
{
    if s.len() == 0 {
        assert(replaced(s, '\\', "\\\\"@) =~= Seq::<char>::empty());
        assert(script_text(s) =~= Seq::<char>::empty());
        assert(s =~= Seq::<char>::empty());
    } else {
        let r = s.skip(1);
        let c = s[0];
        assert(s =~= seq![c] + r);
        lemma_script_front(c, r);
        lemma_script_text_reads_back(r);
        let t = script_text(s);
        if c == '\\' || c == '"' {
            assert(t[0] == '\\' && t[1] == c);
            assert(t.skip(2) =~= script_text(r));
        } else {
            assert(t[0] == c);
            assert(t.skip(1) =~= script_text(r));
        }
    }
}

} // verus!
