//! Copy mode: vi-style navigation of the scrollback. Nothing typed in it
//! reaches the shell. Modelled on vim's normal/visual modes and tmux's copy
//! mode.
use vstd::prelude::*;

use crate::keymap::keystroke::{Keystroke, Modifiers};
use crate::text::{chars_of, decimal, push_decimal, same};

verus! {

/// Copy mode's sub-mode, for the indicator.
#[derive(Debug, Clone, Copy, PartialEq, Eq, Structural)]
pub enum ViModeKind {
    Normal,
    Visual,
    VisualLine,
    VisualBlock,
}

impl ViModeKind {
    /// The sub-mode's name.
    pub open spec fn name(self) -> Seq<char> {
        match self {
            ViModeKind::Normal => "COPY"@,
            ViModeKind::Visual => "VISUAL"@,
            ViModeKind::VisualLine => "V-LINE"@,
            ViModeKind::VisualBlock => "V-BLOCK"@,
        }
    }

    pub fn label(self) -> (r: &'static str)
        ensures
            r@ == self.name(),
    {
        match self {
            ViModeKind::Normal => "COPY",
            ViModeKind::Visual => "VISUAL",
            ViModeKind::VisualLine => "V-LINE",
            ViModeKind::VisualBlock => "V-BLOCK",
        }
    }
}

/// How a selection grows.
#[derive(Debug, Clone, Copy, PartialEq, Eq, Structural)]
pub enum SelectionKind {
    Simple,
    Semantic,
    Lines,
    Block,
}

/// A selection as far as copy mode looks at it.
#[derive(Debug, Clone, Copy, PartialEq, Eq, Structural)]
pub struct Selected {
    pub kind: SelectionKind,
    /// Nothing is in it yet.
    pub empty: bool,
}

/// Where the vi cursor can go.
#[derive(Debug, Clone, Copy, PartialEq, Eq, Structural)]
pub enum ViMotion {
    Left,
    Down,
    Up,
    Right,
    SemanticRight,
    SemanticLeft,
    SemanticRightEnd,
    WordRight,
    WordLeft,
    WordRightEnd,
    First,
    FirstOccupied,
    Last,
    High,
    Middle,
    Low,
    Bracket,
    ParagraphUp,
    ParagraphDown,
}

/// What a key does in copy mode.
#[derive(Debug, Clone, Copy, PartialEq, Eq, Structural)]
pub enum ViAction {
    /// Not a key of copy mode; nothing changes on the screen.
    Ignore,
    /// Nothing but the indicator changes.
    Redraw,
    /// Move the cursor.
    Move { motion: ViMotion, times: usize },
    /// Scroll by `lines`, upward if positive, then move the cursor.
    ScrollAndMove { lines: i32, motion: ViMotion, times: usize },
    /// Scroll by `lines`, upward if positive.
    Scroll { lines: i32 },
    /// Go to the first line of the scrollback.
    GotoTop,
    /// Go to the last line of the screen.
    GotoBottom,
    /// Start, or for the same kind end, a selection at the cursor.
    ToggleSelection(SelectionKind),
    /// Select the cursor's line, copy it and leave.
    YankLine,
    /// Copy the selection, and leave if there was anything in it.
    Copy,
    /// Open the search bar, forward (`/`) or backward (`?`).
    OpenSearch { forward: bool },
    /// Repeat the last search, in the same or the opposite direction.
    SearchAgain { reverse: bool },
    /// Drop the selection.
    DropSelection,
    /// Leave copy mode.
    Exit,
}

/// Copy-mode input state: a pending count (`5j`) and a pending first key
/// of a two-key sequence (`gg`, `yy`).
#[derive(Debug, Clone, Copy, PartialEq, Eq, Structural)]
pub struct ViState {
    pub count: Option<usize>,
    pub pending: Option<char>,
}

impl Default for ViState {
    fn default() -> (r: Self)
        ensures
            r == (ViState { count: None, pending: None }),
    {
        ViState { count: None, pending: None }
    }
}

/// The largest count that can be typed.
pub const MAX_COUNT: usize = 99_999;

/// What is left after a key: the input state, and what to do.
pub ghost struct ViStep {
    pub state: ViState,
    pub action: ViAction,
}

/// No count and nothing pending.
pub open spec fn vi_clear() -> ViState {
    ViState { count: None, pending: None }
}

/// The number of lines in half a screen, one at least.
pub open spec fn half_page(screen_lines: int) -> int {
    if screen_lines / 2 < 1 {
        1
    } else {
        screen_lines / 2
    }
}

/// What a key does with control held.
pub open spec fn vi_control(key: Seq<char>, screen_lines: int) -> ViAction {
    let half = half_page(screen_lines);
    if key == "d"@ {
        ViAction::ScrollAndMove { lines: -half as i32, motion: ViMotion::Down, times: half as usize }
    } else if key == "u"@ {
        ViAction::ScrollAndMove { lines: half as i32, motion: ViMotion::Up, times: half as usize }
    } else if key == "f"@ {
        ViAction::ScrollAndMove {
            lines: -screen_lines as i32,
            motion: ViMotion::Down,
            times: screen_lines as usize,
        }
    } else if key == "b"@ {
        ViAction::ScrollAndMove {
            lines: screen_lines as i32,
            motion: ViMotion::Up,
            times: screen_lines as usize,
        }
    } else if key == "v"@ {
        ViAction::ToggleSelection(SelectionKind::Block)
    } else if key == "c"@ || key == "["@ {
        ViAction::Exit
    } else {
        ViAction::Redraw
    }
}

/// The character that a key stands for: named keys first; everything else
/// goes by the typed character so shifted punctuation (`$`, `^`, `{`)
/// arrives as itself.
pub open spec fn vi_char(key: Seq<char>, typed: Option<Seq<char>>) -> Option<char> {
    if key == "escape"@ {
        Some('\u{1b}')
    } else if key == "enter"@ {
        Some('\r')
    } else if key == "up"@ {
        Some('k')
    } else if key == "down"@ {
        Some('j')
    } else if key == "left"@ || key == "backspace"@ {
        Some('h')
    } else if key == "right"@ {
        Some('l')
    } else if key == "home"@ {
        Some('0')
    } else if key == "end"@ {
        Some('$')
    } else if key == "pageup"@ {
        Some('\u{1}')
    } else if key == "pagedown"@ {
        Some('\u{2}')
    } else if key == "space"@ {
        Some(' ')
    } else {
        match typed {
            None => None,
            Some(t) => if t.len() == 1 {
                Some(t[0])
            } else {
                None
            },
        }
    }
}

/// A count with one more digit.
pub open spec fn longer_count(count: Option<usize>, digit: int) -> int {
    let c = match count {
        None => 0,
        Some(c) => c as int,
    } * 10 + digit;
    if c < MAX_COUNT {
        c
    } else {
        MAX_COUNT as int
    }
}

/// Where a motion key goes, `n` times where that makes sense.
pub open spec fn vi_motion(key: char, n: usize) -> Option<ViAction> {
    if key == 'h' {
        Some(ViAction::Move { motion: ViMotion::Left, times: n })
    } else if key == 'j' {
        Some(ViAction::Move { motion: ViMotion::Down, times: n })
    } else if key == 'k' {
        Some(ViAction::Move { motion: ViMotion::Up, times: n })
    } else if key == 'l' {
        Some(ViAction::Move { motion: ViMotion::Right, times: n })
    } else if key == ' ' {
        Some(ViAction::Move { motion: ViMotion::Right, times: n })
    } else if key == 'w' {
        Some(ViAction::Move { motion: ViMotion::SemanticRight, times: n })
    } else if key == 'b' {
        Some(ViAction::Move { motion: ViMotion::SemanticLeft, times: n })
    } else if key == 'e' {
        Some(ViAction::Move { motion: ViMotion::SemanticRightEnd, times: n })
    } else if key == 'W' {
        Some(ViAction::Move { motion: ViMotion::WordRight, times: n })
    } else if key == 'B' {
        Some(ViAction::Move { motion: ViMotion::WordLeft, times: n })
    } else if key == 'E' {
        Some(ViAction::Move { motion: ViMotion::WordRightEnd, times: n })
    } else if key == '0' {
        Some(ViAction::Move { motion: ViMotion::First, times: 1 })
    } else if key == '^' {
        Some(ViAction::Move { motion: ViMotion::FirstOccupied, times: 1 })
    } else if key == '$' {
        Some(ViAction::Move { motion: ViMotion::Last, times: 1 })
    } else if key == 'H' {
        Some(ViAction::Move { motion: ViMotion::High, times: 1 })
    } else if key == 'M' {
        Some(ViAction::Move { motion: ViMotion::Middle, times: 1 })
    } else if key == 'L' {
        Some(ViAction::Move { motion: ViMotion::Low, times: 1 })
    } else if key == '%' {
        Some(ViAction::Move { motion: ViMotion::Bracket, times: 1 })
    } else if key == '{' {
        Some(ViAction::Move { motion: ViMotion::ParagraphUp, times: n })
    } else if key == '}' {
        Some(ViAction::Move { motion: ViMotion::ParagraphDown, times: n })
    } else {
        None
    }
}

/// How often a counted key acts: once at least.
pub open spec fn times(count: Option<usize>) -> usize {
    match count {
        None => 1,
        Some(c) => if c < 1 {
            1
        } else {
            c
        },
    }
}

/// What a character does with nothing pending before it.
pub open spec fn vi_plain(
    count: Option<usize>,
    key: char,
    screen_lines: int,
    selection: Option<Selected>,
) -> ViStep {
    let done = |action: ViAction| ViStep { state: vi_clear(), action };
    let selected = selection is Some && !(selection->0).empty;
    if vi_motion(key, times(count)) is Some {
        done(vi_motion(key, times(count))->0)
    } else if key == 'G' {
        done(ViAction::GotoBottom)
    } else if key == '\u{1}' {
        done(ViAction::Scroll { lines: screen_lines as i32 })
    } else if key == '\u{2}' {
        done(ViAction::Scroll { lines: -screen_lines as i32 })
    } else if key == 'g' || (key == 'y' && !selected) {
        ViStep { state: ViState { count, pending: Some(key) }, action: ViAction::Redraw }
    } else if key == 'y' || key == '\r' {
        done(ViAction::Copy)
    } else if key == 'v' {
        done(ViAction::ToggleSelection(SelectionKind::Simple))
    } else if key == 'V' {
        done(ViAction::ToggleSelection(SelectionKind::Lines))
    } else if key == '/' {
        done(ViAction::OpenSearch { forward: true })
    } else if key == '?' {
        done(ViAction::OpenSearch { forward: false })
    } else if key == 'n' {
        done(ViAction::SearchAgain { reverse: false })
    } else if key == 'N' {
        done(ViAction::SearchAgain { reverse: true })
    } else if key == '\u{1b}' {
        done(
            if selection is Some {
                ViAction::DropSelection
            } else {
                ViAction::Exit
            },
        )
    } else if key == 'q' || key == 'i' || key == 'a' {
        done(ViAction::Exit)
    } else {
        done(ViAction::Redraw)
    }
}

/// Whether a key goes on with a count: any digit, except a leading 0, which
/// is a motion.
pub open spec fn counts(count: Option<usize>, key: char) -> bool {
    '0' <= key <= '9' && (key != '0' || count is Some)
}

/// What a key does in copy mode.
pub open spec fn vi_step(
    state: ViState,
    key: Seq<char>,
    m: Modifiers,
    typed: Option<Seq<char>>,
    screen_lines: int,
    selection: Option<Selected>,
) -> ViStep {
    if m.platform || m.function {
        // cmd-keys are the app's; anything unbound is ignored
        ViStep { state, action: ViAction::Ignore }
    } else if m.control {
        ViStep { state: vi_clear(), action: vi_control(key, screen_lines) }
    } else {
        match vi_char(key, typed) {
            None => ViStep { state: vi_clear(), action: ViAction::Ignore },
            Some(c) => if counts(state.count, c) {
                ViStep {
                    state: ViState {
                        count: Some(longer_count(state.count, c as int - 48) as usize),
                        pending: state.pending,
                    },
                    action: ViAction::Redraw,
                }
            } else if state.pending == Some('g') && c == 'g' {
                ViStep { state: vi_clear(), action: ViAction::GotoTop }
            } else if state.pending == Some('y') && c == 'y' {
                // yy: yank the cursor's line and leave.
                ViStep { state: vi_clear(), action: ViAction::YankLine }
            } else {
                // An unfinished sequence followed by something else is
                // dropped, and the key is handled on its own.
                vi_plain(state.count, c, screen_lines, selection)
            },
        }
    }
}

fn key_char_of(ks: &Keystroke) -> (r: Option<char>)
    ensures
        r == vi_char(
            ks.key@,
            match ks.key_char {
                None => None,
                Some(t) => Some(t@),
            },
        ),
{
    let key = ks.key.as_str();
    if same(key, "escape") {
        Some('\u{1b}')
    } else if same(key, "enter") {
        Some('\r')
    } else if same(key, "up") {
        Some('k')
    } else if same(key, "down") {
        Some('j')
    } else if same(key, "left") || same(key, "backspace") {
        Some('h')
    } else if same(key, "right") {
        Some('l')
    } else if same(key, "home") {
        Some('0')
    } else if same(key, "end") {
        Some('$')
    } else if same(key, "pageup") {
        Some('\u{1}')
    } else if same(key, "pagedown") {
        Some('\u{2}')
    } else if same(key, "space") {
        Some(' ')
    } else {
        match &ks.key_char {
            None => None,
            Some(t) => {
                let chars = chars_of(t.as_str());
                if chars.len() == 1 {
                    Some(chars[0])
                } else {
                    None
                }
            },
        }
    }
}

fn motion_of(key: char, n: usize) -> (r: Option<ViAction>)
    ensures
        r == vi_motion(key, n),
{
    if key == 'h' {
        Some(ViAction::Move { motion: ViMotion::Left, times: n })
    } else if key == 'j' {
        Some(ViAction::Move { motion: ViMotion::Down, times: n })
    } else if key == 'k' {
        Some(ViAction::Move { motion: ViMotion::Up, times: n })
    } else if key == 'l' {
        Some(ViAction::Move { motion: ViMotion::Right, times: n })
    } else if key == ' ' {
        Some(ViAction::Move { motion: ViMotion::Right, times: n })
    } else if key == 'w' {
        Some(ViAction::Move { motion: ViMotion::SemanticRight, times: n })
    } else if key == 'b' {
        Some(ViAction::Move { motion: ViMotion::SemanticLeft, times: n })
    } else if key == 'e' {
        Some(ViAction::Move { motion: ViMotion::SemanticRightEnd, times: n })
    } else if key == 'W' {
        Some(ViAction::Move { motion: ViMotion::WordRight, times: n })
    } else if key == 'B' {
        Some(ViAction::Move { motion: ViMotion::WordLeft, times: n })
    } else if key == 'E' {
        Some(ViAction::Move { motion: ViMotion::WordRightEnd, times: n })
    } else if key == '0' {
        Some(ViAction::Move { motion: ViMotion::First, times: 1 })
    } else if key == '^' {
        Some(ViAction::Move { motion: ViMotion::FirstOccupied, times: 1 })
    } else if key == '$' {
        Some(ViAction::Move { motion: ViMotion::Last, times: 1 })
    } else if key == 'H' {
        Some(ViAction::Move { motion: ViMotion::High, times: 1 })
    } else if key == 'M' {
        Some(ViAction::Move { motion: ViMotion::Middle, times: 1 })
    } else if key == 'L' {
        Some(ViAction::Move { motion: ViMotion::Low, times: 1 })
    } else if key == '%' {
        Some(ViAction::Move { motion: ViMotion::Bracket, times: 1 })
    } else if key == '{' {
        Some(ViAction::Move { motion: ViMotion::ParagraphUp, times: n })
    } else if key == '}' {
        Some(ViAction::Move { motion: ViMotion::ParagraphDown, times: n })
    } else {
        None
    }
}

fn control_action(key: &str, screen_lines: usize) -> (r: ViAction)
    requires
        screen_lines <= i32::MAX,
    ensures
        r == vi_control(key@, screen_lines as int),
{
    let half: i32 = if screen_lines / 2 < 1 {
        1
    } else {
        (screen_lines / 2) as i32
    };
    let full: i32 = screen_lines as i32;
    if same(key, "d") {
        ViAction::ScrollAndMove { lines: -half, motion: ViMotion::Down, times: half as usize }
    } else if same(key, "u") {
        ViAction::ScrollAndMove { lines: half, motion: ViMotion::Up, times: half as usize }
    } else if same(key, "f") {
        ViAction::ScrollAndMove { lines: -full, motion: ViMotion::Down, times: screen_lines }
    } else if same(key, "b") {
        ViAction::ScrollAndMove { lines: full, motion: ViMotion::Up, times: screen_lines }
    } else if same(key, "v") {
        ViAction::ToggleSelection(SelectionKind::Block)
    } else if same(key, "c") || same(key, "[") {
        ViAction::Exit
    } else {
        ViAction::Redraw
    }
}

fn plain_key(
    state: &mut ViState,
    count: Option<usize>,
    key: char,
    screen_lines: usize,
    selection: Option<Selected>,
) -> (r: ViAction)
    requires
        *old(state) == vi_clear(),
        screen_lines <= i32::MAX,
    ensures
        vi_plain(count, key, screen_lines as int, selection) == (ViStep {
            state: *final(state),
            action: r,
        }),
{
    let n: usize = match count {
        None => 1,
        Some(c) => if c < 1 {
            1
        } else {
            c
        },
    };
    let full: i32 = screen_lines as i32;
    let selected = match selection {
        None => false,
        Some(s) => !s.empty,
    };
    if let Some(action) = motion_of(key, n) {
        return action;
    }
    if key == 'G' {
        ViAction::GotoBottom
    } else if key == '\u{1}' {
        ViAction::Scroll { lines: full }
    } else if key == '\u{2}' {
        ViAction::Scroll { lines: -full }
    } else if key == 'g' || (key == 'y' && !selected) {
        state.count = count;
        state.pending = Some(key);
        ViAction::Redraw
    } else if key == 'y' || key == '\r' {
        ViAction::Copy
    } else if key == 'v' {
        ViAction::ToggleSelection(SelectionKind::Simple)
    } else if key == 'V' {
        ViAction::ToggleSelection(SelectionKind::Lines)
    } else if key == '/' {
        ViAction::OpenSearch { forward: true }
    } else if key == '?' {
        ViAction::OpenSearch { forward: false }
    } else if key == 'n' {
        ViAction::SearchAgain { reverse: false }
    } else if key == 'N' {
        ViAction::SearchAgain { reverse: true }
    } else if key == '\u{1b}' {
        if selection.is_some() {
            ViAction::DropSelection
        } else {
            ViAction::Exit
        }
    } else if key == 'q' || key == 'i' || key == 'a' {
        ViAction::Exit
    } else {
        ViAction::Redraw
    }
}

impl ViState {
    /// The keystroke vocabulary of copy mode. The terminal shows
    /// `screen_lines` lines; `selection` is what is selected in it.
    pub fn handle_vi_key(
        &mut self,
        ks: &Keystroke,
        screen_lines: usize,
        selection: Option<Selected>,
    ) -> (r: ViAction)
        requires
            screen_lines <= i32::MAX,
        ensures
            vi_step(
                *old(self),
                ks.key@,
                ks.modifiers,
                match ks.key_char {
                    None => None,
                    Some(t) => Some(t@),
                },
                screen_lines as int,
                selection,
            ) == (ViStep { state: *final(self), action: r }),
    {
        let m = &ks.modifiers;
        if m.platform || m.function {
            return ViAction::Ignore;
        }
        let count = self.count;
        let pending = self.pending;
        self.count = None;
        self.pending = None;
        if m.control {
            return control_action(ks.key.as_str(), screen_lines);
        }
        let key = match key_char_of(ks) {
            None => {
                return ViAction::Ignore;
            },
            Some(c) => c,
        };
        // Counts: digits accumulate, except a leading 0 which is a motion.
        if key >= '0' && key <= '9' && (key != '0' || count.is_some()) {
            let digit: usize = (key as u8 - 48) as usize;
            let so_far: usize = match count {
                None => 0,
                Some(c) => c,
            };
            let next: usize = if so_far >= 10_000 {
                MAX_COUNT
            } else {
                so_far * 10 + digit
            };
            self.count = Some(next);
            self.pending = pending;
            return ViAction::Redraw;
        }
        if pending == Some('g') && key == 'g' {
            return ViAction::GotoTop;
        }
        if pending == Some('y') && key == 'y' {
            return ViAction::YankLine;
        }
        plain_key(self, count, key, screen_lines, selection)
    }
}

/// A count never grows beyond its limit.
pub proof fn lemma_count_bounded(
    state: ViState,
    key: Seq<char>,
    m: Modifiers,
    typed: Option<Seq<char>>,
    screen_lines: int,
    selection: Option<Selected>,
)
    requires
        state.count matches Some(c) ==> c <= MAX_COUNT,
    ensures
        vi_step(state, key, m, typed, screen_lines, selection).state.count matches Some(c) ==> c
            <= MAX_COUNT,
{
}

/// An unfinished two-key sequence is forgotten by a key that does not go on
/// with it: that key does what it does on its own.
pub proof fn lemma_unfinished_dropped(
    state: ViState,
    c: char,
    screen_lines: int,
    selection: Option<Selected>,
    m: Modifiers,
)
    requires
        !m.platform && !m.function && !m.control,
        !counts(state.count, c),
        state.pending != Some(c),
        vi_char(seq![c], Some(seq![c])) == Some(c),
    ensures
        vi_step(state, seq![c], m, Some(seq![c]), screen_lines, selection) == vi_step(
            ViState { count: state.count, pending: None },
            seq![c],
            m,
            Some(seq![c]),
            screen_lines,
            selection,
        ),
{
}

/// Why copy mode cannot be entered.
pub open spec fn refusal(exited: bool, has_session: bool, alt_screen: bool) -> Option<Seq<char>> {
    if exited {
        Some("the shell has exited — press ⏎ to restart it first"@)
    } else if !has_session {
        Some("no session"@)
    } else if alt_screen {
        Some("copy mode isn't available while a full-screen program has the terminal"@)
    } else {
        None
    }
}

/// Enter copy mode. Refused while a program holds the alternate screen:
/// there's no scrollback there, and vim already has a vi mode.
pub fn enter_copy_mode(exited: bool, has_session: bool, alt_screen: bool) -> (r: Result<
    ViState,
    &'static str,
>)
    ensures
        match r {
            Ok(s) => refusal(exited, has_session, alt_screen) is None && s == vi_clear(),
            Err(e) => refusal(exited, has_session, alt_screen) == Some(e@),
        },
{
    if exited {
        return Err("the shell has exited — press ⏎ to restart it first");
    }
    if !has_session {
        return Err("no session");
    }
    if alt_screen {
        return Err("copy mode isn't available while a full-screen program has the terminal");
    }
    Ok(ViState::default())
}

/// Which copy sub-mode a selection is.
pub fn vi_mode(selection: Option<Selected>) -> (r: ViModeKind)
    ensures
        r == match selection {
            None => ViModeKind::Normal,
            Some(s) => if s.empty {
                ViModeKind::Normal
            } else {
                match s.kind {
                    SelectionKind::Lines => ViModeKind::VisualLine,
                    SelectionKind::Block => ViModeKind::VisualBlock,
                    SelectionKind::Simple | SelectionKind::Semantic => ViModeKind::Visual,
                }
            },
        },
{
    match selection {
        None => ViModeKind::Normal,
        Some(s) => if s.empty {
            ViModeKind::Normal
        } else {
            match s.kind {
                SelectionKind::Lines => ViModeKind::VisualLine,
                SelectionKind::Block => ViModeKind::VisualBlock,
                SelectionKind::Simple | SelectionKind::Semantic => ViModeKind::Visual,
            }
        },
    }
}

/// Start (or, for the same type, end) a visual selection at the vi cursor:
/// the kind of the new selection, or `None` for no selection.
pub fn toggle_selection(current: Option<Selected>, kind: SelectionKind) -> (r: Option<SelectionKind>)
    ensures
        r == (if current is Some && (current->0).kind == kind && !(current->0).empty {
            None
        } else {
            Some(kind)
        }),
{
    match current {
        None => Some(kind),
        Some(s) => if s.kind == kind && !s.empty {
            None
        } else {
            Some(kind)
        },
    }
}

/// What the copy-mode indicator says, where vim puts its `-- VISUAL --`.
pub fn indicator(kind: ViModeKind, count: Option<usize>) -> (r: String)
    ensures
        r@ == match count {
            None => "-- "@ + kind.name() + " --"@,
            Some(n) => "-- "@ + kind.name() + " -- "@ + decimal(n as nat),
        },
{
    let mut out = "-- ".to_owned();
    out.push_str(kind.label());
    match count {
        None => {
            out.push_str(" --");
        },
        Some(n) => {
            out.push_str(" -- ");
            push_decimal(&mut out, n as u64);
        },
    }
    out
}

// --- What the keys of copy mode are for ---

/// What a typed character does, with no modifier but shift.
pub open spec fn typed_step(
    state: ViState,
    c: char,
    screen_lines: int,
    selection: Option<Selected>,
) -> ViStep {
    vi_step(
        state,
        seq![c],
        Modifiers { control: false, alt: false, shift: false, platform: false, function: false },
        Some(seq![c]),
        screen_lines,
        selection,
    )
}

/// The names of the keys, spelled out: they are all different.
proof fn lemma_key_spellings()
    ensures
        "escape"@.len() == 6 && "escape"@ =~= seq!['e', 's', 'c', 'a', 'p', 'e'],
        "enter"@.len() == 5 && "enter"@ =~= seq!['e', 'n', 't', 'e', 'r'],
        "up"@.len() == 2 && "up"@ =~= seq!['u', 'p'],
        "down"@.len() == 4 && "down"@ =~= seq!['d', 'o', 'w', 'n'],
        "left"@.len() == 4 && "left"@ =~= seq!['l', 'e', 'f', 't'],
        "backspace"@.len() == 9 && "backspace"@ =~= seq!['b', 'a', 'c', 'k', 's', 'p', 'a', 'c', 'e'],
        "right"@.len() == 5 && "right"@ =~= seq!['r', 'i', 'g', 'h', 't'],
        "home"@.len() == 4 && "home"@ =~= seq!['h', 'o', 'm', 'e'],
        "end"@.len() == 3 && "end"@ =~= seq!['e', 'n', 'd'],
        "pageup"@.len() == 6 && "pageup"@ =~= seq!['p', 'a', 'g', 'e', 'u', 'p'],
        "pagedown"@.len() == 8 && "pagedown"@ =~= seq!['p', 'a', 'g', 'e', 'd', 'o', 'w', 'n'],
        "space"@.len() == 5 && "space"@ =~= seq!['s', 'p', 'a', 'c', 'e'],
{
    reveal_strlit("escape");
    reveal_strlit("enter");
    reveal_strlit("up");
    reveal_strlit("down");
    reveal_strlit("left");
    reveal_strlit("backspace");
    reveal_strlit("right");
    reveal_strlit("home");
    reveal_strlit("end");
    reveal_strlit("pageup");
    reveal_strlit("pagedown");
    reveal_strlit("space");
}

/// A character that is typed is the key, whatever it is.
pub proof fn lemma_typed_characters(c: char)
    ensures
        vi_char(seq![c], Some(seq![c])) == Some(c),
{
    lemma_key_spellings();
    assert(seq![c].len() == 1);
}

/// The named keys do what the letters of vi do: the arrows move as h, j, k
/// and l, Home and End as 0 and $, Enter and Escape as themselves.
pub proof fn lemma_named_keys(typed: Option<Seq<char>>)
    ensures
        vi_char("left"@, typed) == Some('h'),
        vi_char("backspace"@, typed) == Some('h'),
        vi_char("down"@, typed) == Some('j'),
        vi_char("up"@, typed) == Some('k'),
        vi_char("right"@, typed) == Some('l'),
        vi_char("space"@, typed) == Some(' '),
        vi_char("home"@, typed) == Some('0'),
        vi_char("end"@, typed) == Some('$'),
        vi_char("enter"@, typed) == Some('\r'),
        vi_char("escape"@, typed) == Some('\u{1b}'),
{
    lemma_key_spellings();
    assert("home"@[0] == 'h' && "left"@[0] == 'l' && "down"@[0] == 'd');
    assert("enter"@[0] == 'e' && "right"@[0] == 'r' && "space"@[0] == 's');
    assert("pageup"@[0] == 'p' && "escape"@[0] == 'e');
}

/// Page Up scrolls back by a screen, and Page Down forward by one.
pub proof fn lemma_page_keys(state: ViState, m: Modifiers, typed: Option<Seq<char>>, lines: int, sel: Option<Selected>)
    requires
        !m.platform && !m.function && !m.control,
        0 <= lines <= i32::MAX,
    ensures
        vi_step(state, "pageup"@, m, typed, lines, sel).action == (ViAction::Scroll {
            lines: lines as i32,
        }),
        vi_step(state, "pagedown"@, m, typed, lines, sel).action == (ViAction::Scroll {
            lines: -lines as i32,
        }),
{
    lemma_key_spellings();
    assert("pageup"@[0] == 'p' && "escape"@[0] == 'e');
}

/// The motions are those of vi: h, j, k and l go left, down, up and right, w,
/// b and e by words, W, B and E by longer words, braces by paragraphs, each
/// as often as counted; the rest go to a place, once.
pub proof fn lemma_motions(count: Option<usize>, pending: Option<char>, lines: int, sel: Option<Selected>)
    ensures
        ({
            let n = match count {
                None => 1,
                Some(c) => if c == 0 {
                    1
                } else {
                    c
                },
            };
            let s = ViState { count, pending };
            &&& typed_step(s, 'h', lines, sel) == moves(ViMotion::Left, n)
            &&& typed_step(s, 'j', lines, sel) == moves(ViMotion::Down, n)
            &&& typed_step(s, 'k', lines, sel) == moves(ViMotion::Up, n)
            &&& typed_step(s, 'l', lines, sel) == moves(ViMotion::Right, n)
            &&& typed_step(s, ' ', lines, sel) == moves(ViMotion::Right, n)
            &&& typed_step(s, 'w', lines, sel) == moves(ViMotion::SemanticRight, n)
            &&& typed_step(s, 'b', lines, sel) == moves(ViMotion::SemanticLeft, n)
            &&& typed_step(s, 'e', lines, sel) == moves(ViMotion::SemanticRightEnd, n)
            &&& typed_step(s, 'W', lines, sel) == moves(ViMotion::WordRight, n)
            &&& typed_step(s, 'B', lines, sel) == moves(ViMotion::WordLeft, n)
            &&& typed_step(s, 'E', lines, sel) == moves(ViMotion::WordRightEnd, n)
            &&& typed_step(s, '{', lines, sel) == moves(ViMotion::ParagraphUp, n)
            &&& typed_step(s, '}', lines, sel) == moves(ViMotion::ParagraphDown, n)
            &&& typed_step(s, '^', lines, sel) == moves(ViMotion::FirstOccupied, 1)
            &&& typed_step(s, '$', lines, sel) == moves(ViMotion::Last, 1)
            &&& typed_step(s, 'H', lines, sel) == moves(ViMotion::High, 1)
            &&& typed_step(s, 'M', lines, sel) == moves(ViMotion::Middle, 1)
            &&& typed_step(s, 'L', lines, sel) == moves(ViMotion::Low, 1)
            &&& typed_step(s, '%', lines, sel) == moves(ViMotion::Bracket, 1)
            &&& count is None ==> typed_step(s, '0', lines, sel) == moves(ViMotion::First, 1)
        }),
{
    lemma_typed_characters('h');
    lemma_typed_characters('j');
    lemma_typed_characters('k');
    lemma_typed_characters('l');
    lemma_typed_characters(' ');
    lemma_typed_characters('w');
    lemma_typed_characters('b');
    lemma_typed_characters('e');
    lemma_typed_characters('W');
    lemma_typed_characters('B');
    lemma_typed_characters('E');
    lemma_typed_characters('{');
    lemma_typed_characters('}');
    lemma_typed_characters('^');
    lemma_typed_characters('$');
    lemma_typed_characters('H');
    lemma_typed_characters('M');
    lemma_typed_characters('L');
    lemma_typed_characters('%');
    lemma_typed_characters('0');
}

/// A motion, after which nothing is counted or pending.
pub open spec fn moves(motion: ViMotion, times: usize) -> ViStep {
    ViStep {
        state: ViState { count: None, pending: None },
        action: ViAction::Move { motion, times },
    }
}

/// Digits add up to a count as they do to a number: typing the last digit of
/// a number after the others gives the number, up to the largest.
pub proof fn lemma_counting(n: nat, pending: Option<char>, lines: int, sel: Option<Selected>)
    requires
        0 < n <= MAX_COUNT,
    ensures
        ({
            let before = ViState {
                count: if n < 10 {
                    None
                } else {
                    Some((n / 10) as usize)
                },
                pending,
            };
            typed_step(before, (48 + n % 10) as char, lines, sel) == (ViStep {
                state: ViState { count: Some(n as usize), pending },
                action: ViAction::Redraw,
            })
        }),
{
    lemma_typed_characters((48 + n % 10) as char);
}

/// gg goes to the top and G to the bottom; yy copies the line, and y what is
/// selected, as Enter does.
pub proof fn lemma_two_key_sequences(s: ViState, lines: int, sel: Option<Selected>)
    requires
        s.pending is None,
    ensures
        ({
            let first = typed_step(s, 'g', lines, sel);
            &&& first.action == ViAction::Redraw
            &&& typed_step(first.state, 'g', lines, sel) == (ViStep {
                state: vi_clear(),
                action: ViAction::GotoTop,
            })
        }),
        typed_step(s, 'G', lines, sel).action == ViAction::GotoBottom,
        sel is None ==> ({
            let first = typed_step(s, 'y', lines, sel);
            &&& first.action == ViAction::Redraw
            &&& typed_step(first.state, 'y', lines, sel).action == ViAction::YankLine
        }),
        sel is Some && !(sel->0).empty ==> typed_step(s, 'y', lines, sel).action == ViAction::Copy,
        typed_step(s, '\r', lines, sel).action == ViAction::Copy,
{
    lemma_typed_characters('g');
    lemma_typed_characters('G');
    lemma_typed_characters('y');
    lemma_typed_characters('\r');
}

/// v selects by characters, V by lines, and control with v in a block.
pub proof fn lemma_selecting(s: ViState, lines: int, sel: Option<Selected>)
    ensures
        typed_step(s, 'v', lines, sel).action == ViAction::ToggleSelection(SelectionKind::Simple),
        typed_step(s, 'V', lines, sel).action == ViAction::ToggleSelection(SelectionKind::Lines),
        vi_control("v"@, lines) == ViAction::ToggleSelection(SelectionKind::Block),
{
    lemma_typed_characters('v');
    lemma_typed_characters('V');
    lemma_letters();
}

/// A slash searches forward and a question mark backward; n goes on the same
/// way and N the other.
pub proof fn lemma_searching(s: ViState, lines: int, sel: Option<Selected>)
    ensures
        typed_step(s, '/', lines, sel).action == (ViAction::OpenSearch { forward: true }),
        typed_step(s, '?', lines, sel).action == (ViAction::OpenSearch { forward: false }),
        typed_step(s, 'n', lines, sel).action == (ViAction::SearchAgain { reverse: false }),
        typed_step(s, 'N', lines, sel).action == (ViAction::SearchAgain { reverse: true }),
{
    lemma_typed_characters('/');
    lemma_typed_characters('?');
    lemma_typed_characters('n');
    lemma_typed_characters('N');
}

/// Escape drops a selection first and leaves copy mode where there is none;
/// q, i, a, and control with c or [ leave at once.
pub proof fn lemma_leaving(s: ViState, lines: int, sel: Option<Selected>)
    ensures
        typed_step(s, '\u{1b}', lines, sel).action == (if sel is Some {
            ViAction::DropSelection
        } else {
            ViAction::Exit
        }),
        typed_step(s, 'q', lines, sel).action == ViAction::Exit,
        typed_step(s, 'i', lines, sel).action == ViAction::Exit,
        typed_step(s, 'a', lines, sel).action == ViAction::Exit,
        vi_control("c"@, lines) == ViAction::Exit,
        vi_control("["@, lines) == ViAction::Exit,
{
    lemma_typed_characters('\u{1b}');
    lemma_typed_characters('q');
    lemma_typed_characters('i');
    lemma_typed_characters('a');
    lemma_letters();
}

proof fn lemma_letters()
    ensures
        "d"@ =~= seq!['d'] && "d"@[0] == 'd',
        "u"@ =~= seq!['u'] && "u"@[0] == 'u',
        "f"@ =~= seq!['f'] && "f"@[0] == 'f',
        "b"@ =~= seq!['b'] && "b"@[0] == 'b',
        "v"@ =~= seq!['v'] && "v"@[0] == 'v',
        "c"@ =~= seq!['c'] && "c"@[0] == 'c',
        "["@ =~= seq!['['] && "["@[0] == '[',
{
    reveal_strlit("d");
    reveal_strlit("u");
    reveal_strlit("f");
    reveal_strlit("b");
    reveal_strlit("v");
    reveal_strlit("c");
    reveal_strlit("[");
}

/// Control with d and u goes half a screen down and up, with f and b a whole
/// one: the screen scrolls and the cursor moves the same way by as many
/// lines.
pub proof fn lemma_paging(lines: int)
    requires
        2 <= lines <= i32::MAX,
    ensures
        vi_control("d"@, lines) == (ViAction::ScrollAndMove {
            lines: -(lines / 2) as i32,
            motion: ViMotion::Down,
            times: (lines / 2) as usize,
        }),
        vi_control("u"@, lines) == (ViAction::ScrollAndMove {
            lines: (lines / 2) as i32,
            motion: ViMotion::Up,
            times: (lines / 2) as usize,
        }),
        vi_control("f"@, lines) == (ViAction::ScrollAndMove {
            lines: -lines as i32,
            motion: ViMotion::Down,
            times: lines as usize,
        }),
        vi_control("b"@, lines) == (ViAction::ScrollAndMove {
            lines: lines as i32,
            motion: ViMotion::Up,
            times: lines as usize,
        }),
{
    lemma_letters();
}

/// Nothing held with cmd is a key of copy mode.
pub proof fn lemma_cmd_keys_pass(
    state: ViState,
    key: Seq<char>,
    m: Modifiers,
    typed: Option<Seq<char>>,
    lines: int,
    sel: Option<Selected>,
)
    requires
        m.platform || m.function,
    ensures
        vi_step(state, key, m, typed, lines, sel) == (ViStep { state, action: ViAction::Ignore }),
{
}

/// Copy mode opens in a live shell outside a full-screen program, and nowhere
/// else.
pub proof fn lemma_when_copy_mode_opens(exited: bool, has_session: bool, alt_screen: bool)
    ensures
        refusal(exited, has_session, alt_screen) is None <==> !exited && has_session && !alt_screen,
{
}

/// The mode is named after what is selected: nothing, characters, lines or a
/// block.
pub proof fn lemma_modes(s: Selected, r: ViModeKind)
    ensures
        call_ensures(vi_mode, (None,), r) ==> r is Normal,
        s.empty && call_ensures(vi_mode, (Some(s),), r) ==> r is Normal,
        !s.empty && s.kind is Simple && call_ensures(vi_mode, (Some(s),), r) ==> r is Visual,
        !s.empty && s.kind is Semantic && call_ensures(vi_mode, (Some(s),), r) ==> r is Visual,
        !s.empty && s.kind is Lines && call_ensures(vi_mode, (Some(s),), r) ==> r is VisualLine,
        !s.empty && s.kind is Block && call_ensures(vi_mode, (Some(s),), r) ==> r is VisualBlock,
{
}

/// Asking again for the kind that is selected ends the selection; any other
/// kind takes its place.
pub proof fn lemma_toggling_selections(s: Selected, kind: SelectionKind, r: Option<SelectionKind>)
    ensures
        call_ensures(toggle_selection, (None, kind), r) ==> r == Some(kind),
        !s.empty && s.kind == kind && call_ensures(toggle_selection, (Some(s), kind), r) ==> r
            is None,
        s.kind != kind && call_ensures(toggle_selection, (Some(s), kind), r) ==> r == Some(kind),
        s.empty && call_ensures(toggle_selection, (Some(s), kind), r) ==> r == Some(kind),
{
}

} // verus!
