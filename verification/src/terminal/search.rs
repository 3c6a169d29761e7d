//! The scrollback search: the pattern, the search bar's keys, and where to
//! look and scroll. The terminal finds the matches.
use vstd::prelude::*;

use crate::keymap::keystroke::{Keystroke, Modifiers};
use crate::terminal::grid::GridPoint;
use crate::text::{chars_of, same, slice_of, string_of};

verus! {

/// The search bar's toggles. Kept on the pane so they survive closing and
/// reopening the bar.
#[derive(Debug, Clone, Copy, PartialEq, Eq, Structural)]
pub struct SearchOptions {
    pub regex: bool,
    pub case_sensitive: bool,
    pub whole_word: bool,
}

impl Default for SearchOptions {
    fn default() -> (r: Self)
        ensures
            r == (SearchOptions { regex: false, case_sensitive: false, whole_word: false }),
    {
        SearchOptions { regex: false, case_sensitive: false, whole_word: false }
    }
}

/// Whether a character means something in a pattern.
pub open spec fn special(c: char) -> bool {
    c == '\\' || c == '.' || c == '+' || c == '*' || c == '?' || c == '(' || c == ')' || c == '['
        || c == ']' || c == '{' || c == '}' || c == '|' || c == '^' || c == '$'
}

/// A literal text as a pattern.
pub open spec fn escaped(s: Seq<char>) -> Seq<char>
    decreases s.len(),
{
    if s.len() == 0 {
        Seq::empty()
    } else if special(s.last()) {
        escaped(s.drop_last()) + seq!['\\', s.last()]
    } else {
        escaped(s.drop_last()).push(s.last())
    }
}

/// Escape a literal string for use as a regex pattern.
pub fn regex_escape(s: &str) -> (r: String)
    ensures
        r@ == escaped(s@),
{
    let v = chars_of(s);
    let mut out: Vec<char> = Vec::new();
    let mut i: usize = 0;
    assert(v@.take(0) =~= Seq::empty());
    assert(out@ =~= Seq::empty());
    while i < v.len()
        invariant
            i <= v.len(),
            v@ == s@,
            out@ == escaped(v@.take(i as int)),
        decreases v.len() - i,
    {
        let c = v[i];
        let ghost before = out@;
        assert(v@.take(i + 1).drop_last() =~= v@.take(i as int));
        assert(v@.take(i + 1).last() == c);
        if matches!(c, '\\' | '.' | '+' | '*' | '?' | '(' | ')' | '[' | ']' | '{' | '}' | '|' | '^' | '$') {
            out.push('\\');
            out.push(c);
            assert(out@ =~= before + seq!['\\', c]);
        } else {
            out.push(c);
        }
        i += 1;
    }
    assert(v@.take(i as int) =~= v@);
    string_of(&out)
}

/// The text that a pattern of plain and escaped characters matches, or
/// `None` where something in it is more than a character.
pub open spec fn literal(p: Seq<char>) -> Option<Seq<char>>
    decreases p.len(),
{
    if p.len() == 0 {
        Some(Seq::empty())
    } else if p[0] == '\\' && p.len() >= 2 && special(p[1]) {
        match literal(p.skip(2)) {
            None => None,
            Some(t) => Some(seq![p[1]] + t),
        }
    } else if special(p[0]) {
        None
    } else {
        match literal(p.skip(1)) {
            None => None,
            Some(t) => Some(seq![p[0]] + t),
        }
    }
}

proof fn lemma_escaped_front(s: Seq<char>)
    requires
        s.len() > 0,
    ensures
        escaped(s) == (if special(s[0]) {
            seq!['\\', s[0]]
        } else {
            seq![s[0]]
        }) + escaped(s.skip(1)),
    decreases s.len(),
{
    if s.len() == 1 {
        assert(s.drop_last() =~= Seq::empty());
        assert(s.skip(1) =~= Seq::empty());
        assert(escaped(s) =~= (if special(s[0]) {
            seq!['\\', s[0]]
        } else {
            seq![s[0]]
        }) + escaped(s.skip(1)));
    } else {
        lemma_escaped_front(s.drop_last());
        assert(s.drop_last().skip(1) =~= s.skip(1).drop_last());
        assert(s.skip(1).last() == s.last());
        assert(escaped(s) =~= (if special(s[0]) {
            seq!['\\', s[0]]
        } else {
            seq![s[0]]
        }) + escaped(s.skip(1)));
    }
}

/// An escaped text matches that text, letter for letter.
pub proof fn lemma_escaped_is_literal(s: Seq<char>)
    ensures
        literal(escaped(s)) == Some(s),
    decreases s.len(),
{
    if s.len() == 0 {
        assert(s =~= Seq::empty());
    } else {
        let t = s.skip(1);
        lemma_escaped_front(s);
        lemma_escaped_is_literal(t);
        assert(s =~= seq![s[0]] + t);
        if special(s[0]) {
            assert(escaped(s).skip(2) =~= escaped(t));
        } else {
            assert(escaped(s).skip(1) =~= escaped(t));
        }
    }
}

/// The pattern that a query stands for.
pub open spec fn pattern_of(o: SearchOptions, query: Seq<char>) -> Seq<char> {
    let body = if o.regex {
        query
    } else {
        escaped(query)
    };
    let bounded = if o.whole_word {
        "(?-u:\\b)(?:"@ + body + ")(?-u:\\b)"@
    } else {
        body
    };
    (if o.case_sensitive {
        "(?-i)"@
    } else {
        "(?i)"@
    }) + bounded
}

impl SearchOptions {
    /// The pattern handed to the regex engine. Inline flags rather than the
    /// engine's smart-case default, so the toggle means what it says. The
    /// word boundary is the ASCII one: alacritty's lazy DFA can't do the
    /// Unicode-aware `\b`.
    pub fn pattern(&self, query: &str) -> (r: String)
        ensures
            r@ == pattern_of(*self, query@),
    {
        let body = if self.regex {
            query.to_owned()
        } else {
            regex_escape(query)
        };
        let bounded = if self.whole_word {
            let mut out = "(?-u:\\b)(?:".to_owned();
            out.push_str(body.as_str());
            out.push_str(")(?-u:\\b)");
            out
        } else {
            body
        };
        let mut out = if self.case_sensitive {
            "(?-i)".to_owned()
        } else {
            "(?i)".to_owned()
        };
        out.push_str(bounded.as_str());
        out
    }

    /// Flip a toggle by clicking its chip in the search bar: the first is
    /// regex, the second case, any other whole words.
    pub fn toggle(&mut self, which: u8)
        ensures
            *final(self) == (if which == 0 {
                SearchOptions { regex: !old(self).regex, ..*old(self) }
            } else if which == 1 {
                SearchOptions { case_sensitive: !old(self).case_sensitive, ..*old(self) }
            } else {
                SearchOptions { whole_word: !old(self).whole_word, ..*old(self) }
            }),
    {
        if which == 0 {
            self.regex = !self.regex;
        } else if which == 1 {
            self.case_sensitive = !self.case_sensitive;
        } else {
            self.whole_word = !self.whole_word;
        }
    }
}

/// Whether `RegexSearch::new` of alacritty_terminal takes a pattern. Nothing
/// is said of which patterns it takes: beside the syntax, a size limit that
/// is measured in memory decides.
#[verifier::external_body]
fn compiles(pattern: &str) -> (r: bool) {
    alacritty_terminal::term::search::RegexSearch::new(pattern).is_ok()
}

/// Which way a search goes.
#[derive(Debug, Clone, Copy, PartialEq, Eq, Structural)]
pub enum Direction {
    /// Toward older lines.
    Left,
    /// Toward newer lines.
    Right,
}

impl Direction {
    /// The other way.
    pub open spec fn other(self) -> Direction {
        match self {
            Direction::Left => Direction::Right,
            Direction::Right => Direction::Left,
        }
    }

    pub fn opposite(self) -> (r: Direction)
        ensures
            r == self.other(),
    {
        match self {
            Direction::Left => Direction::Right,
            Direction::Right => Direction::Left,
        }
    }
}

/// The size of a grid: its lines run from `topmost`, which is negative where
/// there is scrollback, to `bottommost`.
#[derive(Debug, Clone, Copy, PartialEq, Eq, Structural)]
pub struct GridSize {
    pub topmost: i32,
    pub bottommost: i32,
    pub last_column: usize,
}

/// A point within a grid: a line beyond it means its first or last cell.
pub open spec fn clamped(line: int, column: int, size: GridSize) -> GridPoint {
    if line < size.topmost {
        GridPoint { line: size.topmost, column: 0 }
    } else if line > size.bottommost {
        GridPoint { line: size.bottommost, column: size.last_column }
    } else {
        GridPoint {
            line: line as i32,
            column: if column < size.last_column {
                column as usize
            } else {
                size.last_column
            },
        }
    }
}

/// Whether a point is the grid's first or last cell, as seen in a direction.
pub open spec fn at_edge(p: GridPoint, direction: Direction, size: GridSize) -> bool {
    match direction {
        Direction::Left => p.column == 0 && p.line == size.topmost,
        Direction::Right => p.column == size.last_column && p.line == size.bottommost,
    }
}

/// One cell past a point.
pub open spec fn stepped(p: GridPoint, direction: Direction, size: GridSize) -> GridPoint {
    match direction {
        Direction::Left => if p.column > 0 {
            clamped(p.line as int, p.column - 1, size)
        } else {
            clamped(p.line - 1, size.last_column as int, size)
        },
        Direction::Right => if p.column < size.last_column {
            clamped(p.line as int, p.column + 1, size)
        } else {
            clamped(p.line + 1, 0, size)
        },
    }
}

fn clamp(line: i64, column: usize, size: &GridSize) -> (r: GridPoint)
    ensures
        r == clamped(line as int, column as int, *size),
{
    if line < size.topmost as i64 {
        GridPoint { line: size.topmost, column: 0 }
    } else if line > size.bottommost as i64 {
        GridPoint { line: size.bottommost, column: size.last_column }
    } else {
        GridPoint {
            line: line as i32,
            column: if column < size.last_column {
                column
            } else {
                size.last_column
            },
        }
    }
}

/// One cell past `p` in `direction`, wrapping at line ends and clamped to
/// the grid: the origin for "the next match after this one".
pub fn step_point(p: GridPoint, direction: Direction, size: &GridSize) -> (r: GridPoint)
    ensures
        r == stepped(p, direction, *size),
{
    match direction {
        Direction::Left => if p.column > 0 {
            clamp(p.line as i64, p.column - 1, size)
        } else {
            clamp(p.line as i64 - 1, size.last_column, size)
        },
        Direction::Right => if p.column < size.last_column {
            clamp(p.line as i64, p.column + 1, size)
        } else {
            clamp(p.line as i64 + 1, 0, size)
        },
    }
}

/// Whether a point lies within a grid.
pub open spec fn on_grid(p: GridPoint, size: GridSize) -> bool {
    size.topmost <= p.line <= size.bottommost && p.column <= size.last_column
}

/// A step stays on the grid, and a step back undoes it; only off the first or
/// last cell a step goes nowhere.
pub proof fn lemma_step_back(p: GridPoint, direction: Direction, size: GridSize)
    requires
        on_grid(p, size),
    ensures
        on_grid(stepped(p, direction, size), size),
        !at_edge(p, direction, size) ==> stepped(
            stepped(p, direction, size),
            direction.other(),
            size,
        ) == p,
        at_edge(p, direction, size) ==> stepped(p, direction, size) == p,
{
}

/// A match: its first and its last cell.
#[derive(Debug, Clone, Copy, PartialEq, Eq, Structural)]
pub struct Match {
    pub start: GridPoint,
    pub end: GridPoint,
}

/// The search bar.
#[derive(Debug, Clone)]
pub struct SearchState {
    pub query: String,
    pub current: Option<Match>,
    /// The query isn't a valid regex (only possible with the regex toggle).
    pub invalid: bool,
    /// Opened from copy mode with `/` (forward) or `?` (backward): enter
    /// moves the vi cursor to the match instead of walking older ones.
    pub vi_direction: Option<Direction>,
}

/// The search bar, as plain values.
pub ghost struct Bar {
    pub query: Seq<char>,
    pub current: Option<Match>,
    pub invalid: bool,
    pub vi_direction: Option<Direction>,
}

impl View for SearchState {
    type V = Bar;

    open spec fn view(&self) -> Bar {
        Bar {
            query: self.query@,
            current: self.current,
            invalid: self.invalid,
            vi_direction: self.vi_direction,
        }
    }
}

/// What a key in the search bar asks for.
#[derive(Debug, Clone, Copy, PartialEq, Eq, Structural)]
pub enum SearchAction {
    /// Nothing.
    Ignore,
    /// Close the bar.
    Close,
    /// Put the vi cursor on the match and close the bar.
    Accept,
    /// Look for a match, past the current one if `from_current`.
    Run { direction: Direction, from_current: bool },
}

/// What is left after a key: the bar, and what to do.
pub ghost struct BarStep {
    pub bar: Bar,
    pub action: SearchAction,
}

/// The direction a bar searches in as its query is typed.
pub open spec fn typing_direction(bar: Bar) -> Direction {
    match bar.vi_direction {
        None => Direction::Left,
        Some(d) => d,
    }
}

/// What a key does in the search bar.
pub open spec fn bar_step(bar: Bar, key: Seq<char>, m: Modifiers, typed: Option<Seq<char>>) -> BarStep {
    let search = SearchAction::Run { direction: typing_direction(bar), from_current: false };
    if key == "escape"@ {
        BarStep { bar, action: SearchAction::Close }
    } else if key == "enter"@ {
        if bar.vi_direction is Some {
            // From copy mode: accept. The vi cursor lands on the match and
            // n / N take it from there.
            BarStep { bar, action: SearchAction::Accept }
        } else {
            // enter walks older matches; shift-enter walks newer.
            BarStep {
                bar,
                action: SearchAction::Run {
                    direction: if m.shift {
                        Direction::Right
                    } else {
                        Direction::Left
                    },
                    from_current: true,
                },
            }
        }
    } else if key == "backspace"@ {
        if bar.query.len() == 0 {
            BarStep { bar, action: SearchAction::Close }
        } else {
            BarStep { bar: Bar { query: bar.query.drop_last(), current: None, ..bar }, action: search }
        }
    } else if m.platform || m.control || typed is None {
        BarStep { bar, action: SearchAction::Ignore }
    } else {
        BarStep { bar: Bar { query: bar.query + typed->0, current: None, ..bar }, action: search }
    }
}

impl SearchState {
    /// An empty bar.
    pub fn open(vi_direction: Option<Direction>) -> (r: Self)
        ensures
            r@ == (Bar { query: Seq::empty(), current: None, invalid: false, vi_direction }),
    {
        let r = SearchState { query: String::new(), current: None, invalid: false, vi_direction };
        assert(r.query@ =~= Seq::empty());
        r
    }

    /// A key in the search bar.
    pub fn handle_search_key(&mut self, ks: &Keystroke) -> (r: SearchAction)
        ensures
            bar_step(
                old(self)@,
                ks.key@,
                ks.modifiers,
                match ks.key_char {
                    None => None,
                    Some(t) => Some(t@),
                },
            ) == (BarStep { bar: final(self)@, action: r }),
    {
        let key = ks.key.as_str();
        let direction = match self.vi_direction {
            None => Direction::Left,
            Some(d) => d,
        };
        if same(key, "escape") {
            return SearchAction::Close;
        }
        if same(key, "enter") {
            if self.vi_direction.is_some() {
                return SearchAction::Accept;
            }
            return SearchAction::Run {
                direction: if ks.modifiers.shift {
                    Direction::Right
                } else {
                    Direction::Left
                },
                from_current: true,
            };
        }
        if same(key, "backspace") {
            let chars = chars_of(self.query.as_str());
            if chars.len() == 0 {
                return SearchAction::Close;
            }
            let rest = slice_of(&chars, 0, chars.len() - 1);
            assert(rest@ =~= chars@.drop_last());
            self.query = string_of(&rest);
            self.current = None;
            return SearchAction::Run { direction, from_current: false };
        }
        if ks.modifiers.platform || ks.modifiers.control {
            return SearchAction::Ignore;
        }
        match &ks.key_char {
            None => SearchAction::Ignore,
            Some(t) => {
                self.query.push_str(t.as_str());
                self.current = None;
                SearchAction::Run { direction, from_current: false }
            },
        }
    }

    /// A toggle changed: search again from scratch with the same query.
    pub fn rerun(&mut self) -> (r: SearchAction)
        ensures
            final(self)@ == (Bar { current: None, ..old(self)@ }),
            r == (SearchAction::Run { direction: typing_direction(old(self)@), from_current: false }),
    {
        self.current = None;
        let direction = match self.vi_direction {
            None => Direction::Left,
            Some(d) => d,
        };
        SearchAction::Run { direction, from_current: false }
    }
}

/// What to do for a search.
#[derive(Debug)]
pub enum SearchPlan {
    /// Drop the selection: there is nothing to look for, or no way to.
    Clear,
    /// Look for a pattern from a point on.
    Find { pattern: String, origin: GridPoint },
}

/// A plan, as plain values.
pub ghost enum Planned {
    Clear,
    Find { pattern: Seq<char>, origin: GridPoint },
}

impl View for SearchPlan {
    type V = Planned;

    open spec fn view(&self) -> Planned {
        match self {
            SearchPlan::Clear => Planned::Clear,
            SearchPlan::Find { pattern, origin } => Planned::Find {
                pattern: pattern@,
                origin: *origin,
            },
        }
    }
}

/// What is left after a search is begun: the bar, and what to do.
pub ghost struct Begun {
    pub bar: Bar,
    pub plan: Planned,
}

/// Where a search starts: past the current match where it goes on from
/// there. Else copy mode searches from the vi cursor; the bar searches from
/// the bottom of the screen, i.e. "the nearest one behind me".
pub open spec fn origin_of(
    bar: Bar,
    direction: Direction,
    from_current: bool,
    size: GridSize,
    vi_cursor: GridPoint,
    bottom: GridPoint,
) -> GridPoint {
    if bar.current is Some && from_current {
        let m = bar.current->0;
        stepped(
            if direction == Direction::Left {
                m.start
            } else {
                m.end
            },
            direction,
            size,
        )
    } else if bar.vi_direction is Some {
        vi_cursor
    } else {
        bottom
    }
}

/// How a search begins, `valid` being whether its pattern can be looked for.
pub open spec fn begun(
    bar: Bar,
    options: SearchOptions,
    valid: bool,
    direction: Direction,
    from_current: bool,
    size: GridSize,
    vi_cursor: GridPoint,
    bottom: GridPoint,
) -> Begun {
    if bar.query.len() == 0 {
        Begun { bar: Bar { current: None, invalid: false, ..bar }, plan: Planned::Clear }
    } else if !valid {
        // A half-typed regex like `foo(`: say so rather than silently
        // matching nothing.
        Begun { bar: Bar { current: None, invalid: true, ..bar }, plan: Planned::Clear }
    } else {
        Begun {
            bar: Bar { invalid: false, ..bar },
            plan: Planned::Find {
                pattern: pattern_of(options, bar.query),
                origin: origin_of(bar, direction, from_current, size, vi_cursor, bottom),
            },
        }
    }
}

/// Where a search looks: the grid's size, the vi cursor, and the last cell
/// of the screen.
#[derive(Debug, Clone, Copy)]
pub struct SearchGround {
    pub size: GridSize,
    pub vi_cursor: GridPoint,
    pub bottom: GridPoint,
}

impl SearchState {
    /// Begin a search, once it is known whether its pattern is valid.
    pub fn begin(
        &mut self,
        options: &SearchOptions,
        valid: bool,
        direction: Direction,
        from_current: bool,
        ground: &SearchGround,
    ) -> (r: SearchPlan)
        ensures
            begun(
                old(self)@,
                *options,
                valid,
                direction,
                from_current,
                ground.size,
                ground.vi_cursor,
                ground.bottom,
            ) == (Begun { bar: final(self)@, plan: r@ }),
    {
        if chars_of(self.query.as_str()).len() == 0 {
            self.current = None;
            self.invalid = false;
            return SearchPlan::Clear;
        }
        if !valid {
            self.current = None;
            self.invalid = true;
            return SearchPlan::Clear;
        }
        self.invalid = false;
        let mut origin = if self.vi_direction.is_some() {
            ground.vi_cursor
        } else {
            ground.bottom
        };
        if from_current {
            if let Some(m) = self.current {
                // Step one cell past the current match so we advance.
                let p = if direction == Direction::Left {
                    m.start
                } else {
                    m.end
                };
                origin = step_point(p, direction, &ground.size);
            }
        }
        SearchPlan::Find { pattern: options.pattern(self.query.as_str()), origin }
    }

    /// Run a search: try the pattern, and say where to look.
    pub fn run_search(
        &mut self,
        options: &SearchOptions,
        direction: Direction,
        from_current: bool,
        ground: &SearchGround,
    ) -> (r: SearchPlan)
        ensures
            exists|valid: bool|
                #[trigger] begun(
                    old(self)@,
                    *options,
                    valid,
                    direction,
                    from_current,
                    ground.size,
                    ground.vi_cursor,
                    ground.bottom,
                ) == (Begun { bar: final(self)@, plan: r@ }),
    {
        let valid = compiles(options.pattern(self.query.as_str()).as_str());
        self.begin(options, valid, direction, from_current, ground)
    }

    /// The search came back.
    pub fn found(&mut self, current: Option<Match>)
        ensures
            final(self)@ == (Bar { current, ..old(self)@ }),
    {
        self.current = current;
    }

    /// Enter in a copy-mode search: where to park the vi cursor, and the
    /// pattern and direction to remember for `n` / `N`.
    pub fn accept(&self, options: &SearchOptions) -> (r: (Option<GridPoint>, Option<(String, Direction)>))
        ensures
            r.0 == (match (self.vi_direction, self.current) {
                (Some(_), Some(m)) => Some(m.start),
                _ => None,
            }),
            match r.1 {
                None => self.vi_direction is None || self.query@.len() == 0 || self.invalid,
                Some((p, d)) => self.vi_direction == Some(d) && self.query@.len() > 0
                    && !self.invalid && p@ == pattern_of(*options, self.query@),
            },
    {
        match self.vi_direction {
            None => (None, None),
            Some(direction) => {
                let point = match self.current {
                    None => None,
                    Some(m) => Some(m.start),
                };
                let remembered = if chars_of(self.query.as_str()).len() > 0 && !self.invalid {
                    Some((options.pattern(self.query.as_str()), direction))
                } else {
                    None
                };
                (point, remembered)
            },
        }
    }

    /// What the bar says beside the query.
    pub fn hint(&self) -> (r: &'static str)
        ensures
            r@ == (if self.invalid {
                "invalid pattern"@
            } else if self.current is Some && self.vi_direction is Some {
                "⏎ go  esc"@
            } else if self.current is Some {
                "⏎ older  ⇧⏎ newer  esc"@
            } else if self.query@.len() == 0 {
                "type to search"@
            } else {
                "no match"@
            }),
    {
        if self.invalid {
            "invalid pattern"
        } else if self.current.is_some() && self.vi_direction.is_some() {
            "⏎ go  esc"
        } else if self.current.is_some() {
            "⏎ older  ⇧⏎ newer  esc"
        } else if chars_of(self.query.as_str()).len() == 0 {
            "type to search"
        } else {
            "no match"
        }
    }

    /// Whether the bar is drawn as one that finds something.
    pub fn is_ok(&self) -> (r: bool)
        ensures
            r == ((self.current is Some || self.query@.len() == 0) && !self.invalid),
    {
        (self.current.is_some() || chars_of(self.query.as_str()).len() == 0) && !self.invalid
    }

    /// The query behind the character that opened the bar.
    pub fn shown_query(&self) -> (r: String)
        ensures
            r@ == (if self.vi_direction == Some(Direction::Left) {
                "?"@
            } else {
                "/"@
            }) + self.query@,
    {
        let backward = match self.vi_direction {
            Some(d) => d == Direction::Left,
            None => false,
        };
        let mut out = if backward {
            "?".to_owned()
        } else {
            "/".to_owned()
        };
        out.push_str(self.query.as_str());
        out
    }
}

/// Where `n` / `N` search again from: one cell past the vi cursor.
pub fn search_again(
    last: Direction,
    reverse: bool,
    vi_cursor: GridPoint,
    size: &GridSize,
) -> (r: (GridPoint, Direction))
    ensures
        r.1 == (if reverse {
            last.other()
        } else {
            last
        }),
        r.0 == stepped(vi_cursor, r.1, *size),
{
    let direction = if reverse {
        last.opposite()
    } else {
        last
    };
    (step_point(vi_cursor, direction, size), direction)
}

/// How far to scroll, upward if positive, so that a line lies in the middle
/// of the screen, or `None` where it is on the screen already. The screen
/// shows `screen_lines` lines, `offset` lines up from the bottom of
/// `history` lines of scrollback.
pub open spec fn centering(line: int, screen_lines: int, offset: int, history: int) -> Option<int> {
    if line < -offset || line >= screen_lines - offset {
        let target = -line + screen_lines / 2;
        Some(
            (if target < 0 {
                0
            } else if target > history {
                history
            } else {
                target
            }) - offset,
        )
    } else {
        None
    }
}

/// How far to scroll a match into the middle of the viewport, if it isn't on
/// screen.
pub fn scroll_to_match(line: i32, screen_lines: usize, offset: usize, history: usize) -> (r: Option<
    i32,
>)
    requires
        screen_lines <= 0x3fff_ffff,
        offset <= history <= 0x3fff_ffff,
    ensures
        match r {
            None => centering(line as int, screen_lines as int, offset as int, history as int) is None,
            Some(d) => centering(line as int, screen_lines as int, offset as int, history as int)
                == Some(d as int),
        },
{
    let line: i64 = line as i64;
    let lines: i64 = screen_lines as i64;
    let offset: i64 = offset as i64;
    let history: i64 = history as i64;
    if line < -offset || line >= lines - offset {
        let target: i64 = -line + lines / 2;
        let clamped: i64 = if target < 0 {
            0
        } else if target > history {
            history
        } else {
            target
        };
        Some((clamped - offset) as i32)
    } else {
        None
    }
}

/// Once scrolled to, a match in the scrollback or on the screen is shown.
pub proof fn lemma_match_shown(line: int, screen_lines: int, offset: int, history: int)
    requires
        -history <= line < screen_lines,
        0 <= offset <= history,
        screen_lines > 0,
    ensures
        ({
            let d = match centering(line, screen_lines, offset, history) {
                None => 0,
                Some(d) => d,
            };
            let shown = offset + d;
            0 <= shown <= history && -shown <= line < screen_lines - shown
        }),
{
}

// --- What searching is for ---

/// The characters that mean something in a pattern.
pub proof fn lemma_special_characters(c: char)
    ensures
        special(c) <==> "\\.+*?()[]{}|^$"@.contains(c),
{
    reveal_strlit("\\.+*?()[]{}|^$");
    let s = "\\.+*?()[]{}|^$"@;
    assert(s[0] == '\\' && s[1] == '.' && s[2] == '+' && s[3] == '*' && s[4] == '?' && s[5] == '('
        && s[6] == ')' && s[7] == '[' && s[8] == ']' && s[9] == '{' && s[10] == '}' && s[11] == '|'
        && s[12] == '^' && s[13] == '$');
}

/// Without the regex toggle the query is searched for as it is written: the
/// pattern is the flag for the case and a pattern for that literal alone. With
/// it the query is the pattern. Whole words stand between word boundaries.
pub proof fn lemma_patterns(o: SearchOptions, query: Seq<char>)
    ensures
        ({
            let flag = if o.case_sensitive {
                "(?-i)"@
            } else {
                "(?i)"@
            };
            &&& o.regex && !o.whole_word ==> pattern_of(o, query) == flag + query
            &&& !o.regex && !o.whole_word ==> pattern_of(o, query) == flag + pattern_of(o, query).skip(
                flag.len() as int,
            ) && literal(pattern_of(o, query).skip(flag.len() as int)) == Some(query)
            &&& o.whole_word ==> pattern_of(o, query) == flag + ("(?-u:\\b)(?:"@ + pattern_of(
                SearchOptions { whole_word: false, ..o },
                query,
            ).skip(flag.len() as int) + ")(?-u:\\b)"@)
        }),
{
    lemma_escaped_is_literal(query);
    let flag = if o.case_sensitive {
        "(?-i)"@
    } else {
        "(?i)"@
    };
    let body = if o.regex {
        query
    } else {
        escaped(query)
    };
    assert((flag + body).skip(flag.len() as int) =~= body);
}

/// The next cell to the right is the next column, and from a line's last one
/// the first of the line below; to the left it is the other way round.
pub proof fn lemma_steps(p: GridPoint, size: GridSize)
    requires
        on_grid(p, size),
    ensures
        p.column < size.last_column ==> stepped(p, Direction::Right, size) == (GridPoint {
            line: p.line,
            column: (p.column + 1) as usize,
        }),
        p.column == size.last_column && p.line < size.bottommost ==> stepped(
            p,
            Direction::Right,
            size,
        ) == (GridPoint { line: (p.line + 1) as i32, column: 0 }),
        p.column > 0 ==> stepped(p, Direction::Left, size) == (GridPoint {
            line: p.line,
            column: (p.column - 1) as usize,
        }),
        p.column == 0 && p.line > size.topmost ==> stepped(p, Direction::Left, size) == (
        GridPoint { line: (p.line - 1) as i32, column: size.last_column }),
        Direction::Left.other() == Direction::Right,
        Direction::Right.other() == Direction::Left,
{
}

/// Escape closes the bar, whatever is in it.
pub proof fn lemma_escape_closes(bar: Bar, m: Modifiers, typed: Option<Seq<char>>)
    ensures
        bar_step(bar, "escape"@, m, typed) == (BarStep { bar, action: SearchAction::Close }),
{
}

/// Enter goes to the next older match and, with shift, to the next newer one,
/// past the current one; in copy mode it accepts. The query stays.
pub proof fn lemma_enter_walks(bar: Bar, m: Modifiers, typed: Option<Seq<char>>)
    ensures
        bar_step(bar, "enter"@, m, typed).bar == bar,
        bar.vi_direction is None && !m.shift ==> bar_step(bar, "enter"@, m, typed).action == (
        SearchAction::Run { direction: Direction::Left, from_current: true }),
        bar.vi_direction is None && m.shift ==> bar_step(bar, "enter"@, m, typed).action == (
        SearchAction::Run { direction: Direction::Right, from_current: true }),
        bar.vi_direction is Some ==> bar_step(bar, "enter"@, m, typed).action
            == SearchAction::Accept,
{
    reveal_strlit("enter");
    reveal_strlit("escape");
    assert("enter"@.len() == 5 && "escape"@.len() == 6);
}

/// What is typed goes to the end of the query, and backspace takes the last
/// character back; either searches anew, backward or the way copy mode
/// asked for.
pub proof fn lemma_typing_and_taking_back(bar: Bar, c: char, m: Modifiers)
    requires
        !m.platform && !m.control,
    ensures
        ({
            let way = match bar.vi_direction {
                None => Direction::Left,
                Some(d) => d,
            };
            let again = SearchAction::Run { direction: way, from_current: false };
            let typed = bar_step(bar, seq![c], m, Some(seq![c]));
            let back = bar_step(typed.bar, "backspace"@, m, None);
            &&& typed.bar.query == bar.query + seq![c]
            &&& typed.action == again
            &&& typed.bar.current is None
            &&& back.bar.query == bar.query
            &&& back.action == again
            &&& back.bar.vi_direction == bar.vi_direction
        }),
        bar.query.len() == 0 ==> bar_step(bar, "backspace"@, m, None).action == SearchAction::Close,
{
    reveal_strlit("enter");
    reveal_strlit("escape");
    reveal_strlit("backspace");
    assert("enter"@.len() == 5 && "escape"@.len() == 6 && "backspace"@.len() == 9);
    assert(seq![c].len() == 1);
    assert((bar.query + seq![c]).drop_last() =~= bar.query);
}

/// A search goes on past the current match in its direction; a new one starts
/// at the cursor in copy mode and else at the bottom of the screen.
pub proof fn lemma_where_a_search_starts(
    bar: Bar,
    m: Match,
    direction: Direction,
    size: GridSize,
    vi_cursor: GridPoint,
    bottom: GridPoint,
)
    requires
        bar.current == Some(m),
    ensures
        origin_of(bar, Direction::Left, true, size, vi_cursor, bottom) == stepped(
            m.start,
            Direction::Left,
            size,
        ),
        origin_of(bar, Direction::Right, true, size, vi_cursor, bottom) == stepped(
            m.end,
            Direction::Right,
            size,
        ),
        origin_of(bar, direction, false, size, vi_cursor, bottom) == (if bar.vi_direction is Some {
            vi_cursor
        } else {
            bottom
        }),
{
}

/// A search with a query that can be read looks for that query; an empty one
/// or one that cannot be read looks for nothing, and only the latter is
/// called invalid. The query stays.
pub proof fn lemma_when_a_search_runs(
    bar: Bar,
    o: SearchOptions,
    valid: bool,
    direction: Direction,
    from_current: bool,
    ground: SearchGround,
)
    ensures
        ({
            let b = begun(
                bar,
                o,
                valid,
                direction,
                from_current,
                ground.size,
                ground.vi_cursor,
                ground.bottom,
            );
            &&& b.bar.query == bar.query
            &&& b.bar.vi_direction == bar.vi_direction
            &&& b.bar.invalid <==> bar.query.len() > 0 && !valid
            &&& b.plan is Find <==> bar.query.len() > 0 && valid
            &&& b.plan matches Planned::Find { pattern, origin } ==> pattern == pattern_of(
                o,
                bar.query,
            )
            &&& !(b.plan is Find) ==> b.bar.current is None
        }),
{
}

/// Searching on goes the way of the last search, and the other way where that
/// is asked for.
pub proof fn lemma_searching_again(
    vi_cursor: GridPoint,
    size: GridSize,
    r: (GridPoint, Direction),
)
    ensures
        call_ensures(search_again, (Direction::Left, false, vi_cursor, &size), r) ==> r.1 is Left,
        call_ensures(search_again, (Direction::Right, false, vi_cursor, &size), r) ==> r.1
            is Right,
        call_ensures(search_again, (Direction::Left, true, vi_cursor, &size), r) ==> r.1 is Right,
        call_ensures(search_again, (Direction::Right, true, vi_cursor, &size), r) ==> r.1 is Left,
{
}

} // verus!
