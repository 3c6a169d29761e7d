//! Command palette matching: a small fuzzy scorer over the action registry.
use vstd::prelude::*;

use crate::keymap::registry::{rows, ActionMeta, Row};
use crate::text::{
    ascii_lower, char_alphanumeric, char_lower, chars_of, is_alphanumeric, is_ascii_char,
    is_whitespace, lower_chars, same, str_views, to_ascii_lower, trim, trimmed, whitespace,
};

verus! {

/// One row in the palette's filtered list.
#[derive(Debug, Clone, PartialEq)]
pub struct PaletteItem {
    pub action_id: &'static str,
    pub title: &'static str,
    pub category: &'static str,
    /// Char positions in `title` that matched, for highlight rendering.
    pub highlights: Vec<usize>,
    /// Keystrokes to show, already pretty-printed.
    pub binding: Option<String>,
    pub score: i32,
}

#[derive(Debug, Clone, PartialEq)]
pub struct Match {
    pub score: i32,
    pub positions: Vec<usize>,
}

/// A match's worth and its positions.
pub struct Placing {
    pub score: int,
    pub positions: Seq<usize>,
}

impl View for Match {
    type V = Placing;

    open spec fn view(&self) -> Placing {
        Placing { score: self.score as int, positions: self.positions@ }
    }
}

/// What a match, if there is one, amounts to.
pub open spec fn placing(m: Option<Match>) -> Option<Placing> {
    match m {
        None => None,
        Some(m) => Some(m@),
    }
}

pub const MATCH: i32 = 10;

pub const CONSECUTIVE: i32 = 8;

pub const WORD_START: i32 = 6;

pub const GAP: i32 = 1;

/// Every score of a candidate of up to this many characters fits in `i32`,
/// whatever the query.
pub const MAX_CANDIDATE: usize = 80_000_000;

/// Whether no score of a folded query of `q` characters in a candidate of `c`
/// can leave `i32`. A query that is empty or longer than the candidate takes
/// no reckoning.
pub open spec fn scores_fit(q: nat, c: nat) -> bool {
    q == 0 || q > c || 24 * q + c + c / 8 <= i32::MAX
}

/// No score leaves `i32` in a candidate of up to `MAX_CANDIDATE` characters.
pub proof fn lemma_scores_fit(q: nat, c: nat)
    requires
        c <= MAX_CANDIDATE,
    ensures
        scores_fit(q, c),
{
}

/// The lowercase of one candidate character: a single character, the first
/// of its lowercase mapping.
pub open spec fn fold_char(c: char) -> char {
    if is_ascii_char(c) {
        ascii_lower(c)
    } else if char_lower(c).len() > 0 {
        char_lower(c)[0]
    } else {
        c
    }
}

/// A query as it is matched: lowercased, white space dropped.
pub open spec fn fold_query(query: Seq<char>) -> Seq<char>
    decreases query.len(),
{
    if query.len() == 0 {
        Seq::empty()
    } else {
        fold_query(query.drop_last()) + char_lower(query.last()).filter(|c: char| !whitespace(c))
    }
}

/// Whether position `ix` starts a word of `c`.
pub open spec fn word_start(c: Seq<char>, ix: int) -> bool {
    ix == 0 || !char_alphanumeric(c[ix - 1])
}

/// What a hit at position `j` is worth by itself.
pub open spec fn hit(c: Seq<char>, j: int) -> int {
    MATCH + if word_start(c, j) {
        WORD_START as int
    } else {
        0
    }
}

/// What going from a hit at `k` to the next one at `j` adds: a reward for
/// neighbours, else a cost for every character skipped.
pub open spec fn link(k: int, j: int) -> int {
    if k + 1 == j {
        CONSECUTIVE as int
    } else {
        -(j - k - 1) * GAP
    }
}

/// `p` places the first `p.len()` characters of the query `q` in `c`, in
/// order.
pub open spec fn aligned(q: Seq<char>, c: Seq<char>, p: Seq<usize>) -> bool {
    &&& p.len() <= q.len()
    &&& forall|i: int|
        0 <= i < p.len() ==> #[trigger] p[i] < c.len() && fold_char(c[p[i] as int]) == q[i]
    &&& forall|i: int, j: int| 0 <= i < j < p.len() ==> p[i] < p[j]
}

/// `p` places the whole query.
pub open spec fn alignment(q: Seq<char>, c: Seq<char>, p: Seq<usize>) -> bool {
    aligned(q, c, p) && p.len() == q.len()
}

/// What the placement `p` earns.
pub open spec fn gain(c: Seq<char>, p: Seq<usize>) -> int
    decreases p.len(),
{
    if p.len() == 0 {
        0
    } else if p.len() == 1 {
        hit(c, p[0] as int)
    } else {
        gain(c, p.drop_last()) + hit(c, p.last() as int) + link(
            p[p.len() - 2] as int,
            p.last() as int,
        )
    }
}

/// `a` comes before or equals `b` when the two are compared from their last
/// position backwards.
pub open spec fn ends_sooner(a: Seq<usize>, b: Seq<usize>) -> bool
    decreases a.len(),
{
    ||| a.len() == 0
    ||| a.last() < b.last()
    ||| a.last() == b.last() && ends_sooner(a.drop_last(), b.drop_last())
}

/// `p` is the placement that earns most; of those that earn the same, the
/// one that ends soonest.
pub open spec fn best_alignment(q: Seq<char>, c: Seq<char>, p: Seq<usize>) -> bool {
    &&& alignment(q, c, p)
    &&& forall|o: Seq<usize>| #[trigger]
        alignment(q, c, o) ==> gain(c, o) < gain(c, p) || gain(c, o) == gain(c, p) && ends_sooner(
            p,
            o,
        )
}

/// What matching the folded query `q` against `c` gives.
pub open spec fn matched(q: Seq<char>, c: Seq<char>, r: Option<Placing>) -> bool {
    match r {
        None => forall|p: Seq<usize>| !#[trigger] alignment(q, c, p),
        Some(m) => {
            &&& best_alignment(q, c, m.positions)
            &&& m.score == if q.len() == 0 {
                0
            } else {
                gain(c, m.positions) - c.len() / 8
            }
        },
    }
}

/// The one result that matching the folded query `q` against `c` has.
pub open spec fn fuzzy(q: Seq<char>, c: Seq<char>) -> Option<Placing> {
    choose|r: Option<Placing>| matched(q, c, r)
}

proof fn lemma_ends_sooner_antisymmetric(a: Seq<usize>, b: Seq<usize>)
    requires
        a.len() == b.len(),
        ends_sooner(a, b),
        ends_sooner(b, a),
    ensures
        a == b,
    decreases a.len(),
{
    if a.len() > 0 {
        lemma_ends_sooner_antisymmetric(a.drop_last(), b.drop_last());
        assert(a =~= a.drop_last().push(a.last()));
        assert(b =~= b.drop_last().push(b.last()));
    } else {
        assert(a =~= b);
    }
}

/// A query and a candidate have one result only: nothing that was matched
/// before plays a part.
pub proof fn lemma_match_unique(q: Seq<char>, c: Seq<char>, r: Option<Placing>)
    requires
        matched(q, c, r),
    ensures
        r == fuzzy(q, c),
{
    let o = fuzzy(q, c);
    assert(matched(q, c, o));
    match (r, o) {
        (Some(a), Some(b)) => {
            assert(alignment(q, c, a.positions));
            assert(alignment(q, c, b.positions));
            lemma_ends_sooner_antisymmetric(a.positions, b.positions);
        },
        (Some(a), None) => {
            assert(alignment(q, c, a.positions));
        },
        (None, Some(b)) => {
            assert(alignment(q, c, b.positions));
        },
        (None, None) => {},
    }
}

/// A cell of the table: what the best placement earns, and where its last
/// but one hit lies (0 where there is none).
struct Best {
    score: int,
    from: nat,
}

/// The best placement of `q[0..=i]` that ends at `j`: what it earns and where
/// its last but one hit lies (0 where there is none).
spec fn cell(q: Seq<char>, c: Seq<char>, i: nat, j: nat) -> Option<Best>
    decreases i, j,
{
    if j >= c.len() || i >= q.len() || fold_char(c[j as int]) != q[i as int] {
        None
    } else if i == 0 {
        Some(Best { score: hit(c, j as int), from: 0 })
    } else if j == 0 {
        None
    } else {
        let i1 = (i - 1) as nat;
        let j1 = (j - 1) as nat;
        let adjacent = match cell(q, c, i1, j1) {
            None => None,
            Some(a) => Some(Best { score: a.score + hit(c, j as int) + CONSECUTIVE, from: j1 }),
        };
        match run(q, c, i1, j1) {
            None => adjacent,
            Some(r) => {
                let top = Best { score: r.score + hit(c, j as int) - (j - 1) * GAP, from: r.from };
                match adjacent {
                    None => Some(top),
                    Some(a) => if a.score > top.score {
                        Some(a)
                    } else {
                        Some(top)
                    },
                }
            },
        }
    }
}

/// The best column `k < j` of row `i` to come from with a gap: what it earns
/// with `k` added, and `k`. The earliest wins ties.
spec fn run(q: Seq<char>, c: Seq<char>, i: nat, j: nat) -> Option<Best>
    decreases i, j,
{
    if j == 0 {
        None
    } else {
        let k = (j - 1) as nat;
        match cell(q, c, i, k) {
            None => run(q, c, i, k),
            Some(a) => {
                let v = a.score + k * GAP;
                match run(q, c, i, k) {
                    None => Some(Best { score: v, from: k }),
                    Some(r) => if v > r.score {
                        Some(Best { score: v, from: k })
                    } else {
                        Some(r)
                    },
                }
            },
        }
    }
}

/// The placement that `cell` describes.
spec fn trace(q: Seq<char>, c: Seq<char>, i: nat, j: nat) -> Seq<usize>
    decreases i,
{
    if i == 0 {
        seq![j as usize]
    } else {
        trace(q, c, (i - 1) as nat, cell(q, c, i, j)->0.from).push(j as usize)
    }
}

/// `run` picks a column below `j` that some placement ends at, with the
/// greatest value, and the earliest such column.
proof fn lemma_run(q: Seq<char>, c: Seq<char>, i: nat, j: nat)
    ensures
        match run(q, c, i, j) {
            None => forall|k: nat| k < j ==> cell(q, c, i, k) is None,
            Some(r) => {
                &&& r.from < j
                &&& cell(q, c, i, r.from) is Some
                &&& r.score == cell(q, c, i, r.from)->0.score + r.from
                &&& forall|k: nat|
                    k < j && (#[trigger] cell(q, c, i, k)) is Some ==> cell(q, c, i, k)->0.score + k
                        <= r.score && (cell(q, c, i, k)->0.score + k == r.score ==> r.from <= k)
            },
        },
    decreases j,
{
    if j > 0 {
        lemma_run(q, c, i, (j - 1) as nat);
    }
}

/// The predecessor that `cell` picks: the one that earns most, the earliest
/// of those.
proof fn lemma_cell_step(q: Seq<char>, c: Seq<char>, i: nat, j: nat)
    requires
        0 < i < q.len(),
        j < c.len(),
        fold_char(c[j as int]) == q[i as int],
    ensures
        ({
            let i1 = (i - 1) as nat;
            match cell(q, c, i, j) {
                None => forall|k: nat| k < j ==> cell(q, c, i1, k) is None,
                Some(r) => {
                    &&& r.from < j
                    &&& cell(q, c, i1, r.from) is Some
                    &&& r.score == cell(q, c, i1, r.from)->0.score + hit(c, j as int) + link(
                        r.from as int,
                        j as int,
                    )
                    &&& forall|k: nat|
                        k < j && (#[trigger] cell(q, c, i1, k)) is Some ==> {
                            let v = cell(q, c, i1, k)->0.score + hit(c, j as int) + link(
                                k as int,
                                j as int,
                            );
                            v <= r.score && (v == r.score ==> r.from <= k)
                        }
                },
            }
        }),
{
    let i1 = (i - 1) as nat;
    if j > 0 {
        lemma_run(q, c, i1, (j - 1) as nat);
        assert forall|k: nat| k < j && (#[trigger] cell(q, c, i1, k)) is Some implies k == j - 1 || k
            < j - 1 by {}
    }
}

/// Bounds on what a placement earns.
proof fn lemma_cell_bounds(q: Seq<char>, c: Seq<char>, i: nat, j: nat)
    ensures
        cell(q, c, i, j) matches Some(r) ==> i <= j && j < c.len() && 10 - j <= r.score <= 24 * (i + 1),
    decreases i,
{
    if i > 0 && cell(q, c, i, j) is Some {
        lemma_cell_step(q, c, i, j);
        lemma_cell_bounds(q, c, (i - 1) as nat, cell(q, c, i, j)->0.from);
    }
}

/// The placement behind a cell is one, ends where it should and earns what
/// the cell says.
proof fn lemma_trace(q: Seq<char>, c: Seq<char>, i: nat, j: nat)
    requires
        cell(q, c, i, j) is Some,
        c.len() <= usize::MAX,
    ensures
        aligned(q, c, trace(q, c, i, j)),
        trace(q, c, i, j).len() == i + 1,
        trace(q, c, i, j).last() == j,
        gain(c, trace(q, c, i, j)) == cell(q, c, i, j)->0.score,
    decreases i,
{
    if i > 0 {
        lemma_cell_step(q, c, i, j);
        let k = cell(q, c, i, j)->0.from;
        lemma_trace(q, c, (i - 1) as nat, k);
        let t = trace(q, c, (i - 1) as nat, k);
        let p = trace(q, c, i, j);
        assert(p.drop_last() == t);
        assert(p == t.push(j as usize));
        assert(forall|x: int| 0 <= x < t.len() ==> #[trigger] t[x] <= t.last());
    }
}

/// No placement that ends at `j` beats the one behind the cell.
proof fn lemma_cell_best(q: Seq<char>, c: Seq<char>, p: Seq<usize>)
    requires
        aligned(q, c, p),
        p.len() > 0,
        c.len() <= usize::MAX,
    ensures
        ({
            let i = (p.len() - 1) as nat;
            let j = p.last() as nat;
            &&& cell(q, c, i, j) is Some
            &&& gain(c, p) <= cell(q, c, i, j)->0.score
            &&& gain(c, p) == cell(q, c, i, j)->0.score ==> ends_sooner(trace(q, c, i, j), p)
        }),
    decreases p.len(),
{
    let i = (p.len() - 1) as nat;
    let j = p.last() as nat;
    if i > 0 {
        let o = p.drop_last();
        assert(aligned(q, c, o));
        lemma_cell_best(q, c, o);
        let k = o.last() as nat;
        assert(k < j);
        lemma_cell_step(q, c, i, j);
        assert(cell(q, c, (i - 1) as nat, k) is Some);
        let t = trace(q, c, i, j);
        let from = cell(q, c, i, j)->0.from;
        assert(t.drop_last() == trace(q, c, (i - 1) as nat, from));
        assert(t.last() == p.last());
        if gain(c, p) == cell(q, c, i, j)->0.score {
            lemma_trace(q, c, (i - 1) as nat, from);
            assert(t.drop_last().last() == from);
            assert(from <= k);
            if from < k {
                assert(ends_sooner(t.drop_last(), o));
            }
        }
    } else {
        assert(ends_sooner(trace(q, c, i, j).drop_last(), p.drop_last()));
    }
}

/// How a cell is kept in the table: the least `i32` stands for none.
spec fn kept(o: Option<Best>) -> int {
    match o {
        None => i32::MIN as int,
        Some(r) => r.score,
    }
}

/// `row` holds row `i` of the cells.
spec fn row_holds(q: Seq<char>, c: Seq<char>, i: nat, row: Seq<i32>) -> bool {
    &&& row.len() == c.len()
    &&& forall|j: nat| j < c.len() ==> #[trigger] row[j as int] == kept(cell(q, c, i, j))
}

/// `from` holds the predecessors of row `i`.
spec fn from_holds(q: Seq<char>, c: Seq<char>, i: nat, from: Seq<usize>) -> bool {
    &&& from.len() == c.len()
    &&& forall|j: nat|
        j < c.len() && cell(q, c, i, j) is Some ==> #[trigger] from[j as int] == cell(
            q,
            c,
            i,
            j,
        )->0.from
}

fn is_word_start(chars: &Vec<char>, ix: usize) -> (r: bool)
    requires
        ix < chars.len(),
    ensures
        r == word_start(chars@, ix as int),
{
    ix == 0 || !is_alphanumeric(chars[ix - 1])
}

fn hit_at(chars: &Vec<char>, ix: usize) -> (r: i32)
    requires
        ix < chars.len(),
    ensures
        r == hit(chars@, ix as int),
        10 <= r <= 16,
{
    if is_word_start(chars, ix) {
        MATCH + WORD_START
    } else {
        MATCH
    }
}

/// Row 0 of the cells: every hit of the query's first character.
fn first_row(q: &Vec<char>, c: &Vec<char>, cl: &Vec<char>) -> (row: Vec<i32>)
    requires
        q.len() > 0,
        cl.len() == c.len(),
        forall|j: int| 0 <= j < c.len() ==> cl[j] == fold_char(c[j]),
    ensures
        row_holds(q@, c@, 0, row@),
{
    let mut row: Vec<i32> = Vec::new();
    let mut j: usize = 0;
    while j < c.len()
        invariant
            q.len() > 0,
            cl.len() == c.len(),
            forall|j: int| 0 <= j < c.len() ==> cl[j] == fold_char(c[j]),
            j == row.len() <= c.len(),
            forall|k: nat| k < j ==> #[trigger] row[k as int] == kept(cell(q@, c@, 0, k)),
        decreases c.len() - j,
    {
        if cl[j] == q[0] {
            row.push(hit_at(c, j));
        } else {
            row.push(i32::MIN);
        }
        j += 1;
    }
    row
}

/// Row `i` of the cells from the row above it, with the predecessors.
fn next_row(q: &Vec<char>, c: &Vec<char>, cl: &Vec<char>, i: usize, above: &Vec<i32>) -> (r: (
    Vec<i32>,
    Vec<usize>,
))
    requires
        0 < i < q.len(),
        24 * q.len() + c.len() <= i32::MAX,
        cl.len() == c.len(),
        forall|j: int| 0 <= j < c.len() ==> cl[j] == fold_char(c[j]),
        row_holds(q@, c@, (i - 1) as nat, above@),
    ensures
        row_holds(q@, c@, i as nat, r.0@),
        from_holds(q@, c@, i as nat, r.1@),
{
    let mut row: Vec<i32> = Vec::new();
    let mut from: Vec<usize> = Vec::new();
    let ghost i1 = (i - 1) as nat;
    // Coming from column k costs one per character skipped, so the best k
    // with a gap is the one with the greatest above[k] + k: a running maximum
    // over k <= j - 2, the earliest k winning ties.
    let mut run_top: i32 = i32::MIN;
    let mut run_from: usize = 0;
    let mut j: usize = 0;
    while j < c.len()
        invariant
            0 < i < q.len(),
            i1 == i - 1,
            24 * q.len() + c.len() <= i32::MAX,
            cl.len() == c.len(),
            forall|j: int| 0 <= j < c.len() ==> cl[j] == fold_char(c[j]),
            row_holds(q@, c@, i1, above@),
            j == row.len() == from.len() <= c.len(),
            forall|k: nat| k < j ==> #[trigger] row[k as int] == kept(cell(q@, c@, i as nat, k)),
            forall|k: nat|
                k < j && cell(q@, c@, i as nat, k) is Some ==> #[trigger] from[k as int] == cell(
                    q@,
                    c@,
                    i as nat,
                    k,
                )->0.from,
            j >= 1 ==> run_top == kept(run(q@, c@, i1, (j - 1) as nat)),
            j >= 1 ==> (run(q@, c@, i1, (j - 1) as nat) matches Some(r) ==> run_from == r.from),
            j == 0 ==> run_top == i32::MIN,
        decreases c.len() - j,
    {
        proof {
            if j >= 1 {
                lemma_cell_bounds(q@, c@, i1, (j - 1) as nat);
                lemma_run(q@, c@, i1, (j - 1) as nat);
                if run(q@, c@, i1, (j - 1) as nat) is Some {
                    lemma_cell_bounds(q@, c@, i1, run(q@, c@, i1, (j - 1) as nat)->0.from);
                }
            }
            if j >= 2 {
                lemma_cell_bounds(q@, c@, i1, (j - 2) as nat);
                lemma_run(q@, c@, i1, (j - 2) as nat);
            }
            lemma_cell_bounds(q@, c@, i as nat, j as nat);
        }
        let mut top: i32 = i32::MIN;
        let mut back: usize = 0;
        if cl[j] == q[i] && j > 0 {
            let here = hit_at(c, j);
            if run_top != i32::MIN {
                top = run_top + here - (j as i32 - 1) * GAP;
                back = run_from;
            }
            // The adjacent column is considered last, as a run.
            if above[j - 1] != i32::MIN {
                assert(above[(j - 1) as nat as int] == kept(cell(q@, c@, i1, (j - 1) as nat)));
                let s: i32 = above[j - 1] + here + CONSECUTIVE;
                if s > top {
                    top = s;
                    back = j - 1;
                }
            }
        }
        assert(j >= 1 ==> above[(j - 1) as nat as int] == kept(cell(q@, c@, i1, (j - 1) as nat)));
        assert(top == kept(cell(q@, c@, i as nat, j as nat)));
        row.push(top);
        from.push(back);
        if j > 0 && above[j - 1] != i32::MIN {
            let v: i32 = above[j - 1] + (j - 1) as i32 * GAP;
            if v > run_top {
                run_top = v;
                run_from = j - 1;
            }
        }
        j += 1;
    }
    (row, from)
}

/// A query prepared once for matching against many candidates: it is
/// lowercased once, and the buffers for a candidate are kept between calls.
pub struct Matcher {
    q: Vec<char>,
    c: Vec<char>,
    cl: Vec<char>,
}

impl View for Matcher {
    type V = Seq<char>;

    /// The folded query.
    closed spec fn view(&self) -> Seq<char> {
        self.q@
    }
}

/// What scoring a candidate does, from the folded query that a matcher holds
/// before to the one that it holds after.
pub open spec fn scored(
    before: Seq<char>,
    candidate: Seq<char>,
    after: Seq<char>,
    r: Option<Placing>,
) -> bool {
    after == before && r == fuzzy(before, candidate)
}

/// A matcher can be used again and again: whatever candidates it has scored
/// before, it gives for each one what a match of the query against that
/// candidate alone gives. `held` is what the matcher holds before each
/// candidate and after the last.
pub proof fn lemma_matcher_reused(
    query: Seq<char>,
    candidates: Seq<Seq<char>>,
    held: Seq<Seq<char>>,
    results: Seq<Option<Placing>>,
)
    requires
        held.len() == candidates.len() + 1,
        results.len() == candidates.len(),
        held[0] == fold_query(query),
        forall|i: int|
            0 <= i < candidates.len() ==> scored(
                held[i],
                #[trigger] candidates[i],
                held[i + 1],
                results[i],
            ),
    ensures
        forall|i: int|
            0 <= i < candidates.len() ==> #[trigger] results[i] == fuzzy(
                fold_query(query),
                candidates[i],
            ),
{
    assert forall|i: int| 0 <= i < candidates.len() implies #[trigger] results[i] == fuzzy(
        fold_query(query),
        candidates[i],
    ) by {
        lemma_query_kept(candidates, held, results, i);
        assert(scored(held[i], candidates[i], held[i + 1], results[i]));
    }
}

proof fn lemma_query_kept(
    candidates: Seq<Seq<char>>,
    held: Seq<Seq<char>>,
    results: Seq<Option<Placing>>,
    k: int,
)
    requires
        held.len() == candidates.len() + 1,
        0 <= k <= candidates.len(),
        forall|i: int|
            0 <= i < candidates.len() ==> scored(
                held[i],
                #[trigger] candidates[i],
                held[i + 1],
                results[i],
            ),
    ensures
        held[k] == held[0],
    decreases k,
{
    if k > 0 {
        lemma_query_kept(candidates, held, results, k - 1);
        assert(scored(held[k - 1], candidates[k - 1], held[k], results[k - 1]));
    }
}

impl Matcher {
    /// Prepares `query`.
    pub fn new(query: &str) -> (m: Self)
        ensures
            m@ == fold_query(query@),
    {
        let all = chars_of(query);
        let mut q: Vec<char> = Vec::new();
        let mut i: usize = 0;
        while i < all.len()
            invariant
                i <= all.len(),
                q@ == fold_query(all@.take(i as int)),
            decreases all.len() - i,
        {
            let low = lower_chars(all[i]);
            let ghost start = q@;
            let mut k: usize = 0;
            while k < low.len()
                invariant
                    k <= low.len(),
                    q@ == start + low@.take(k as int).filter(|c: char| !whitespace(c)),
                decreases low.len() - k,
            {
                proof {
                    assert(low@.take(k + 1).drop_last() == low@.take(k as int));
                    reveal(Seq::filter);
                }
                if !is_whitespace(low[k]) {
                    q.push(low[k]);
                }
                k += 1;
            }
            proof {
                assert(low@.take(low@.len() as int) == low@);
                assert(all@.take(i + 1).drop_last() == all@.take(i as int));
            }
            i += 1;
        }
        assert(all@.take(all@.len() as int) == all@);
        Matcher { q, c: Vec::new(), cl: Vec::new() }
    }

    /// The best case-insensitive placement of the query in `candidate`:
    /// neighbouring hits earn more than scattered ones, hits that start a
    /// word more than those inside one, every character skipped costs a
    /// little, and a longer candidate costs a little too.
    pub fn score(&mut self, candidate: &str) -> (r: Option<Match>)
        requires
            scores_fit(old(self)@.len(), candidate@.len()),
        ensures
            scored(old(self)@, candidate@, final(self)@, placing(r)),
            final(self)@ == old(self)@,
            matched(old(self)@, candidate@, placing(r)),
            placing(r) == fuzzy(old(self)@, candidate@),
            r matches Some(m) ==> m.score >= -(candidate@.len() + candidate@.len() / 8),
    {
        let r = self.best(candidate);
        proof {
            lemma_match_unique(self@, candidate@, placing(r));
        }
        r
    }

    fn best(&mut self, candidate: &str) -> (r: Option<Match>)
        requires
            scores_fit(old(self)@.len(), candidate@.len()),
        ensures
            final(self)@ == old(self)@,
            matched(old(self)@, candidate@, placing(r)),
            r matches Some(m) ==> m.score >= -(candidate@.len() + candidate@.len() / 8),
    {
        if self.q.len() == 0 {
            let m = Match { score: 0, positions: Vec::new() };
            assert forall|o: Seq<usize>| #[trigger] alignment(self.q@, candidate@, o) implies o
                == m.positions@ by {
                assert(o =~= m.positions@);
            }
            return Some(m);
        }
        self.fill(candidate);
        let ghost q = self.q@;
        let ghost c = self.c@;
        if !self.subsequence() {
            return None;
        }
        let n = self.q.len();
        let m = self.c.len();
        let mut rows: Vec<Vec<i32>> = Vec::new();
        let mut froms: Vec<Vec<usize>> = Vec::new();
        rows.push(first_row(&self.q, &self.c, &self.cl));
        froms.push(Vec::new());
        let mut i: usize = 1;
        while i < n
            invariant
                q == self.q@,
                c == self.c@,
                n == q.len(),
                1 <= i <= n,
                rows.len() == froms.len() == i,
                24 * n + self.c.len() <= i32::MAX,
                self.cl.len() == self.c.len(),
                forall|j: int| 0 <= j < self.c.len() ==> self.cl[j] == fold_char(self.c[j]),
                row_holds(q, c, (i - 1) as nat, rows[i - 1]@),
                forall|k: int|
                    0 < k < i ==> from_holds(q, c, k as nat, #[trigger] froms[k]@),
            decreases n - i,
        {
            let (row, from) = next_row(&self.q, &self.c, &self.cl, i, &rows[i - 1]);
            rows.push(row);
            froms.push(from);
            i += 1;
        }
        let mut end: Option<usize> = None;
        let ghost last = (n - 1) as nat;
        let mut j: usize = 0;
        while j < m
            invariant
                q == self.q@,
                c == self.c@,
                n == q.len(),
                n >= 1,
                rows.len() == n,
                last == n - 1,
                m == c.len(),
                24 * n + m + m / 8 <= i32::MAX,
                j <= m,
                row_holds(q, c, last, rows[n - 1]@),
                end matches Some(e) ==> e < j && cell(q, c, last, e as nat) is Some,
                end is None ==> forall|k: nat| k < j ==> cell(q, c, last, k) is None,
                end matches Some(e) ==> forall|k: nat|
                    k < j && (#[trigger] cell(q, c, last, k)) is Some ==> cell(q, c, last, k)->0.score
                        <= cell(q, c, last, e as nat)->0.score && (cell(q, c, last, k)->0.score == cell(
                        q,
                        c,
                        last,
                        e as nat,
                    )->0.score ==> e <= k),
            decreases m - j,
        {
            proof {
                lemma_cell_bounds(q, c, last, j as nat);
                assert(rows[n - 1]@[j as nat as int] == kept(cell(q, c, last, j as nat)));
                if end is Some {
                    assert(rows[n - 1]@[end->0 as nat as int] == kept(
                        cell(q, c, last, end->0 as nat),
                    ));
                }
            }
            if rows[n - 1][j] != i32::MIN {
                match end {
                    None => {
                        end = Some(j);
                    },
                    Some(e) => {
                        if rows[n - 1][j] > rows[n - 1][e] {
                            end = Some(j);
                        }
                    },
                }
            }
            j += 1;
        }
        match end {
            None => {
                proof {
                    assert forall|p: Seq<usize>| !#[trigger] alignment(q, c, p) by {
                        if alignment(q, c, p) {
                            lemma_cell_best(q, c, p);
                        }
                    }
                }
                None
            },
            Some(e) => {
                let positions = walk_back(&self.q, &self.c, &froms, e);
                proof {
                    lemma_trace(q, c, last, e as nat);
                    lemma_cell_bounds(q, c, last, e as nat);
                    assert(rows[n - 1]@[e as nat as int] == kept(cell(q, c, last, e as nat)));
                    assert forall|o: Seq<usize>| #[trigger] alignment(q, c, o) implies gain(c, o)
                        < gain(c, positions@) || gain(c, o) == gain(c, positions@) && ends_sooner(
                        positions@,
                        o,
                    ) by {
                        lemma_cell_best(q, c, o);
                        assert(cell(q, c, last, o.last() as nat) is Some);
                    }
                }
                let score = rows[n - 1][e] - (m as i32) / 8;
                Some(Match { score, positions })
            },
        }
    }

    /// Reads the candidate into the buffers.
    fn fill(&mut self, candidate: &str)
        ensures
            final(self).q == old(self).q,
            final(self).c@ == candidate@,
            final(self).cl@.len() == candidate@.len(),
            forall|j: int|
                0 <= j < candidate@.len() ==> final(self).cl@[j] == fold_char(candidate@[j]),
    {
        let c = chars_of(candidate);
        let mut cl: Vec<char> = Vec::new();
        let mut i: usize = 0;
        while i < c.len()
            invariant
                i == cl.len() <= c.len(),
                forall|j: int| 0 <= j < i ==> cl[j] == fold_char(c[j]),
            decreases c.len() - i,
        {
            let ch = c[i];
            if (ch as u32) < 128 {
                cl.push(to_ascii_lower(ch));
            } else {
                let low = lower_chars(ch);
                if low.len() > 0 {
                    cl.push(low[0]);
                } else {
                    cl.push(ch);
                }
            }
            i += 1;
        }
        self.c = c;
        self.cl = cl;
    }

    /// Whether the query's characters occur in the candidate in order: the
    /// quick way to turn most candidates away.
    fn subsequence(&self) -> (r: bool)
        requires
            self.cl@.len() == self.c@.len(),
            forall|j: int| 0 <= j < self.c@.len() ==> self.cl@[j] == fold_char(self.c@[j]),
        ensures
            !r ==> forall|p: Seq<usize>| !#[trigger] alignment(self.q@, self.c@, p),
            r ==> self.q@.len() <= self.c@.len(),
    {
        let mut found: usize = 0;
        let mut t: usize = 0;
        let ghost q = self.q@;
        let ghost c = self.c@;
        assert forall|p: Seq<usize>| #[trigger] aligned(q, c.take(0), p) implies p.len() == 0 by {
            if p.len() > 0 {
                assert(p[0] < c.take(0).len());
            }
        }
        while t < self.cl.len()
            invariant
                q == self.q@,
                c == self.c@,
                self.cl@.len() == self.c@.len(),
                forall|j: int| 0 <= j < self.c@.len() ==> self.cl@[j] == fold_char(self.c@[j]),
                t <= c.len(),
                found <= q.len(),
                found <= t,
                forall|p: Seq<usize>| #[trigger]
                    aligned(q, c.take(t as int), p) ==> p.len() <= found,
            decreases self.cl.len() - t,
        {
            let ghost before = found;
            if found < self.q.len() && self.cl[t] == self.q[found] {
                found += 1;
            }
            t += 1;
            assert forall|p: Seq<usize>| #[trigger] aligned(q, c.take(t as int), p) implies p.len()
                <= found by {
                if p.len() > 0 {
                    let o = p.drop_last();
                    let shorter = c.take(t - 1);
                    if p.last() == t - 1 {
                        assert(forall|x: int| 0 <= x < o.len() ==> #[trigger] o[x] == p[x] && p[x] < p.last());
                        assert(aligned(q, shorter, o));
                        assert(o.len() <= before);
                    } else {
                        assert(forall|x: int| 0 <= x < p.len() ==> #[trigger] p[x] <= p.last());
                        assert(aligned(q, shorter, p));
                    }
                }
            }
        }
        proof {
            assert(c.take(t as int) == c);
        }
        found >= self.q.len()
    }
}

/// The positions of the placement behind the last row's cell `end`.
fn walk_back(q: &Vec<char>, c: &Vec<char>, froms: &Vec<Vec<usize>>, end: usize) -> (r: Vec<usize>)
    requires
        q.len() > 0,
        c.len() <= usize::MAX,
        froms.len() == q.len(),
        forall|k: int| 0 < k < q.len() ==> from_holds(q@, c@, k as nat, #[trigger] froms[k]@),
        cell(q@, c@, (q.len() - 1) as nat, end as nat) is Some,
    ensures
        r@ == trace(q@, c@, (q.len() - 1) as nat, end as nat),
{
    let n = q.len();
    let mut back: Vec<usize> = Vec::new();
    let mut i: usize = n - 1;
    let mut j: usize = end;
    let ghost whole = trace(q@, c@, (q.len() - 1) as nat, end as nat);
    back.push(j);
    while i > 0
        invariant
            n == q.len(),
            i < n,
            froms.len() == n,
            forall|k: int| 0 < k < q.len() ==> from_holds(q@, c@, k as nat, #[trigger] froms[k]@),
            cell(q@, c@, i as nat, j as nat) is Some,
            back.len() == n - i,
            back@.last() == j,
            whole == trace(q@, c@, i as nat, j as nat) + back@.drop_last().reverse(),
        decreases i,
    {
        proof {
            lemma_cell_step(q@, c@, i as nat, j as nat);
            lemma_cell_bounds(q@, c@, i as nat, j as nat);
            assert(froms[i as int]@[j as nat as int] == cell(q@, c@, i as nat, j as nat)->0.from);
        }
        let ghost before = back@;
        j = froms[i][j];
        i -= 1;
        back.push(j);
        proof {
            assert(back@.drop_last() == before);
            assert(before.reverse() =~= seq![before.last()] + before.drop_last().reverse());
            assert(whole =~= trace(q@, c@, i as nat, j as nat) + before.reverse());
        }
    }
    let mut r: Vec<usize> = Vec::new();
    let mut k: usize = back.len();
    while k > 0
        invariant
            k <= back.len(),
            r@ == back@.skip(k as int).reverse(),
        decreases k,
    {
        k -= 1;
        r.push(back[k]);
        assert(back@.skip(k as int).reverse() =~= back@.skip(k + 1).reverse().push(back@[k as int]));
    }
    proof {
        assert(back@.skip(0) == back@);
        assert(back@.reverse() =~= seq![back@.last()] + back@.drop_last().reverse());
    }
    r
}

/// Case-insensitive subsequence match with the placement that scores best.
pub fn fuzzy_match(query: &str, candidate: &str) -> (r: Option<Match>)
    requires
        candidate@.len() <= MAX_CANDIDATE,
    ensures
        matched(fold_query(query@), candidate@, placing(r)),
        placing(r) == fuzzy(fold_query(query@), candidate@),
        r matches Some(m) ==> m.score >= -(candidate@.len() + candidate@.len() / 8),
{
    let mut m = Matcher::new(query);
    proof {
        lemma_scores_fit(m@.len(), candidate@.len());
    }
    m.score(candidate)
}

/// `m` less a penalty and without positions, where that beats `best`.
pub open spec fn better(best: Option<Placing>, m: Option<Placing>, penalty: int) -> Option<Placing> {
    match m {
        None => best,
        Some(m) => {
            let alt = Placing { score: m.score - penalty, positions: Seq::empty() };
            match best {
                None => Some(alt),
                Some(b) => if alt.score > b.score {
                    Some(alt)
                } else {
                    Some(b)
                },
            }
        },
    }
}

/// `best` improved by the aliases, in order.
pub open spec fn better_aliases(
    best: Option<Placing>,
    q: Seq<char>,
    aliases: Seq<Seq<char>>,
) -> Option<Placing>
    decreases aliases.len(),
{
    if aliases.len() == 0 {
        best
    } else {
        better(better_aliases(best, q, aliases.drop_last()), fuzzy(q, aliases.last()), 2)
    }
}

/// How an action matches a folded query, across its title, its category and
/// title, and its aliases.
pub open spec fn action_match(q: Seq<char>, row: Row) -> Option<Placing> {
    let title = fuzzy(q, row.title);
    let full = fuzzy(q, row.category + " "@ + row.title);
    better_aliases(better(title, full, 3), q, row.aliases)
}

/// Whether the action's texts are short enough to be scored.
pub open spec fn scorable(row: Row) -> bool {
    &&& row.category.len() + 1 + row.title.len() <= MAX_CANDIDATE
    &&& forall|i: int| 0 <= i < row.aliases.len() ==> (#[trigger] row.aliases[i]).len() <= MAX_CANDIDATE
}

fn consider(best: Option<Match>, m: Option<Match>, penalty: i32) -> (r: Option<Match>)
    requires
        0 <= penalty <= 10,
        m matches Some(m) ==> m.score >= -100_000_000,
        best matches Some(b) ==> b.score >= -200_000_000,
    ensures
        placing(r) == better(placing(best), placing(m), penalty as int),
        r matches Some(b) ==> b.score >= -200_000_000,
{
    match m {
        None => best,
        Some(m) => {
            let alt = Match { score: m.score - penalty, positions: Vec::new() };
            match best {
                None => Some(alt),
                Some(b) => {
                    if alt.score > b.score {
                        Some(alt)
                    } else {
                        Some(b)
                    }
                },
            }
        },
    }
}

/// Score an action against a query across its title, category, and aliases.
/// Only a title match yields highlight positions.
pub fn score_action(query: &str, meta: &ActionMeta) -> (r: Option<Match>)
    requires
        scorable(meta@),
    ensures
        placing(r) == action_match(fold_query(query@), meta@),
{
    let ghost q = fold_query(query@);
    proof {
        reveal_strlit(" ");
    }
    let title = fuzzy_match(query, meta.title);
    let mut full = meta.category.to_owned();
    full.push_str(" ");
    full.push_str(meta.title);
    let mut best = consider(title, fuzzy_match(query, full.as_str()), 3);
    let ghost first = placing(best);
    let ghost all = str_views(meta.aliases@);
    let mut i: usize = 0;
    while i < meta.aliases.len()
        invariant
            i <= meta.aliases.len(),
            scorable(meta@),
            q == fold_query(query@),
            all == str_views(meta.aliases@),
            placing(best) == better_aliases(first, q, all.take(i as int)),
            best matches Some(b) ==> b.score >= -200_000_000,
        decreases meta.aliases.len() - i,
    {
        proof {
            assert(meta@.aliases[i as int] == meta.aliases@[i as int]@);
            assert(all.take(i + 1).drop_last() =~= all.take(i as int));
        }
        best = consider(best, fuzzy_match(query, meta.aliases[i]), 2);
        i += 1;
    }
    assert(all.take(all.len() as int) =~= all);
    best
}

/// The text of a palette row.
pub struct ItemRow {
    pub action_id: Seq<char>,
    pub title: Seq<char>,
    pub category: Seq<char>,
    pub highlights: Seq<usize>,
    pub binding: Option<Seq<char>>,
    pub score: int,
}

impl View for PaletteItem {
    type V = ItemRow;

    open spec fn view(&self) -> ItemRow {
        ItemRow {
            action_id: self.action_id@,
            title: self.title@,
            category: self.category@,
            highlights: self.highlights@,
            binding: match self.binding {
                None => None,
                Some(b) => Some(b@),
            },
            score: self.score as int,
        }
    }
}

/// The text of a list of palette rows.
pub open spec fn item_rows(v: Seq<PaletteItem>) -> Seq<ItemRow> {
    v.map_values(|i: PaletteItem| i@)
}

/// The keys listed for an action, by the first entry for it.
pub open spec fn binding_of(bindings: Seq<(String, String)>, id: Seq<char>) -> Option<Seq<char>>
    decreases bindings.len(),
{
    if bindings.len() == 0 {
        None
    } else if bindings[0].0@ == id {
        Some(bindings[0].1@)
    } else {
        binding_of(bindings.skip(1), id)
    }
}

fn find_binding(bindings: &Vec<(String, String)>, id: &str) -> (r: Option<String>)
    ensures
        match r {
            None => binding_of(bindings@, id@) is None,
            Some(b) => binding_of(bindings@, id@) == Some(b@),
        },
{
    let mut i: usize = 0;
    assert(bindings@.skip(0) =~= bindings@);
    while i < bindings.len()
        invariant
            i <= bindings.len(),
            binding_of(bindings@, id@) == binding_of(bindings@.skip(i as int), id@),
        decreases bindings.len() - i,
    {
        assert(bindings@.skip(i as int)[0] == bindings@[i as int]);
        assert(bindings@.skip(i as int).skip(1) =~= bindings@.skip(i + 1));
        if same(bindings[i].0.as_str(), id) {
            return Some(bindings[i].1.clone());
        }
        i += 1;
    }
    None
}

/// The palette row of an action that matches.
pub open spec fn item_for(row: Row, m: Placing, bindings: Seq<(String, String)>) -> ItemRow {
    ItemRow {
        action_id: row.id,
        title: row.title,
        category: row.category,
        highlights: m.positions,
        binding: binding_of(bindings, row.id),
        score: m.score,
    }
}

/// The rows of the actions that match, in the order of the candidates.
pub open spec fn matching(
    q: Seq<char>,
    candidates: Seq<Row>,
    bindings: Seq<(String, String)>,
) -> Seq<ItemRow>
    decreases candidates.len(),
{
    if candidates.len() == 0 {
        Seq::empty()
    } else {
        let rest = matching(q, candidates.drop_last(), bindings);
        match action_match(q, candidates.last()) {
            None => rest,
            Some(m) => rest.push(item_for(candidates.last(), m, bindings)),
        }
    }
}

/// The place of `id` in the list of recent ones, or its length.
pub open spec fn recency(recent: Seq<Seq<char>>, id: Seq<char>) -> nat
    decreases recent.len(),
{
    if recent.len() == 0 || recent[0] == id {
        0
    } else {
        1 + recency(recent.skip(1), id)
    }
}

/// The number of bytes a text takes in UTF-8.
pub open spec fn byte_len(s: Seq<char>) -> usize {
    vstd::utf8::encode_utf8(s).len() as usize
}

/// Whether `a` is listed strictly before `b`: with a query, the better match
/// and then the shorter title; without one, the more recently used.
pub open spec fn listed_before(
    queried: bool,
    recent: Seq<Seq<char>>,
    a: ItemRow,
    b: ItemRow,
) -> bool {
    if queried {
        a.score > b.score || a.score == b.score && byte_len(a.title) < byte_len(b.title)
    } else {
        recency(recent, a.action_id) < recency(recent, b.action_id)
    }
}

/// The first place in `s` that comes strictly after `x`.
pub open spec fn place(queried: bool, recent: Seq<Seq<char>>, s: Seq<ItemRow>, x: ItemRow) -> nat
    decreases s.len(),
{
    if s.len() == 0 || listed_before(queried, recent, x, s[0]) {
        0
    } else {
        1 + place(queried, recent, s.skip(1), x)
    }
}

/// `s` in listing order; rows that tie keep the order they had.
pub open spec fn listed(queried: bool, recent: Seq<Seq<char>>, s: Seq<ItemRow>) -> Seq<ItemRow>
    decreases s.len(),
{
    if s.len() == 0 {
        Seq::empty()
    } else {
        let rest = listed(queried, recent, s.drop_last());
        rest.insert(place(queried, recent, rest, s.last()) as int, s.last())
    }
}

/// Where a row belongs in a list.
pub proof fn lemma_place(queried: bool, recent: Seq<Seq<char>>, s: Seq<ItemRow>, x: ItemRow)
    ensures
        place(queried, recent, s, x) <= s.len(),
        forall|i: int|
            0 <= i < place(queried, recent, s, x) ==> !listed_before(
                queried,
                recent,
                x,
                #[trigger] s[i],
            ),
        place(queried, recent, s, x) < s.len() ==> listed_before(
            queried,
            recent,
            x,
            s[place(queried, recent, s, x) as int],
        ),
    decreases s.len(),
{
    if s.len() > 0 && !listed_before(queried, recent, x, s[0]) {
        lemma_place(queried, recent, s.skip(1), x);
        assert forall|i: int|
            0 <= i < place(queried, recent, s, x) implies !listed_before(
            queried,
            recent,
            x,
            #[trigger] s[i],
        ) by {
            if i > 0 {
                assert(s.skip(1)[i - 1] == s[i]);
            }
        }
    }
}

/// The list is in order: no row stands behind one that it comes strictly
/// before. It holds the same rows, each as often as before.
pub proof fn lemma_listed_in_order(queried: bool, recent: Seq<Seq<char>>, s: Seq<ItemRow>)
    ensures
        listed(queried, recent, s).len() == s.len(),
        listed(queried, recent, s).to_multiset() == s.to_multiset(),
        forall|i: int, j: int|
            0 <= i < j < listed(queried, recent, s).len() ==> !listed_before(
                queried,
                recent,
                #[trigger] listed(queried, recent, s)[j],
                #[trigger] listed(queried, recent, s)[i],
            ),
    decreases s.len(),
{
    broadcast use vstd::seq_lib::group_to_multiset_ensures;

    if s.len() > 0 {
        let head = s.drop_last();
        let x = s.last();
        lemma_listed_in_order(queried, recent, head);
        let rest = listed(queried, recent, head);
        lemma_place(queried, recent, rest, x);
        let p = place(queried, recent, rest, x) as int;
        let all = rest.insert(p, x);
        assert(s =~= head.push(x));
        assert forall|i: int, j: int| 0 <= i < j < all.len() implies !listed_before(
            queried,
            recent,
            #[trigger] all[j],
            #[trigger] all[i],
        ) by {
            if j < p {
                assert(all[j] == rest[j] && all[i] == rest[i]);
            } else if j == p {
                assert(all[i] == rest[i]);
                lemma_behind(queried, recent, rest, x, p, i);
            } else if i < p {
                assert(all[j] == rest[j - 1] && all[i] == rest[i]);
            } else if i == p {
                assert(all[j] == rest[j - 1]);
                // Everything from the place on comes after x.
                if j - 1 > p {
                    assert(!listed_before(queried, recent, rest[j - 1], rest[p]));
                }
            } else {
                assert(all[j] == rest[j - 1] && all[i] == rest[i - 1]);
            }
        }
    }
}

proof fn lemma_behind(
    queried: bool,
    recent: Seq<Seq<char>>,
    rest: Seq<ItemRow>,
    x: ItemRow,
    p: int,
    i: int,
)
    requires
        p == place(queried, recent, rest, x),
        0 <= i < p,
    ensures
        !listed_before(queried, recent, x, rest[i]),
{
    lemma_place(queried, recent, rest, x);
}

fn recency_of(recent: &[&str], id: &str) -> (n: usize)
    ensures
        n == recency(str_views(recent@), id@),
{
    let ghost all = str_views(recent@);
    assert(all.skip(0) =~= all);
    let mut i: usize = 0;
    while i < recent.len()
        invariant
            i <= recent.len(),
            all == str_views(recent@),
            recency(all, id@) == i + recency(all.skip(i as int), id@),
        decreases recent.len() - i,
    {
        assert(all.skip(i as int)[0] == recent@[i as int]@);
        assert(all.skip(i as int).skip(1) =~= all.skip(i + 1));
        if same(recent[i], id) {
            return i;
        }
        i += 1;
    }
    i
}

fn comes_before(queried: bool, recent: &[&str], a: &PaletteItem, b: &PaletteItem) -> (r: bool)
    ensures
        r == listed_before(queried, str_views(recent@), a@, b@),
{
    if queried {
        a.score > b.score || a.score == b.score && a.title.len() < b.title.len()
    } else {
        recency_of(recent, a.action_id) < recency_of(recent, b.action_id)
    }
}

fn put_in_place(queried: bool, recent: &[&str], items: &mut Vec<PaletteItem>, x: PaletteItem)
    ensures
        ({
            let rest = item_rows(old(items)@);
            item_rows(final(items)@) == rest.insert(
                place(queried, str_views(recent@), rest, x@) as int,
                x@,
            )
        }),
{
    let ghost rest = item_rows(items@);
    let ghost seen = str_views(recent@);
    let ghost before = items@;
    assert(rest.skip(0) =~= rest);
    let mut i: usize = 0;
    while i < items.len() && !comes_before(queried, recent, &x, &items[i])
        invariant
            i <= items.len(),
            items@ == before,
            rest == item_rows(items@),
            seen == str_views(recent@),
            place(queried, seen, rest, x@) == i + place(queried, seen, rest.skip(i as int), x@),
        decreases items.len() - i,
    {
        assert(rest.skip(i as int)[0] == items@[i as int]@);
        assert(rest.skip(i as int).skip(1) =~= rest.skip(i + 1));
        i += 1;
    }
    proof {
        if i < items.len() {
            assert(rest.skip(i as int)[0] == items@[i as int]@);
        }
    }
    let ghost row = x@;
    items.insert(i, x);
    assert(item_rows(items@) =~= rest.insert(i as int, row));
}

/// What the palette lists: with a query, every candidate that matches, best
/// first; without one, most recently used first, then in candidate order.
pub open spec fn listing(
    query: Seq<char>,
    candidates: Seq<Row>,
    recent: Seq<Seq<char>>,
    bindings: Seq<(String, String)>,
) -> Seq<ItemRow> {
    let text = trim(query);
    listed(text.len() > 0, recent, matching(fold_query(text), candidates, bindings))
}

/// Build the palette's rows. `bindings` holds the keys to show, by action id.
pub fn build_items(
    query: &str,
    candidates: &Vec<ActionMeta>,
    recent: &[&str],
    bindings: &Vec<(String, String)>,
) -> (r: Vec<PaletteItem>)
    requires
        forall|i: int| 0 <= i < candidates.len() ==> scorable(#[trigger] candidates@[i]@),
    ensures
        item_rows(r@) == listing(query@, rows(candidates@), str_views(recent@), bindings@),
{
    let text = trimmed(query);
    let queried = !text.as_str().is_empty();
    let ghost q = fold_query(text@);
    let ghost all = rows(candidates@);
    let ghost seen = str_views(recent@);
    let mut items: Vec<PaletteItem> = Vec::new();
    assert(item_rows(items@) =~= listed(queried, seen, matching(q, all.take(0), bindings@)));
    let mut i: usize = 0;
    while i < candidates.len()
        invariant
            i <= candidates.len(),
            forall|i: int| 0 <= i < candidates.len() ==> scorable(#[trigger] candidates@[i]@),
            q == fold_query(text@),
            all == rows(candidates@),
            seen == str_views(recent@),
            item_rows(items@) == listed(
                queried,
                seen,
                matching(q, all.take(i as int), bindings@),
            ),
        decreases candidates.len() - i,
    {
        let meta = &candidates[i];
        proof {
            assert(all.take(i + 1).drop_last() =~= all.take(i as int));
            assert(all.take(i + 1).last() == candidates@[i as int]@);
        }
        match score_action(text.as_str(), meta) {
            None => {},
            Some(m) => {
                let item = PaletteItem {
                    action_id: meta.id,
                    title: meta.title,
                    category: meta.category,
                    highlights: m.positions,
                    binding: find_binding(bindings, meta.id),
                    score: m.score,
                };
                proof {
                    let before = matching(q, all.take(i as int), bindings@);
                    let after = matching(q, all.take(i + 1), bindings@);
                    assert(after == before.push(item@));
                    assert(after.drop_last() =~= before);
                }
                put_in_place(queried, recent, &mut items, item);
            },
        }
        i += 1;
    }
    assert(all.take(all.len() as int) =~= all);
    items
}

// --- What the list shows ---

/// A matched character counts ten, and sixteen at the start of a word. One
/// right behind the last counts eight more; characters left out between two
/// cost one each.
pub proof fn lemma_points(c: Seq<char>, k: int, j: int)
    ensures
        hit(c, 0) == 16,
        j > 0 && char_alphanumeric(c[j - 1]) ==> hit(c, j) == 10,
        j > 0 && !char_alphanumeric(c[j - 1]) ==> hit(c, j) == 16,
        link(k, k + 1) == 8,
        j > k + 1 ==> link(k, j) == k + 1 - j,
{
}

/// Matching takes no notice of the case of letters.
pub proof fn lemma_case_is_folded(c: char)
    ensures
        'A' <= c <= 'Z' ==> fold_char(c) as int == c as int + 32,
        ('a' <= c <= 'z' || '0' <= c <= '9' || c == ' ') ==> fold_char(c) == c,
{
}

/// An empty query matches everything, with no points and nothing marked.
pub proof fn lemma_empty_query(c: Seq<char>, r: Option<Placing>)
    requires
        matched(Seq::empty(), c, r),
    ensures
        r == Some(Placing { score: 0, positions: Seq::empty() }),
{
    let q = Seq::<char>::empty();
    let p = Seq::<usize>::empty();
    assert(alignment(q, c, p));
    if r is Some {
        assert((r->0).positions =~= p);
    }
}

/// A text is found by its own letters, whole or with some left out at either
/// end.
pub proof fn lemma_found_by_its_letters(q: Seq<char>, c: Seq<char>, from: int, r: Option<Placing>)
    requires
        c.len() <= MAX_CANDIDATE,
        0 <= from,
        from + q.len() <= c.len(),
        forall|i: int| 0 <= i < q.len() ==> #[trigger] q[i] == fold_char(c[from + i]),
        matched(q, c, r),
    ensures
        r is Some,
{
    let p = Seq::new(q.len(), |i: int| (from + i) as usize);
    assert forall|i: int| 0 <= i < p.len() implies #[trigger] p[i] < c.len() && fold_char(
        c[p[i] as int],
    ) == q[i] by {
        assert(p[i] == from + i);
    }
    assert(alignment(q, c, p));
}

/// What is marked in a match are the query's letters, in their order.
pub proof fn lemma_marks_are_the_query(q: Seq<char>, c: Seq<char>, m: Placing, i: int, j: int)
    requires
        matched(q, c, Some(m)),
        0 <= i < j < q.len(),
    ensures
        m.positions.len() == q.len(),
        m.positions[i] < m.positions[j] < c.len(),
        fold_char(c[m.positions[i] as int]) == q[i],
        fold_char(c[m.positions[j] as int]) == q[j],
{
}

proof fn lemma_aliases_only_improve(best: Option<Placing>, q: Seq<char>, aliases: Seq<Seq<char>>)
    ensures
        best matches Some(b) ==> (better_aliases(best, q, aliases) matches Some(r) && r.score
            >= b.score),
        forall|i: int|
            0 <= i < aliases.len() ==> (fuzzy(q, #[trigger] aliases[i]) matches Some(m) ==> (
            better_aliases(best, q, aliases) matches Some(r) && r.score >= m.score - 2)),
        best is None && (forall|i: int|
            0 <= i < aliases.len() ==> fuzzy(q, #[trigger] aliases[i]) is None) ==> better_aliases(
            best,
            q,
            aliases,
        ) is None,
        better_aliases(best, q, aliases) matches Some(r) ==> (best == Some(r) || (r.positions
            == Seq::<usize>::empty() && exists|i: int|
            0 <= i < aliases.len() && (fuzzy(q, #[trigger] aliases[i]) matches Some(m) && r.score
                == m.score - 2))),
    decreases aliases.len(),
{
    if aliases.len() > 0 {
        let r = aliases.drop_last();
        lemma_aliases_only_improve(best, q, r);
        let before = better_aliases(best, q, r);
        let now = better_aliases(best, q, aliases);
        assert forall|i: int| 0 <= i < aliases.len() implies (fuzzy(
            q,
            #[trigger] aliases[i],
        ) matches Some(m) ==> (now matches Some(x) && x.score >= m.score - 2)) by {
            if i < r.len() {
                assert(r[i] == aliases[i]);
            }
        }
        if best is None && (forall|i: int|
            0 <= i < aliases.len() ==> fuzzy(q, #[trigger] aliases[i]) is None) {
            assert forall|i: int| 0 <= i < r.len() implies fuzzy(q, #[trigger] r[i]) is None by {
                assert(r[i] == aliases[i]);
            }
            assert(aliases.last() == aliases[aliases.len() - 1]);
        }
        if now is Some && now != best {
            if now == before {
                let i = choose|i: int|
                    0 <= i < r.len() && (fuzzy(q, #[trigger] r[i]) matches Some(m)
                        && now->0.score == m.score - 2);
                assert(aliases[i] == r[i]);
            } else {
                assert(aliases[aliases.len() - 1] == aliases.last());
            }
        }
    }
}

/// An action is found by its title, by its category and title for three
/// points less, and by an alias for two points less; the best of them
/// counts. Only the title's own match is marked in the title.
pub proof fn lemma_an_action_is_found(q: Seq<char>, row: Row)
    ensures
        fuzzy(q, row.title) matches Some(m) ==> (action_match(q, row) matches Some(r) && r.score
            >= m.score),
        fuzzy(q, row.category + " "@ + row.title) matches Some(m) ==> (action_match(
            q,
            row,
        ) matches Some(r) && r.score >= m.score - 3),
        forall|i: int|
            0 <= i < row.aliases.len() ==> (fuzzy(q, #[trigger] row.aliases[i]) matches Some(m)
                ==> (action_match(q, row) matches Some(r) && r.score >= m.score - 2)),
        action_match(q, row) matches Some(r) ==> (r.positions.len() > 0 ==> fuzzy(q, row.title)
            == Some(r)),
        fuzzy(q, row.title) is None && fuzzy(q, row.category + " "@ + row.title) is None && (
        forall|i: int| 0 <= i < row.aliases.len() ==> fuzzy(q, #[trigger] row.aliases[i]) is None)
            ==> action_match(q, row) is None,
{
    let title = fuzzy(q, row.title);
    let full = fuzzy(q, row.category + " "@ + row.title);
    lemma_aliases_only_improve(better(title, full, 3), q, row.aliases);
}

/// The list holds an entry for each action that the query finds, with the
/// action's own title, category and keys, and no other entries.
pub proof fn lemma_all_that_match_are_listed(
    q: Seq<char>,
    candidates: Seq<Row>,
    bindings: Seq<(String, String)>,
)
    ensures
        forall|i: int|
            0 <= i < candidates.len() ==> (action_match(q, #[trigger] candidates[i]) matches Some(m)
                ==> matching(q, candidates, bindings).contains(
                item_for(candidates[i], m, bindings),
            )),
        forall|k: int|
            0 <= k < matching(q, candidates, bindings).len() ==> exists|i: int|
                0 <= i < candidates.len() && (action_match(q, #[trigger] candidates[i]) matches Some(
                    m,
                ) && #[trigger] matching(q, candidates, bindings)[k] == item_for(
                    candidates[i],
                    m,
                    bindings,
                )),
    decreases candidates.len(),
{
    if candidates.len() > 0 {
        let r = candidates.drop_last();
        lemma_all_that_match_are_listed(q, r, bindings);
        let a = matching(q, r, bindings);
        let b = matching(q, candidates, bindings);
        assert(candidates.last() == candidates[candidates.len() - 1]);
        assert forall|i: int| 0 <= i < candidates.len() implies (action_match(
            q,
            #[trigger] candidates[i],
        ) matches Some(m) ==> b.contains(item_for(candidates[i], m, bindings))) by {
            if action_match(q, candidates[i]) is Some {
                let x = item_for(candidates[i], action_match(q, candidates[i])->0, bindings);
                if i < r.len() {
                    assert(r[i] == candidates[i]);
                    assert(a.contains(x));
                    let k = choose|k: int| 0 <= k < a.len() && a[k] == x;
                    assert(b[k] == x);
                } else {
                    assert(b.last() == x);
                    assert(b[b.len() - 1] == x);
                }
            }
        }
        assert forall|k: int| 0 <= k < b.len() implies exists|i: int|
            0 <= i < candidates.len() && (action_match(q, #[trigger] candidates[i]) matches Some(m)
                && #[trigger] b[k] == item_for(candidates[i], m, bindings)) by {
            if k < a.len() {
                assert(b[k] == a[k]);
                let i = choose|i: int|
                    0 <= i < r.len() && (action_match(q, #[trigger] r[i]) matches Some(m) && a[k]
                        == item_for(r[i], m, bindings));
                assert(candidates[i] == r[i]);
            }
        }
    }
}

/// With a query, more points come first, and of equal points the shorter
/// title. Without one, the action used last comes first.
pub proof fn lemma_what_comes_first(recent: Seq<Seq<char>>, a: ItemRow, b: ItemRow)
    ensures
        a.score > b.score ==> listed_before(true, recent, a, b),
        a.score < b.score ==> !listed_before(true, recent, a, b),
        a.score == b.score ==> (listed_before(true, recent, a, b) <==> byte_len(a.title) < byte_len(
            b.title,
        )),
        recent.len() > 0 && recent[0] == a.action_id && b.action_id != a.action_id
            ==> listed_before(false, recent, a, b),
        recent.contains(a.action_id) && !recent.contains(b.action_id) ==> listed_before(
            false,
            recent,
            a,
            b,
        ),
        !recent.contains(a.action_id) ==> !listed_before(false, recent, a, b),
{
    lemma_recency(recent, a.action_id);
    lemma_recency(recent, b.action_id);
    if recent.contains(b.action_id) {
        let i = choose|i: int| 0 <= i < recent.len() && recent[i] == b.action_id;
    }
}

proof fn lemma_recency(recent: Seq<Seq<char>>, id: Seq<char>)
    ensures
        recency(recent, id) <= recent.len(),
        recent.contains(id) <==> recency(recent, id) < recent.len(),
    decreases recent.len(),
{
    if recent.len() > 0 {
        let r = recent.skip(1);
        lemma_recency(r, id);
        if recent[0] != id {
            if recent.contains(id) {
                let i = choose|i: int| 0 <= i < recent.len() && recent[i] == id;
                assert(r[i - 1] == id);
            }
            if r.contains(id) {
                let i = choose|i: int| 0 <= i < r.len() && r[i] == id;
                assert(recent[i + 1] == id);
            }
        } else {
            assert(recent.contains(recent[0]));
        }
    }
}

} // verus!
