//! The action registry: one row per action, shared by the command palette,
//! the keymap config, and the menus.
use vstd::prelude::*;

use crate::keymap::actions::{registry, registry_metas, Action};
use crate::text::{chars_of, same, str_views};

verus! {

/// Where an action makes sense. The palette only lists actions whose
/// context is reachable right now, and focuses that context before
/// dispatching so the action lands on an element that handles it.
#[derive(Debug, Clone, Copy, PartialEq, Eq, Structural)]
pub enum ActionContext {
    /// Handled at the window root: reachable from anywhere.
    Root,
    /// Handled by the file tree; needs the drawer visible.
    FileTree,
    /// Handled by the workspaces panel; needs the drawer visible.
    Workspaces,
    /// Navigation inside a modal list (theme picker, palette). Never listed
    /// in the palette: you're already in one.
    Overlay,
}

/// One action and what the palette and the keymap know of it.
#[derive(Debug, Clone)]
pub struct ActionMeta {
    /// Stable identifier used in config.toml.
    pub id: &'static str,
    pub title: &'static str,
    pub category: &'static str,
    /// Keywords the palette's fuzzy match also searches.
    pub aliases: Vec<&'static str>,
    pub context: ActionContext,
    pub action: Action,
}

/// The text of a registry row.
pub struct Row {
    pub action: Action,
    pub id: Seq<char>,
    pub title: Seq<char>,
    pub category: Seq<char>,
    pub aliases: Seq<Seq<char>>,
    pub context: ActionContext,
}

impl View for ActionMeta {
    type V = Row;

    open spec fn view(&self) -> Row {
        row(
            self.action,
            self.id@,
            self.title@,
            self.category@,
            str_views(self.aliases@),
            self.context,
        )
    }
}

/// A registry row.
pub open spec fn row(
    action: Action,
    id: Seq<char>,
    title: Seq<char>,
    category: Seq<char>,
    aliases: Seq<Seq<char>>,
    context: ActionContext,
) -> Row {
    Row { action, id, title, category, aliases, context }
}

/// The text of a list of rows.
pub open spec fn rows(v: Seq<ActionMeta>) -> Seq<Row> {
    v.map_values(|m: ActionMeta| m@)
}

pub(crate) fn meta(
    action: Action,
    id: &'static str,
    title: &'static str,
    category: &'static str,
    aliases: Vec<&'static str>,
    context: ActionContext,
) -> (m: ActionMeta)
    ensures
        m@ == row(action, id@, title@, category@, str_views(aliases@), context),
{
    ActionMeta { id, title, category, aliases, context, action }
}

pub(crate) fn none() -> (v: Vec<&'static str>)
    ensures
        str_views(v@) == Seq::<Seq<char>>::empty(),
{
    let v: Vec<&'static str> = Vec::new();
    assert(str_views(v@) =~= Seq::<Seq<char>>::empty());
    v
}

pub(crate) fn one(a: &'static str) -> (v: Vec<&'static str>)
    ensures
        str_views(v@) == seq![a@],
{
    let mut v: Vec<&'static str> = Vec::new();
    v.push(a);
    assert(str_views(v@) =~= seq![a@]);
    v
}

pub(crate) fn two(a: &'static str, b: &'static str) -> (v: Vec<&'static str>)
    ensures
        str_views(v@) == seq![a@, b@],
{
    let mut v: Vec<&'static str> = Vec::new();
    v.push(a);
    v.push(b);
    assert(str_views(v@) =~= seq![a@, b@]);
    v
}

pub(crate) fn three(a: &'static str, b: &'static str, c: &'static str) -> (v: Vec<&'static str>)
    ensures
        str_views(v@) == seq![a@, b@, c@],
{
    let mut v: Vec<&'static str> = Vec::new();
    v.push(a);
    v.push(b);
    v.push(c);
    assert(str_views(v@) =~= seq![a@, b@, c@]);
    v
}

/// Every registered action.
pub fn all() -> (v: Vec<ActionMeta>)
    ensures
        rows(v@) == registry(),
{
    registry_metas()
}

/// The first row registered under `id`.
pub open spec fn row_of(id: Seq<char>, table: Seq<Row>) -> Option<Row>
    decreases table.len(),
{
    if table.len() == 0 {
        None
    } else if table[0].id == id {
        Some(table[0])
    } else {
        row_of(id, table.skip(1))
    }
}

/// The action registered under `id`.
pub fn by_id(id: &str) -> (r: Option<ActionMeta>)
    ensures
        match r {
            None => row_of(id@, registry()) is None,
            Some(m) => row_of(id@, registry()) == Some(m@),
        },
{
    let mut table = all();
    let ghost whole = registry();
    assert(whole.skip(0) =~= whole);
    let mut i: usize = 0;
    while i < table.len()
        invariant
            i <= table.len(),
            whole == registry(),
            rows(table@) == whole,
            row_of(id@, whole) == row_of(id@, whole.skip(i as int)),
        decreases table.len() - i,
    {
        assert(whole.skip(i as int)[0] == table@[i as int]@);
        assert(whole.skip(i as int).skip(1) =~= whole.skip(i + 1));
        if same(table[i].id, id) {
            let m = table.swap_remove(i);
            return Some(m);
        }
        i += 1;
    }
    None
}

/// The Levenshtein distance: how many characters have to be put in, taken
/// out or changed to turn `a` into `b`.
pub open spec fn distance(a: Seq<char>, b: Seq<char>) -> nat
    decreases a.len() + b.len(),
{
    if a.len() == 0 {
        b.len()
    } else if b.len() == 0 {
        a.len()
    } else {
        let drop = distance(a.drop_last(), b) + 1;
        let add = distance(a, b.drop_last()) + 1;
        let swap = distance(a.drop_last(), b.drop_last()) + if a.last() == b.last() {
            0nat
        } else {
            1nat
        };
        least(least(drop, add), swap)
    }
}

pub open spec fn least(a: nat, b: nat) -> nat {
    if a <= b {
        a
    } else {
        b
    }
}

/// A distance is at most the longer of the two lengths.
pub proof fn lemma_distance_bound(a: Seq<char>, b: Seq<char>)
    ensures
        distance(a, b) <= a.len() || distance(a, b) <= b.len(),
        a.len() <= distance(a, b) + b.len(),
        b.len() <= distance(a, b) + a.len(),
    decreases a.len() + b.len(),
{
    if a.len() > 0 && b.len() > 0 {
        lemma_distance_bound(a.drop_last(), b.drop_last());
        lemma_distance_bound(a.drop_last(), b);
        lemma_distance_bound(a, b.drop_last());
    }
}

/// The distance does not depend on the order of the two words.
pub proof fn lemma_distance_symmetric(a: Seq<char>, b: Seq<char>)
    ensures
        distance(a, b) == distance(b, a),
    decreases a.len() + b.len(),
{
    if a.len() > 0 && b.len() > 0 {
        lemma_distance_symmetric(a.drop_last(), b.drop_last());
        lemma_distance_symmetric(a.drop_last(), b);
        lemma_distance_symmetric(a, b.drop_last());
    }
}

/// Words are at distance 0 exactly when they are the same.
pub proof fn lemma_distance_zero(a: Seq<char>, b: Seq<char>)
    ensures
        distance(a, b) == 0 <==> a == b,
    decreases a.len() + b.len(),
{
    if a.len() > 0 && b.len() > 0 {
        lemma_distance_zero(a.drop_last(), b.drop_last());
        if distance(a, b) == 0 {
            assert(a =~= a.drop_last().push(a.last()));
            assert(b =~= b.drop_last().push(b.last()));
        }
    } else if distance(a, b) == 0 {
        assert(a =~= b);
    }
}

fn smaller(a: usize, b: usize) -> (r: usize)
    ensures
        r == least(a as nat, b as nat),
{
    if a <= b {
        a
    } else {
        b
    }
}

/// Levenshtein distance, for "did you mean" suggestions on mistyped ids.
pub fn edit_distance(a: &str, b: &str) -> (d: usize)
    ensures
        d == distance(a@, b@),
{
    let a = chars_of(a);
    let b = chars_of(b);
    let mut prev: Vec<usize> = Vec::new();
    prev.push(0);
    let mut j: usize = 0;
    while j < b.len()
        invariant
            j <= b.len(),
            prev.len() == j + 1,
            forall|k: int| 0 <= k <= j ==> prev@[k] == k,
        decreases b.len() - j,
    {
        prev.push(j + 1);
        j += 1;
    }
    assert forall|k: int| 0 <= k <= b.len() implies #[trigger] prev@[k] == distance(
        a@.take(0),
        b@.take(k),
    ) by {}
    let mut i: usize = 0;
    while i < a.len()
        invariant
            i <= a.len(),
            prev.len() == b.len() + 1,
            forall|k: int|
                0 <= k <= b.len() ==> #[trigger] prev@[k] == distance(a@.take(i as int), b@.take(k)),
        decreases a.len() - i,
    {
        let mut cur: Vec<usize> = Vec::new();
        cur.push(i + 1);
        let ghost below = a@.take(i + 1);
        assert(below.drop_last() =~= a@.take(i as int));
        let mut j: usize = 0;
        while j < b.len()
            invariant
                i < a.len(),
                j <= b.len(),
                below == a@.take(i + 1),
                below.drop_last() == a@.take(i as int),
                prev.len() == b.len() + 1,
                cur.len() == j + 1,
                forall|k: int|
                    0 <= k <= b.len() ==> #[trigger] prev@[k] == distance(
                        a@.take(i as int),
                        b@.take(k),
                    ),
                forall|k: int| 0 <= k <= j ==> #[trigger] cur@[k] == distance(below, b@.take(k)),
            decreases b.len() - j,
        {
            let cost: usize = if a[i] == b[j] {
                0
            } else {
                1
            };
            proof {
                let right = b@.take(j + 1);
                assert(right.drop_last() =~= b@.take(j as int));
                assert(right.last() == b@[j as int]);
                assert(below.last() == a@[i as int]);
                lemma_distance_bound(below, right);
                assert(prev@[j + 1] == distance(a@.take(i as int), right));
                assert(prev@[j as int] == distance(a@.take(i as int), b@.take(j as int)));
                assert(cur@[j as int] == distance(below, b@.take(j as int)));
            }
            let drop = prev[j + 1].saturating_add(1);
            let put = cur[j].saturating_add(1);
            let swap = prev[j].saturating_add(cost);
            cur.push(smaller(smaller(drop, put), swap));
            j += 1;
        }
        prev = cur;
        i += 1;
    }
    assert(a@.take(a@.len() as int) =~= a@);
    assert(b@.take(b@.len() as int) =~= b@);
    prev[b.len()]
}

/// How far off an id may be and still be taken for a slip.
pub const NEAR: usize = 5;

/// Row `k` is the closest to `id`, the first of those that are equally
/// close, and close enough to be a slip.
pub open spec fn nearest_row(id: Seq<char>, table: Seq<Row>, k: int) -> bool {
    &&& 0 <= k < table.len()
    &&& distance(id, table[k].id) <= NEAR
    &&& forall|j: int|
        0 <= j < table.len() ==> distance(id, table[k].id) <= distance(id, #[trigger] table[j].id)
            && (j < k ==> distance(id, table[k].id) < distance(id, table[j].id))
}

/// The closest registered id to `id`, when it's close enough to be a typo
/// rather than a different word entirely.
pub fn nearest_id(id: &str) -> (r: Option<&'static str>)
    ensures
        match r {
            None => forall|k: int|
                0 <= k < registry().len() ==> distance(id@, #[trigger] registry()[k].id) > NEAR,
            Some(n) => exists|k: int| #[trigger]
                nearest_row(id@, registry(), k) && registry()[k].id == n@,
        },
{
    let table = all();
    let ghost whole = registry();
    let mut best: Option<(usize, usize)> = None;
    let mut i: usize = 0;
    while i < table.len()
        invariant
            i <= table.len(),
            whole == registry(),
            rows(table@) == whole,
            best is None ==> forall|k: int|
                0 <= k < i ==> distance(id@, #[trigger] whole[k].id) > NEAR,
            best matches Some(b) ==> {
                &&& b.0 < i
                &&& b.1 <= NEAR
                &&& b.1 == distance(id@, whole[b.0 as int].id)
                &&& forall|k: int|
                    0 <= k < i ==> b.1 <= distance(id@, #[trigger] whole[k].id) && (k < b.0
                        ==> b.1 < distance(id@, whole[k].id))
            },
        decreases table.len() - i,
    {
        let d = edit_distance(id, table[i].id);
        assert(whole[i as int] == table@[i as int]@);
        if d <= NEAR {
            match best {
                None => {
                    best = Some((i, d));
                },
                Some((_, b)) => {
                    if d < b {
                        best = Some((i, d));
                    }
                },
            }
        }
        i += 1;
    }
    match best {
        None => None,
        Some((k, _)) => {
            assert(whole[k as int] == table@[k as int]@);
            assert(nearest_row(id@, whole, k as int));
            Some(table[k].id)
        },
    }
}

/// An action is found by its identifier: the row that is found has it, and
/// none is found only where no row has it.
pub proof fn lemma_rows_are_found(id: Seq<char>, table: Seq<Row>)
    ensures
        match row_of(id, table) {
            Some(r) => r.id == id && table.contains(r),
            None => forall|i: int| 0 <= i < table.len() ==> (#[trigger] table[i]).id != id,
        },
    decreases table.len(),
{
    if table.len() > 0 {
        let r = table.skip(1);
        if table[0].id == id {
            assert(table.contains(table[0]));
        } else {
            lemma_rows_are_found(id, r);
            match row_of(id, r) {
                Some(x) => {
                    let k = choose|k: int| 0 <= k < r.len() && r[k] == x;
                    assert(table[k + 1] == x);
                },
                None => {
                    assert forall|i: int| 0 <= i < table.len() implies (#[trigger] table[i]).id
                        != id by {
                        if i > 0 {
                            assert(r[i - 1] == table[i]);
                        }
                    }
                },
            }
        }
    }
}

proof fn lemma_same_end(a: Seq<char>, b: Seq<char>, end: Seq<char>)
    ensures
        distance(a + end, b + end) <= distance(a, b),
    decreases end.len(),
{
    if end.len() == 0 {
        assert(a + end =~= a);
        assert(b + end =~= b);
    } else {
        let e = end.drop_last();
        lemma_same_end(a, b, e);
        assert((a + end).drop_last() =~= a + e);
        assert((b + end).drop_last() =~= b + e);
    }
}

/// One character more, one less, or one other in its place is one edit.
pub proof fn lemma_one_edit(a: Seq<char>, c: char, d: char, b: Seq<char>)
    ensures
        distance(a + seq![c] + b, a + b) == 1,
        distance(a + b, a + seq![c] + b) == 1,
        c != d ==> distance(a + seq![c] + b, a + seq![d] + b) == 1,
{
    let x = a + seq![c];
    let y = a + seq![d];
    assert(x.drop_last() =~= a);
    assert(y.drop_last() =~= a);
    lemma_distance_zero(a, a);
    if a.len() == 0 {
        assert(distance(x, a) == 1);
    }
    assert(distance(x, a) <= 1);
    lemma_same_end(x, a, b);
    lemma_distance_zero(x + b, a + b);
    lemma_distance_symmetric(x + b, a + b);
    assert((x + b).len() != (a + b).len());
    if c != d {
        assert(distance(x, y) <= 1);
        lemma_same_end(x, y, b);
        lemma_distance_zero(x + b, y + b);
        assert((x + b)[a.len() as int] == c);
        assert((y + b)[a.len() as int] == d);
    }
}

} // verus!
