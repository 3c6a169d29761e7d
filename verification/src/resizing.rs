//! How dividers move: what a layout gains on one side of one, and what it
//! gives on the other.
use vstd::prelude::*;

use crate::panes::{
    divider_move, enclosing, equal, even_shares, fit, in_order, leaf_resized, least_share,
    lemma_total_two, lemma_total_update, nudged, positive, resized, route, subtree, total, Axis,
    Direction, PaneId, Tree, WHOLE,
};

verus! {

/// Left and right are beside, up and down above and below; left and up come
/// first.
pub proof fn lemma_directions()
    ensures
        Direction::Left.runs() is Horizontal && Direction::Left.before(),
        Direction::Right.runs() is Horizontal && !Direction::Right.before(),
        Direction::Up.runs() is Vertical && Direction::Up.before(),
        Direction::Down.runs() is Vertical && !Direction::Down.before(),
{
}

/// A divider follows the hand: moved forward, what is before it grows by as
/// much, as long as both sides keep the minimum.
pub proof fn lemma_dividers_follow<T>(t: Tree<T>, divider: int, delta: int, min: int)
    requires
        in_order(t),
        0 <= divider,
        nudged(t, divider, delta, min) is Some,
    ensures
        ({
            let before = t->ratios;
            let after = (nudged(t, divider, delta, min)->0)->ratios;
            let least = least_share(min);
            &&& delta > 0 ==> after[divider] > before[divider]
            &&& delta < 0 ==> after[divider] < before[divider]
            &&& before[divider] + delta >= least && before[divider + 1] - delta >= least
                && before[divider] >= least && before[divider + 1] >= least ==> after[divider]
                == before[divider] + delta && after[divider + 1] == before[divider + 1] - delta
        }),
{
    if let Tree::Split { axis, children, ratios } = t {
        let a = ratios[divider];
        let b = ratios[divider + 1];
        let least = least_share(min);
        let d = divider_move(a as int, b as int, delta, least);
        lemma_total_two(ratios, divider);
        let one = ratios.update(divider, (a + d) as u32);
        let next = one.update(divider + 1, (b - d) as u32);
        lemma_total_update(ratios, divider, (a + d) as u32);
        lemma_total_update(one, divider + 1, (b - d) as u32);
        assert(ratios[divider] > 0 && ratios[divider + 1] > 0);
        assert(positive(next)) by {
            assert forall|k: int| 0 <= k < next.len() implies #[trigger] next[k] > 0 by {
                if k != divider && k != divider + 1 {
                    assert(next[k] == ratios[k]);
                }
            }
        }
        assert(total(next) == WHOLE);
        assert(fit(children.len(), next) == next);
    }
}

/// Growing a pane moves the divider behind it forward, and where it is the
/// last of its row the divider before it back; either way the other side of
/// the divider gives.
pub proof fn lemma_growing_a_pane(
    t: Tree<PaneId>,
    target: PaneId,
    axis: Axis,
    delta: int,
    min: int,
    path: Seq<usize>,
    d: nat,
    children: Seq<Tree<PaneId>>,
    ratios: Seq<u32>,
)
    requires
        route(t, target) == Some(path),
        enclosing(t, path, axis, path.len()) == Some(d),
        subtree(t, path.take(d as int)) == Some(Tree::Split { axis, children, ratios }),
    ensures
        path[d as int] + 1 < children.len() ==> leaf_resized(t, target, axis, delta, min)
            == resized(t, path.take(d as int), path[d as int] as int, delta, min),
        path[d as int] + 1 == children.len() && children.len() > 1 ==> leaf_resized(
            t,
            target,
            axis,
            delta,
            min,
        ) == resized(t, path.take(d as int), path[d as int] - 1, -delta, min),
{
}

proof fn lemma_step(x: int, w: int, n: int)
    requires
        n > 0,
        x >= 0,
        w >= 0,
    ensures
        w / n <= (x + w) / n - x / n <= w / n + 1,
{
    let p = x / n;
    let q = w / n;
    let s = x % n;
    let r = w % n;
    vstd::arithmetic::div_mod::lemma_fundamental_div_mod(x, n);
    vstd::arithmetic::div_mod::lemma_fundamental_div_mod(w, n);
    assert(n * p + n * q == n * (p + q)) by (nonlinear_arith);
    assert(n * (p + q) + n == n * (p + q + 1)) by (nonlinear_arith);
    if s + r < n {
        vstd::arithmetic::div_mod::lemma_fundamental_div_mod_converse(x + w, n, p + q, s + r);
    } else {
        vstd::arithmetic::div_mod::lemma_fundamental_div_mod_converse(x + w, n, p + q + 1, s + r - n);
    }
}

/// Even shares are even: no two differ by more than one part.
pub proof fn lemma_even_shares_are_even(n: nat, i: int, j: int)
    requires
        0 <= i < n,
        0 <= j < n,
    ensures
        -1 <= even_shares(n)[i] - even_shares(n)[j] <= 1,
{
    let w = WHOLE as int;
    let m = n as int;
    assert(w * i >= 0 && w * j >= 0) by (nonlinear_arith)
        requires
            w >= 0,
            i >= 0,
            j >= 0,
    ;
    assert(w * (i + 1) == w * i + w && w * (j + 1) == w * j + w) by (nonlinear_arith);
    lemma_step(w * i, w, m);
    lemma_step(w * j, w, m);
    assert(0 <= w / m <= w) by (nonlinear_arith)
        requires
            w >= 0,
            m > 0,
    ;
}

/// Evening out gives every child of a split the same room, but for one part.
pub proof fn lemma_evened_out<T>(t: Tree<T>, i: int, j: int)
    requires
        t is Split,
        0 <= i < t->children.len(),
        0 <= j < t->children.len(),
    ensures
        equal(t)->ratios.len() == t->children.len(),
        -1 <= equal(t)->ratios[i] - equal(t)->ratios[j] <= 1,
{
    lemma_even_shares_are_even(t->children.len(), i, j);
}

} // verus!
