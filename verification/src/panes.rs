//! The split-pane layout tree.
//!
//! A leaf is one terminal pane; a split holds two or more children laid out
//! along an axis, each with a share of the space. Splitting a leaf whose
//! parent already runs along the requested axis inserts a sibling rather than
//! nesting, so repeated splits in the same direction stay flat.
//!
//! Shares are whole parts of `WHOLE`. They run parallel to the children and
//! add up to `WHOLE`; every mutation ends in `normalise`, the single place
//! that restores this.
use vstd::prelude::*;

verus! {

/// What a pane is known by.
pub type PaneId = u64;

/// The parts that the shares of a split add up to.
pub const WHOLE: u32 = 1_000_000_000;

/// A divider that would move by less than this many parts stays put.
pub const STILL: i128 = 1000;

#[derive(Debug, Clone, Copy, PartialEq, Eq, Structural)]
pub enum Axis {
    /// Children sit side by side.
    Horizontal,
    /// Children are stacked.
    Vertical,
}

#[derive(Debug, Clone, Copy, PartialEq, Eq, Structural)]
pub enum Direction {
    Left,
    Right,
    Up,
    Down,
}

impl Direction {
    pub open spec fn runs(self) -> Axis {
        match self {
            Direction::Left | Direction::Right => Axis::Horizontal,
            Direction::Up | Direction::Down => Axis::Vertical,
        }
    }

    pub open spec fn before(self) -> bool {
        self == Direction::Left || self == Direction::Up
    }

    pub fn axis(self) -> (r: Axis)
        ensures
            r == self.runs(),
    {
        match self {
            Direction::Left | Direction::Right => Axis::Horizontal,
            Direction::Up | Direction::Down => Axis::Vertical,
        }
    }

    /// Whether a new pane is placed before the existing one.
    pub fn is_before(self) -> (r: bool)
        ensures
            r == self.before(),
    {
        matches!(self, Direction::Left | Direction::Up)
    }
}

#[derive(Debug, PartialEq)]
pub enum Node<T> {
    Leaf(T),
    Split {
        axis: Axis,
        children: Vec<Node<T>>,
        /// Parallel to `children`; adds up to `WHOLE`.
        ratios: Vec<u32>,
    },
}

/// A path from the root: each entry is a child index in a split.
pub type NodePath = Vec<usize>;

/// The layout as a mathematical tree.
pub enum Tree<T> {
    Leaf(T),
    Split { axis: Axis, children: Seq<Tree<T>>, ratios: Seq<u32> },
}

/// The tree that a node stands for.
pub open spec fn tree<T>(n: Node<T>) -> Tree<T>
    decreases n,
{
    match n {
        Node::Leaf(t) => Tree::Leaf(t),
        Node::Split { axis, children, ratios } => Tree::Split {
            axis,
            children: trees(children@),
            ratios: ratios@,
        },
    }
}

/// The trees that a list of nodes stands for.
pub open spec fn trees<T>(s: Seq<Node<T>>) -> Seq<Tree<T>>
    decreases s,
{
    if s.len() == 0 {
        Seq::empty()
    } else {
        trees(s.subrange(0, s.len() - 1)).push(tree(s[s.len() - 1]))
    }
}

/// Each node of a list stands for its own tree.
pub proof fn lemma_trees<T>(s: Seq<Node<T>>)
    ensures
        trees(s).len() == s.len(),
        forall|i: int| 0 <= i < s.len() ==> #[trigger] trees(s)[i] == tree(s[i]),
    decreases s.len(),
{
    if s.len() > 0 {
        lemma_trees(s.subrange(0, s.len() - 1));
    }
}

impl<T> View for Node<T> {
    type V = Tree<T>;

    open spec fn view(&self) -> Tree<T> {
        tree(*self)
    }
}

/// The panes of a layout, in reading order.
pub open spec fn leaves<T>(t: Tree<T>) -> Seq<T>
    decreases t,
{
    match t {
        Tree::Leaf(id) => seq![id],
        Tree::Split { axis, children, ratios } => all_leaves(children),
    }
}

/// The panes of several layouts, one after the other.
pub open spec fn all_leaves<T>(s: Seq<Tree<T>>) -> Seq<T>
    decreases s,
{
    if s.len() == 0 {
        Seq::empty()
    } else {
        all_leaves(s.subrange(0, s.len() - 1)) + leaves(s[s.len() - 1])
    }
}

/// The sum of some shares.
pub open spec fn total(s: Seq<u32>) -> int
    decreases s.len(),
{
    if s.len() == 0 {
        0
    } else {
        total(s.drop_last()) + s.last()
    }
}

/// Where the `k`th of `n` even shares starts.
pub open spec fn even_mark(n: int, k: int) -> int {
    WHOLE * k / n
}

/// `n` shares as even as whole parts allow.
pub open spec fn even_shares(n: nat) -> Seq<u32> {
    Seq::new(n, |i: int| (even_mark(n as int, i + 1) - even_mark(n as int, i)) as u32)
}

/// Where the `k`th share starts once the shares are scaled to `WHOLE`.
pub open spec fn mark(s: Seq<u32>, k: int) -> int {
    WHOLE * total(s.take(k)) / total(s)
}

/// The shares scaled to add up to `WHOLE`.
pub open spec fn scaled(s: Seq<u32>) -> Seq<u32> {
    Seq::new(s.len(), |i: int| (mark(s, i + 1) - mark(s, i)) as u32)
}

pub open spec fn positive(s: Seq<u32>) -> bool {
    forall|i: int| 0 <= i < s.len() ==> #[trigger] s[i] > 0
}

/// The shares `n` children end up with: the given ones in proportion, or
/// even ones where those are unusable.
pub open spec fn fit(n: nat, s: Seq<u32>) -> Seq<u32> {
    if s.len() != n || !positive(s) {
        even_shares(n)
    } else if total(s) == WHOLE {
        s
    } else if positive(scaled(s)) {
        scaled(s)
    } else {
        even_shares(n)
    }
}

proof fn lemma_total_bounds(s: Seq<u32>)
    ensures
        0 <= total(s) <= s.len() * u32::MAX,
        positive(s) && s.len() > 0 ==> total(s) > 0,
    decreases s.len(),
{
    if s.len() > 0 {
        lemma_total_bounds(s.drop_last());
        assert(s.len() * u32::MAX == s.drop_last().len() * u32::MAX + u32::MAX) by (nonlinear_arith)
            requires
                s.len() == s.drop_last().len() + 1,
        ;
        if positive(s) {
            assert(positive(s.drop_last()));
            assert(s[s.len() - 1] > 0);
        }
    }
}

proof fn lemma_total_prefix(s: Seq<u32>, k: int)
    requires
        0 <= k <= s.len(),
    ensures
        0 <= total(s.take(k)) <= total(s),
    decreases s.len() - k,
{
    lemma_total_bounds(s.take(k));
    if k < s.len() {
        lemma_total_prefix(s, k + 1);
        assert(s.take(k + 1).drop_last() =~= s.take(k));
    } else {
        assert(s.take(k) =~= s);
    }
}

proof fn lemma_even_mark(n: int, k: int)
    requires
        0 <= k < n,
    ensures
        0 <= even_mark(n, k) <= even_mark(n, k + 1) <= WHOLE,
        even_mark(n, 0) == 0,
        even_mark(n, n) == WHOLE,
        n <= WHOLE ==> even_mark(n, k) < even_mark(n, k + 1),
{
    let w = WHOLE as int;
    assert(w * 0 / n == 0) by (nonlinear_arith)
        requires
            n > 0,
    ;
    assert(w * n / n == w) by (nonlinear_arith)
        requires
            n > 0,
    ;
    let a = w * k;
    let b = w * (k + 1);
    assert(b == a + w) by (nonlinear_arith)
        requires
            a == w * k,
            b == w * (k + 1),
    ;
    assert(0 <= a) by (nonlinear_arith)
        requires
            a == w * k,
            k >= 0,
            w >= 0,
    ;
    assert(b <= w * n) by (nonlinear_arith)
        requires
            b == w * (k + 1),
            k + 1 <= n,
            w >= 0,
    ;
    vstd::arithmetic::div_mod::lemma_div_is_ordered(a, b, n);
    vstd::arithmetic::div_mod::lemma_div_is_ordered(b, w * n, n);
    vstd::arithmetic::div_mod::lemma_div_is_ordered(0, a, n);
    if n <= WHOLE {
        assert(a / n + 1 <= b / n) by (nonlinear_arith)
            requires
                b == a + w,
                w >= n,
                n > 0,
        ;
    }
}

/// Even shares add up to the whole, and none is empty.
proof fn lemma_even(n: nat)
    requires
        n > 0,
    ensures
        total(even_shares(n)) == WHOLE,
        n <= WHOLE ==> positive(even_shares(n)),
{
    lemma_even_prefix(n, n);
    assert(even_shares(n).take(n as int) =~= even_shares(n));
    lemma_even_mark(n as int, 0);
    if n <= WHOLE {
        assert forall|i: int| 0 <= i < n implies #[trigger] even_shares(n)[i] > 0 by {
            lemma_even_mark(n as int, i);
        }
    }
}

proof fn lemma_even_prefix(n: nat, k: nat)
    requires
        n > 0,
        k <= n,
    ensures
        total(even_shares(n).take(k as int)) == even_mark(n as int, k as int),
    decreases k,
{
    let s = even_shares(n);
    lemma_even_mark(n as int, 0);
    if k > 0 {
        lemma_even_prefix(n, (k - 1) as nat);
        lemma_even_mark(n as int, k - 1);
        assert(s.take(k as int).drop_last() =~= s.take(k - 1));
        assert(s.take(k as int).last() == s[k - 1]);
    }
}

proof fn lemma_mark(s: Seq<u32>, k: int)
    requires
        0 <= k < s.len(),
        total(s) > 0,
    ensures
        0 <= mark(s, k) <= mark(s, k + 1) <= WHOLE,
        mark(s, 0) == 0,
        mark(s, s.len() as int) == WHOLE,
{
    let w = WHOLE as int;
    let t = total(s);
    lemma_total_prefix(s, k);
    lemma_total_prefix(s, k + 1);
    assert(s.take(k + 1).drop_last() =~= s.take(k));
    assert(s.take(s.len() as int) =~= s);
    assert(s.take(0) =~= Seq::<u32>::empty());
    let a = total(s.take(k));
    let b = total(s.take(k + 1));
    assert(w * 0 / t == 0) by (nonlinear_arith)
        requires
            t > 0,
    ;
    assert(w * t / t == w) by (nonlinear_arith)
        requires
            t > 0,
    ;
    assert(0 <= w * a <= w * b && w * b <= w * t) by (nonlinear_arith)
        requires
            0 <= a <= b,
            b <= t,
            w >= 0,
    ;
    vstd::arithmetic::div_mod::lemma_div_is_ordered(w * a, w * b, t);
    vstd::arithmetic::div_mod::lemma_div_is_ordered(w * b, w * t, t);
    vstd::arithmetic::div_mod::lemma_div_is_ordered(0, w * a, t);
}

proof fn lemma_scaled_prefix(s: Seq<u32>, k: nat)
    requires
        total(s) > 0,
        0 < s.len(),
        k <= s.len(),
    ensures
        total(scaled(s).take(k as int)) == mark(s, k as int),
    decreases k,
{
    let r = scaled(s);
    lemma_mark(s, 0);
    if k > 0 {
        lemma_scaled_prefix(s, (k - 1) as nat);
        lemma_mark(s, k - 1);
        assert(r.take(k as int).drop_last() =~= r.take(k - 1));
        assert(r.take(k as int).last() == r[k - 1]);
    }
}

/// Fitted shares are one per child, positive, and add up to the whole.
pub proof fn lemma_fit(n: nat, s: Seq<u32>)
    requires
        0 < n <= WHOLE,
    ensures
        fit(n, s).len() == n,
        positive(fit(n, s)),
        total(fit(n, s)) == WHOLE,
{
    lemma_even(n);
    if s.len() == n && positive(s) {
        lemma_total_bounds(s);
        lemma_scaled_prefix(s, n);
        lemma_mark(s, 0);
        assert(scaled(s).take(n as int) =~= scaled(s));
    }
}

fn even(n: usize) -> (r: Vec<u32>)
    ensures
        r@ == even_shares(n as nat),
{
    let mut r: Vec<u32> = Vec::new();
    let mut i: usize = 0;
    while i < n
        invariant
            i == r.len() <= n,
            forall|k: int| 0 <= k < i ==> r@[k] == even_shares(n as nat)[k],
        decreases n - i,
    {
        proof {
            lemma_even_mark(n as int, i as int);
            assert(WHOLE * (i + 1) <= WHOLE * usize::MAX) by (nonlinear_arith)
                requires
                    i + 1 <= usize::MAX,
            ;
            assert(WHOLE * i <= WHOLE * (i + 1)) by (nonlinear_arith);
            assert(0 <= WHOLE * i) by (nonlinear_arith);
        }
        let a: u128 = WHOLE as u128 * i as u128 / n as u128;
        let b: u128 = WHOLE as u128 * (i as u128 + 1) / n as u128;
        r.push((b - a) as u32);
        i += 1;
    }
    assert(r@ =~= even_shares(n as nat));
    r
}

fn sum(s: &Vec<u32>) -> (t: u128)
    ensures
        t == total(s@),
{
    let mut t: u128 = 0;
    let mut i: usize = 0;
    while i < s.len()
        invariant
            i <= s.len(),
            t == total(s@.take(i as int)),
        decreases s.len() - i,
    {
        proof {
            lemma_total_bounds(s@.take(i as int));
            assert(i * u32::MAX <= usize::MAX * u32::MAX) by (nonlinear_arith)
                requires
                    i <= usize::MAX,
            ;
            assert(s@.take(i + 1).drop_last() =~= s@.take(i as int));
        }
        t = t + s[i] as u128;
        i += 1;
    }
    assert(s@.take(s@.len() as int) =~= s@);
    t
}

fn all_positive(s: &Vec<u32>) -> (r: bool)
    ensures
        r == positive(s@),
{
    let mut i: usize = 0;
    while i < s.len()
        invariant
            i <= s.len(),
            forall|k: int| 0 <= k < i ==> s@[k] > 0,
        decreases s.len() - i,
    {
        if s[i] == 0 {
            assert(!(s@[i as int] > 0));
            return false;
        }
        i += 1;
    }
    true
}

fn scale(s: &Vec<u32>, t: u128) -> (r: Vec<u32>)
    requires
        t == total(s@),
        t > 0,
    ensures
        r@ == scaled(s@),
{
    let mut r: Vec<u32> = Vec::new();
    let mut i: usize = 0;
    let mut prefix: u128 = 0;
    while i < s.len()
        invariant
            t == total(s@),
            t > 0,
            i == r.len() <= s.len(),
            prefix == total(s@.take(i as int)),
            forall|k: int| 0 <= k < i ==> r@[k] == scaled(s@)[k],
        decreases s.len() - i,
    {
        proof {
            lemma_mark(s@, i as int);
            lemma_total_prefix(s@, i as int);
            lemma_total_prefix(s@, i + 1);
            lemma_total_bounds(s@);
            assert(s@.take(i + 1).drop_last() =~= s@.take(i as int));
            assert(s@.len() * u32::MAX <= usize::MAX * u32::MAX) by (nonlinear_arith)
                requires
                    s@.len() <= usize::MAX,
            ;
            let a = total(s@.take(i as int));
            let b = total(s@.take(i + 1));
            assert(WHOLE * a <= WHOLE * (usize::MAX * u32::MAX) && WHOLE * b <= WHOLE * (usize::MAX
                * u32::MAX) && WHOLE * a >= 0 && WHOLE * b >= 0) by (nonlinear_arith)
                requires
                    0 <= a <= usize::MAX * u32::MAX,
                    0 <= b <= usize::MAX * u32::MAX,
            ;
        }
        let a: u128 = WHOLE as u128 * prefix / t;
        prefix = prefix + s[i] as u128;
        let b: u128 = WHOLE as u128 * prefix / t;
        r.push((b - a) as u32);
        i += 1;
    }
    assert(r@ =~= scaled(s@));
    r
}

fn fitted(n: usize, s: Vec<u32>) -> (r: Vec<u32>)
    ensures
        r@ == fit(n as nat, s@),
{
    if s.len() != n || !all_positive(&s) {
        return even(n);
    }
    if n == 0 {
        assert(total(s@) == 0);
        assert(scaled(s@) =~= Seq::<u32>::empty());
        return Vec::new();
    }
    let t = sum(&s);
    proof {
        lemma_total_bounds(s@);
    }
    if t == WHOLE as u128 {
        return s;
    }
    let r = scale(&s, t);
    if all_positive(&r) {
        r
    } else {
        even(n)
    }
}

/// One share per child, at this split and every split below it.
pub open spec fn parallel<T>(t: Tree<T>) -> bool
    decreases t,
{
    match t {
        Tree::Leaf(_) => true,
        Tree::Split { axis, children, ratios } => ratios.len() == children.len() && all_parallel(
            children,
        ),
    }
}

pub open spec fn all_parallel<T>(s: Seq<Tree<T>>) -> bool
    decreases s,
{
    if s.len() == 0 {
        true
    } else {
        all_parallel(s.subrange(0, s.len() - 1)) && parallel(s[s.len() - 1])
    }
}

/// A layout in order: every split has at least two children and no more than
/// there are parts, one share per child, every share positive, and the
/// shares add up to the whole.
pub open spec fn in_order<T>(t: Tree<T>) -> bool
    decreases t,
{
    match t {
        Tree::Leaf(_) => true,
        Tree::Split { axis, children, ratios } => {
            &&& 2 <= children.len() <= WHOLE
            &&& ratios.len() == children.len()
            &&& positive(ratios)
            &&& total(ratios) == WHOLE
            &&& all_in_order(children)
        },
    }
}

pub open spec fn all_in_order<T>(s: Seq<Tree<T>>) -> bool
    decreases s,
{
    if s.len() == 0 {
        true
    } else {
        all_in_order(s.subrange(0, s.len() - 1)) && in_order(s[s.len() - 1])
    }
}

proof fn lemma_all_parallel<T>(s: Seq<Tree<T>>)
    ensures
        all_parallel(s) <==> forall|i: int| 0 <= i < s.len() ==> parallel(#[trigger] s[i]),
    decreases s.len(),
{
    if s.len() > 0 {
        let r = s.subrange(0, s.len() - 1);
        lemma_all_parallel(r);
        if all_parallel(s) {
            assert forall|i: int| 0 <= i < s.len() implies parallel(#[trigger] s[i]) by {
                if i < s.len() - 1 {
                    assert(r[i] == s[i]);
                }
            }
        } else if forall|i: int| 0 <= i < s.len() ==> parallel(#[trigger] s[i]) {
            assert forall|i: int| 0 <= i < r.len() implies parallel(#[trigger] r[i]) by {
                assert(r[i] == s[i]);
            }
        }
    }
}

/// A list of layouts is in order if each of them is.
pub proof fn lemma_all_in_order<T>(s: Seq<Tree<T>>)
    ensures
        all_in_order(s) <==> forall|i: int| 0 <= i < s.len() ==> in_order(#[trigger] s[i]),
    decreases s.len(),
{
    if s.len() > 0 {
        let r = s.subrange(0, s.len() - 1);
        lemma_all_in_order(r);
        if all_in_order(s) {
            assert forall|i: int| 0 <= i < s.len() implies in_order(#[trigger] s[i]) by {
                if i < s.len() - 1 {
                    assert(r[i] == s[i]);
                }
            }
        } else if forall|i: int| 0 <= i < s.len() ==> in_order(#[trigger] s[i]) {
            assert forall|i: int| 0 <= i < r.len() implies in_order(#[trigger] r[i]) by {
                assert(r[i] == s[i]);
            }
        }
    }
}

/// The tree with its shares fitted, at every split.
pub open spec fn normal<T>(t: Tree<T>) -> Tree<T>
    decreases t,
{
    match t {
        Tree::Leaf(id) => Tree::Leaf(id),
        Tree::Split { axis, children, ratios } => Tree::Split {
            axis,
            children: all_normal(children),
            ratios: fit(children.len(), ratios),
        },
    }
}

pub open spec fn all_normal<T>(s: Seq<Tree<T>>) -> Seq<Tree<T>>
    decreases s,
{
    if s.len() == 0 {
        Seq::empty()
    } else {
        all_normal(s.subrange(0, s.len() - 1)).push(normal(s[s.len() - 1]))
    }
}

/// The tree with even shares at every split.
pub open spec fn equal<T>(t: Tree<T>) -> Tree<T>
    decreases t,
{
    match t {
        Tree::Leaf(id) => Tree::Leaf(id),
        Tree::Split { axis, children, ratios } => Tree::Split {
            axis,
            children: all_equal(children),
            ratios: even_shares(children.len()),
        },
    }
}

pub open spec fn all_equal<T>(s: Seq<Tree<T>>) -> Seq<Tree<T>>
    decreases s,
{
    if s.len() == 0 {
        Seq::empty()
    } else {
        all_equal(s.subrange(0, s.len() - 1)).push(equal(s[s.len() - 1]))
    }
}

fn normalised<T>(n: Node<T>) -> (r: Node<T>)
    ensures
        tree(r) == normal(tree(n)),
    decreases n,
{
    let ghost orig = n;
    match n {
        Node::Leaf(id) => Node::Leaf(id),
        Node::Split { axis, children, ratios } => {
            let ghost all = children@;
            let count = children.len();
            let mut rest = children;
            let mut out: Vec<Node<T>> = Vec::new();
            let ghost mut i: int = 0;
            while rest.len() > 0
                invariant
                    n == orig,
                    orig matches Node::Split { children: c, .. } && c@ == all,
                    0 <= i <= all.len(),
                    rest@ == all.subrange(i, all.len() as int),
                    trees(out@) == all_normal(trees(all.subrange(0, i))),
                    out.len() == i,
                decreases rest.len(),
            {
                let c = rest.remove(0);
                assert(c == all[i]);
                let d = normalised(c);
                let ghost before = out@;
                out.push(d);
                proof {
                    let taken = all.subrange(0, i + 1);
                    assert(taken.subrange(0, i) =~= all.subrange(0, i));
                    assert(out@.subrange(0, out@.len() - 1) =~= before);
                    lemma_trees(taken);
                    assert(trees(taken).subrange(0, trees(taken).len() - 1) =~= trees(
                        all.subrange(0, i),
                    ));
                    i = i + 1;
                }
            }
            proof {
                assert(all.subrange(0, all.len() as int) =~= all);
                lemma_trees(all);
            }
            Node::Split { axis, children: out, ratios: fitted(count, ratios) }
        },
    }
}

fn equalised<T>(n: Node<T>) -> (r: Node<T>)
    ensures
        tree(r) == equal(tree(n)),
    decreases n,
{
    let ghost orig = n;
    match n {
        Node::Leaf(id) => Node::Leaf(id),
        Node::Split { axis, children, ratios } => {
            let ghost all = children@;
            let count = children.len();
            let mut rest = children;
            let mut out: Vec<Node<T>> = Vec::new();
            let ghost mut i: int = 0;
            while rest.len() > 0
                invariant
                    n == orig,
                    orig matches Node::Split { children: c, .. } && c@ == all,
                    0 <= i <= all.len(),
                    rest@ == all.subrange(i, all.len() as int),
                    trees(out@) == all_equal(trees(all.subrange(0, i))),
                    out.len() == i,
                decreases rest.len(),
            {
                let c = rest.remove(0);
                assert(c == all[i]);
                let d = equalised(c);
                let ghost before = out@;
                out.push(d);
                proof {
                    let taken = all.subrange(0, i + 1);
                    assert(taken.subrange(0, i) =~= all.subrange(0, i));
                    assert(out@.subrange(0, out@.len() - 1) =~= before);
                    lemma_trees(taken);
                    assert(trees(taken).subrange(0, trees(taken).len() - 1) =~= trees(
                        all.subrange(0, i),
                    ));
                    i = i + 1;
                }
            }
            proof {
                assert(all.subrange(0, all.len() as int) =~= all);
                lemma_trees(all);
            }
            Node::Split { axis, children: out, ratios: even(count) }
        },
    }
}

/// The subtree at a path.
pub open spec fn subtree<T>(t: Tree<T>, path: Seq<usize>) -> Option<Tree<T>>
    decreases path.len(),
{
    if path.len() == 0 {
        Some(t)
    } else {
        match t {
            Tree::Leaf(_) => None,
            Tree::Split { children, .. } => if path[0] < children.len() {
                subtree(children[path[0] as int], path.skip(1))
            } else {
                None
            },
        }
    }
}

/// `t` with the subtree at a path replaced.
pub open spec fn put<T>(t: Tree<T>, path: Seq<usize>, sub: Tree<T>) -> Tree<T>
    decreases path.len(),
{
    if path.len() == 0 {
        sub
    } else {
        match t {
            Tree::Leaf(_) => t,
            Tree::Split { axis, children, ratios } => if path[0] < children.len() {
                Tree::Split {
                    axis,
                    children: children.update(
                        path[0] as int,
                        put(children[path[0] as int], path.skip(1), sub),
                    ),
                    ratios,
                }
            } else {
                t
            },
        }
    }
}

impl<T> Node<T> {
    pub fn leaf(id: T) -> (r: Self)
        ensures
            r@ == Tree::Leaf(id),
    {
        Node::Leaf(id)
    }

    /// An evenly divided split.
    pub fn split_even(axis: Axis, children: Vec<Node<T>>) -> (r: Self)
        ensures
            r@ == (Tree::Split {
                axis,
                children: trees(children@),
                ratios: even_shares(children@.len()),
            }),
    {
        let ratios = even(children.len());
        Node::Split { axis, children, ratios }
    }

    /// Restore the shares on this split and every split below it: one per
    /// child, all positive, adding up to the whole. Anything inconsistent
    /// becomes an even split rather than an error.
    pub fn normalise(&mut self)
        ensures
            final(self)@ == normal(old(self)@),
    {
        let mut own: Node<T> = Node::Split {
            axis: Axis::Horizontal,
            children: Vec::new(),
            ratios: Vec::new(),
        };
        std::mem::swap(self, &mut own);
        *self = normalised(own);
    }

    /// Reset every split, at every depth, to even shares.
    pub fn equalise(&mut self)
        ensures
            final(self)@ == equal(old(self)@),
    {
        let mut own: Node<T> = Node::Split {
            axis: Axis::Horizontal,
            children: Vec::new(),
            ratios: Vec::new(),
        };
        std::mem::swap(self, &mut own);
        *self = equalised(own);
    }

    /// The node at a path, if the path stays inside the tree.
    pub fn at_path(&self, path: &[usize]) -> (r: Option<&Node<T>>)
        ensures
            match r {
                None => subtree(self@, path@) is None,
                Some(n) => subtree(self@, path@) == Some(n@),
            },
    {
        let mut node = self;
        let mut k: usize = 0;
        assert(path@.skip(0) =~= path@);
        while k < path.len()
            invariant
                k <= path.len(),
                subtree(self@, path@) == subtree(node@, path@.skip(k as int)),
            decreases path.len() - k,
        {
            assert(path@.skip(k as int)[0] == path@[k as int]);
            assert(path@.skip(k as int).skip(1) =~= path@.skip(k + 1));
            match node {
                Node::Leaf(_) => {
                    return None;
                },
                Node::Split { children, .. } => {
                    proof {
                        lemma_trees(children@);
                    }
                    if path[k] < children.len() {
                        node = &children[path[k]];
                    } else {
                        return None;
                    }
                },
            }
            k += 1;
        }
        assert(path@.skip(k as int) =~= Seq::<usize>::empty());
        Some(node)
    }

    /// The node at a path, to change it in place.
    pub fn at_path_mut(&mut self, path: &[usize]) -> (r: Option<&mut Node<T>>)
        ensures
            match r {
                None => subtree(old(self)@, path@) is None && *final(self) == *old(self),
                Some(n) => subtree(old(self)@, path@) == Some(tree(*n)) && final(self)@ == put(
                    old(self)@,
                    path@,
                    tree(*final(n)),
                ),
            },
    {
        if self.at_path(path).is_none() {
            return None;
        }
        assert(path@.skip(0) =~= path@);
        Some(self.descend(path, 0))
    }

    fn descend(&mut self, path: &[usize], k: usize) -> (n: &mut Node<T>)
        requires
            k <= path.len(),
            subtree(old(self)@, path@.skip(k as int)) is Some,
        ensures
            subtree(old(self)@, path@.skip(k as int)) == Some(tree(*n)),
            final(self)@ == put(old(self)@, path@.skip(k as int), tree(*final(n))),
        decreases path.len() - k,
    {
        if k == path.len() {
            assert(path@.skip(k as int) =~= Seq::<usize>::empty());
            return self;
        }
        proof {
            assert(path@.skip(k as int)[0] == path@[k as int]);
            assert(path@.skip(k as int).skip(1) =~= path@.skip(k + 1));
        }
        match self {
            Node::Leaf(_) => vstd::pervasive::unreached(),
            Node::Split { children, .. } => {
                let ix = path[k];
                proof {
                    lemma_trees(children@);
                    lemma_trees_update(children@, ix as int);
                }
                let ghost before = children@;
                let ghost whole = *final(children);
                let child = &mut children[ix];
                let ghost after = *final(child);
                let n = child.descend(path, k + 1);
                assert(whole@ == before.update(ix as int, after));
                assert(trees(whole@) == trees(before).update(ix as int, tree(after)));
                n
            },
        }
    }
}

proof fn lemma_trees_update<T>(s: Seq<Node<T>>, i: int)
    requires
        0 <= i < s.len(),
    ensures
        forall|n: Node<T>| #[trigger] trees(s.update(i, n)) == trees(s).update(i, tree(n)),
{
    lemma_trees(s);
    assert forall|n: Node<T>| #[trigger] trees(s.update(i, n)) == trees(s).update(i, tree(n)) by {
        lemma_trees(s.update(i, n));
        assert(trees(s.update(i, n)) =~= trees(s).update(i, tree(n)));
    }
}

/// The position of the first child that is the leaf `target`, or the number
/// of children if there is none.
pub open spec fn leaf_index(s: Seq<Tree<PaneId>>, target: PaneId) -> nat
    decreases s.len(),
{
    if s.len() == 0 || s[0] == Tree::Leaf(target) {
        0
    } else {
        1 + leaf_index(s.skip(1), target)
    }
}

/// The position of the first of the largest shares.
pub open spec fn largest(s: Seq<u32>) -> int
    decreases s.len(),
{
    if s.len() <= 1 {
        0
    } else {
        let k = largest(s.drop_last());
        if s.last() > s[k] {
            s.len() - 1
        } else {
            k
        }
    }
}

/// The shares once the child at `ix` has given half of its own to a new
/// child at `at`. A single part cannot be halved: there the new child gets
/// one part of the largest share instead.
pub open spec fn shared_out(s: Seq<u32>, ix: int, at: int) -> Seq<u32> {
    let f = if positive(s) {
        fit(s.len(), s)
    } else {
        s
    };
    let d = largest(f);
    if f[ix] == 1 && f[d] > 1 {
        f.update(d, (f[d] - 1) as u32).insert(at, 1)
    } else {
        let half = (f[ix] / 2) as u32;
        f.update(ix, (f[ix] - half) as u32).insert(at, half)
    }
}

/// The layout that splitting `target` gives, if it is there.
pub open spec fn split_tree(
    t: Tree<PaneId>,
    target: PaneId,
    direction: Direction,
    fresh: PaneId,
) -> Option<Tree<PaneId>>
    decreases t,
{
    match t {
        Tree::Leaf(id) => if id == target {
            Some(
                Tree::Split {
                    axis: direction.runs(),
                    children: if direction.before() {
                        seq![Tree::Leaf(fresh), Tree::Leaf(id)]
                    } else {
                        seq![Tree::Leaf(id), Tree::Leaf(fresh)]
                    },
                    ratios: even_shares(2),
                },
            )
        } else {
            None
        },
        Tree::Split { axis, children, ratios } => {
            let ix = leaf_index(children, target);
            if axis == direction.runs() && ix < children.len() {
                let at = if direction.before() {
                    ix as int
                } else {
                    ix as int + 1
                };
                Some(
                    normal(
                        Tree::Split {
                            axis,
                            children: children.insert(at, Tree::Leaf(fresh)),
                            ratios: shared_out(ratios, ix as int, at),
                        },
                    ),
                )
            } else {
                match split_first(children, target, direction, fresh) {
                    None => None,
                    Some(c) => Some(Tree::Split { axis, children: c, ratios }),
                }
            }
        },
    }
}

/// The children after the first one that holds `target` has been split.
pub open spec fn split_first(
    s: Seq<Tree<PaneId>>,
    target: PaneId,
    direction: Direction,
    fresh: PaneId,
) -> Option<Seq<Tree<PaneId>>>
    decreases s,
{
    if s.len() == 0 {
        None
    } else {
        match split_first(s.subrange(0, s.len() - 1), target, direction, fresh) {
            Some(r) => Some(r.push(s[s.len() - 1])),
            None => match split_tree(s[s.len() - 1], target, direction, fresh) {
                Some(t) => Some(s.subrange(0, s.len() - 1).push(t)),
                None => None,
            },
        }
    }
}

/// A split with a single child stands for that child.
pub open spec fn collapsed<T>(t: Tree<T>) -> Tree<T> {
    match t {
        Tree::Split { children, .. } => if children.len() == 1 {
            children[0]
        } else {
            t
        },
        Tree::Leaf(_) => t,
    }
}

/// The layout that removing `target` gives, if it can be removed: a lone root
/// leaf cannot.
pub open spec fn remove_tree(t: Tree<PaneId>, target: PaneId) -> Option<Tree<PaneId>>
    decreases t,
{
    match t {
        Tree::Leaf(_) => None,
        Tree::Split { axis, children, ratios } => {
            let ix = leaf_index(children, target);
            if ix < children.len() {
                let rest = children.remove(ix as int);
                let left = if ix < ratios.len() {
                    ratios.remove(ix as int)
                } else {
                    ratios
                };
                if rest.len() == 1 {
                    Some(rest[0])
                } else {
                    Some(normal(Tree::Split { axis, children: rest, ratios: left }))
                }
            } else {
                match remove_first(children, target) {
                    None => None,
                    Some(c) => Some(Tree::Split { axis, children: c, ratios }),
                }
            }
        },
    }
}

/// The children after `target` has been removed from the first one that
/// holds it.
pub open spec fn remove_first(s: Seq<Tree<PaneId>>, target: PaneId) -> Option<Seq<Tree<PaneId>>>
    decreases s,
{
    if s.len() == 0 {
        None
    } else {
        match remove_first(s.subrange(0, s.len() - 1), target) {
            Some(r) => Some(r.push(s[s.len() - 1])),
            None => match remove_tree(s[s.len() - 1], target) {
                Some(t) => Some(s.subrange(0, s.len() - 1).push(collapsed(t))),
                None => None,
            },
        }
    }
}

fn find_leaf(children: &Vec<Node<PaneId>>, target: PaneId) -> (n: usize)
    ensures
        n == leaf_index(trees(children@), target),
        n <= children.len(),
{
    proof {
        lemma_trees(children@);
    }
    let ghost all = trees(children@);
    assert(all.skip(0) =~= all);
    let mut i: usize = 0;
    while i < children.len()
        invariant
            i <= children.len(),
            all == trees(children@),
            all.len() == children.len(),
            forall|k: int| 0 <= k < children.len() ==> #[trigger] all[k] == tree(children@[k]),
            leaf_index(all, target) == i + leaf_index(all.skip(i as int), target),
        decreases children.len() - i,
    {
        assert(all.skip(i as int)[0] == all[i as int]);
        assert(all.skip(i as int).skip(1) =~= all.skip(i + 1));
        match &children[i] {
            Node::Leaf(id) => {
                if *id == target {
                    return i;
                }
            },
            Node::Split { .. } => {},
        }
        i += 1;
    }
    i
}

proof fn lemma_largest(s: Seq<u32>)
    requires
        s.len() > 0,
    ensures
        0 <= largest(s) < s.len(),
        forall|k: int| 0 <= k < s.len() ==> #[trigger] s[k] <= s[largest(s)],
    decreases s.len(),
{
    if s.len() > 1 {
        lemma_largest(s.drop_last());
        assert forall|k: int| 0 <= k < s.len() implies #[trigger] s[k] <= s[largest(s)] by {
            if k < s.len() - 1 {
                assert(s.drop_last()[k] == s[k]);
            }
        }
    }
}

fn find_largest(s: &Vec<u32>) -> (d: usize)
    requires
        s@.len() > 0,
    ensures
        d == largest(s@),
        d < s@.len(),
{
    let mut d: usize = 0;
    let mut i: usize = 1;
    while i < s.len()
        invariant
            1 <= i <= s.len(),
            d < i,
            d == largest(s@.take(i as int)),
        decreases s.len() - i,
    {
        assert(s@.take(i + 1).drop_last() =~= s@.take(i as int));
        if s[i] > s[d] {
            d = i;
        }
        i += 1;
    }
    assert(s@.take(i as int) =~= s@);
    d
}

fn share_out(s: Vec<u32>, ix: usize, at: usize) -> (r: Vec<u32>)
    requires
        ix < s@.len(),
        at <= s@.len(),
    ensures
        r@ == shared_out(s@, ix as int, at as int),
{
    let n = s.len();
    let mut f = if all_positive(&s) {
        fitted(n, s)
    } else {
        s
    };
    let d = find_largest(&f);
    if f[ix] == 1 && f[d] > 1 {
        let left: u32 = f[d] - 1;
        f.set(d, left);
        f.insert(at, 1);
    } else {
        let half: u32 = f[ix] / 2;
        let rest: u32 = f[ix] - half;
        f.set(ix, rest);
        f.insert(at, half);
    }
    f
}

fn split_node(n: Node<PaneId>, target: PaneId, direction: Direction, fresh: PaneId) -> (r: (
    Node<PaneId>,
    bool,
))
    requires
        parallel(tree(n)),
    ensures
        match split_tree(tree(n), target, direction, fresh) {
            None => !r.1 && tree(r.0) == tree(n),
            Some(t) => r.1 && tree(r.0) == t,
        },
    decreases n,
{
    let ghost orig = n;
    let axis = direction.axis();
    let before = direction.is_before();
    match n {
        Node::Leaf(id) => {
            if id != target {
                return (Node::Leaf(id), false);
            }
            let mut children: Vec<Node<PaneId>> = Vec::new();
            if before {
                children.push(Node::Leaf(fresh));
                children.push(Node::Leaf(id));
            } else {
                children.push(Node::Leaf(id));
                children.push(Node::Leaf(fresh));
            }
            proof {
                lemma_trees(children@);
                assert(trees(children@) =~= if before {
                    seq![Tree::Leaf(fresh), Tree::Leaf(id)]
                } else {
                    seq![Tree::Leaf(id), Tree::Leaf(fresh)]
                });
            }
            (Node::split_even(axis, children), true)
        },
        Node::Split { axis: own, children, ratios } => {
            let ghost all = children@;
            proof {
                lemma_trees(all);
                lemma_all_parallel(trees(all));
            }
            let ix = find_leaf(&children, target);
            if own == axis && ix < children.len() {
                let mut children = children;
                let at: usize = if before {
                    ix
                } else {
                    ix + 1
                };
                let ratios = share_out(ratios, ix, at);
                children.insert(at, Node::Leaf(fresh));
                proof {
                    lemma_trees(children@);
                    assert(trees(children@) =~= trees(all).insert(at as int, Tree::Leaf(fresh)));
                }
                return (normalised(Node::Split { axis: own, children, ratios }), true);
            }
            assert forall|k: int| 0 <= k < all.len() implies parallel(tree(#[trigger] all[k])) by {
                assert(trees(all)[k] == tree(all[k]));
            }
            let mut rest = children;
            let mut out: Vec<Node<PaneId>> = Vec::new();
            let mut done = false;
            let ghost mut i: int = 0;
            assert(trees(out@) =~= trees(all.subrange(0, 0)));
            while rest.len() > 0
                invariant
                    n == orig,
                    orig matches Node::Split { children: c, .. } && c@ == all,
                    forall|k: int| 0 <= k < all.len() ==> parallel(tree(#[trigger] all[k])),
                    0 <= i <= all.len(),
                    rest@ == all.subrange(i, all.len() as int),
                    out.len() == i,
                    match split_first(trees(all.subrange(0, i)), target, direction, fresh) {
                        None => !done && trees(out@) == trees(all.subrange(0, i)),
                        Some(s) => done && trees(out@) == s,
                    },
                decreases rest.len(),
            {
                let c = rest.remove(0);
                assert(c == all[i]);
                let ghost so_far = out@;
                let ghost taken = all.subrange(0, i + 1);
                proof {
                    lemma_trees(taken);
                    assert(taken.subrange(0, i) =~= all.subrange(0, i));
                    lemma_trees(all.subrange(0, i));
                    assert(trees(taken).subrange(0, trees(taken).len() - 1) =~= trees(
                        all.subrange(0, i),
                    ));
                    assert(trees(taken)[i] == tree(all[i]));
                }
                if done {
                    out.push(c);
                } else {
                    let (d, hit) = split_node(c, target, direction, fresh);
                    out.push(d);
                    done = hit;
                }
                proof {
                    assert(out@.subrange(0, out@.len() - 1) =~= so_far);
                    i = i + 1;
                }
            }
            assert(all.subrange(0, all.len() as int) =~= all);
            (Node::Split { axis: own, children: out, ratios }, done)
        },
    }
}

fn collapse(n: Node<PaneId>) -> (r: Node<PaneId>)
    ensures
        tree(r) == collapsed(tree(n)),
{
    match n {
        Node::Leaf(id) => Node::Leaf(id),
        Node::Split { axis, children, ratios } => {
            proof {
                lemma_trees(children@);
            }
            let mut children = children;
            if children.len() == 1 {
                children.remove(0)
            } else {
                Node::Split { axis, children, ratios }
            }
        },
    }
}

fn remove_node(n: Node<PaneId>, target: PaneId) -> (r: (Node<PaneId>, bool))
    ensures
        match remove_tree(tree(n), target) {
            None => !r.1 && tree(r.0) == tree(n),
            Some(t) => r.1 && tree(r.0) == t,
        },
    decreases n,
{
    let ghost orig = n;
    match n {
        Node::Leaf(id) => (Node::Leaf(id), false),
        Node::Split { axis, children, ratios } => {
            let ghost all = children@;
            proof {
                lemma_trees(all);
            }
            let ix = find_leaf(&children, target);
            if ix < children.len() {
                let mut children = children;
                let mut ratios = ratios;
                children.remove(ix);
                if ix < ratios.len() {
                    ratios.remove(ix);
                }
                proof {
                    lemma_trees(children@);
                    assert(trees(children@) =~= trees(all).remove(ix as int));
                }
                if children.len() == 1 {
                    return (children.remove(0), true);
                }
                return (normalised(Node::Split { axis, children, ratios }), true);
            }
            let mut rest = children;
            let mut out: Vec<Node<PaneId>> = Vec::new();
            let mut done = false;
            let ghost mut i: int = 0;
            assert(trees(out@) =~= trees(all.subrange(0, 0)));
            while rest.len() > 0
                invariant
                    n == orig,
                    orig matches Node::Split { children: c, .. } && c@ == all,
                    0 <= i <= all.len(),
                    rest@ == all.subrange(i, all.len() as int),
                    out.len() == i,
                    match remove_first(trees(all.subrange(0, i)), target) {
                        None => !done && trees(out@) == trees(all.subrange(0, i)),
                        Some(s) => done && trees(out@) == s,
                    },
                decreases rest.len(),
            {
                let c = rest.remove(0);
                assert(c == all[i]);
                let ghost so_far = out@;
                let ghost taken = all.subrange(0, i + 1);
                proof {
                    lemma_trees(taken);
                    assert(taken.subrange(0, i) =~= all.subrange(0, i));
                    lemma_trees(all.subrange(0, i));
                    assert(trees(taken).subrange(0, trees(taken).len() - 1) =~= trees(
                        all.subrange(0, i),
                    ));
                    assert(trees(taken)[i] == tree(all[i]));
                }
                if done {
                    out.push(c);
                } else {
                    let (d, hit) = remove_node(c, target);
                    if hit {
                        out.push(collapse(d));
                    } else {
                        out.push(d);
                    }
                    done = hit;
                }
                proof {
                    assert(out@.subrange(0, out@.len() - 1) =~= so_far);
                    i = i + 1;
                }
            }
            assert(all.subrange(0, all.len() as int) =~= all);
            (Node::Split { axis, children: out, ratios }, done)
        },
    }
}

/// The child indices from the root down to the first leaf `target`.
pub open spec fn route(t: Tree<PaneId>, target: PaneId) -> Option<Seq<usize>>
    decreases t,
{
    match t {
        Tree::Leaf(id) => if id == target {
            Some(Seq::empty())
        } else {
            None
        },
        Tree::Split { children, .. } => route_in(children, target),
    }
}

/// The child indices through the first of several layouts that holds
/// `target`.
pub open spec fn route_in(s: Seq<Tree<PaneId>>, target: PaneId) -> Option<Seq<usize>>
    decreases s,
{
    if s.len() == 0 {
        None
    } else {
        match route_in(s.subrange(0, s.len() - 1), target) {
            Some(p) => Some(p),
            None => match route(s[s.len() - 1], target) {
                Some(p) => Some(seq![(s.len() - 1) as usize] + p),
                None => None,
            },
        }
    }
}

/// The least share that a minimum leaves: no more than half of the whole, and
/// never nothing at all.
pub open spec fn least_share(min: int) -> int {
    if min < 1 {
        1
    } else if min > WHOLE / 2 {
        WHOLE as int / 2
    } else {
        min
    }
}

/// How far the divider between shares `a` and `b` moves when asked to move
/// by `delta` and neither side may drop below `least`.
pub open spec fn divider_move(a: int, b: int, delta: int, least: int) -> int {
    let low = if a > least {
        least - a
    } else {
        0
    };
    let high = if b > least {
        b - least
    } else {
        0
    };
    if delta < low {
        low
    } else if delta > high {
        high
    } else {
        delta
    }
}

/// The split after its divider has been asked to move, if it does.
pub open spec fn nudged<T>(t: Tree<T>, divider: int, delta: int, min: int) -> Option<Tree<T>> {
    match t {
        Tree::Leaf(_) => None,
        Tree::Split { axis, children, ratios } => if divider + 1 >= ratios.len() {
            None
        } else {
            let a = ratios[divider];
            let b = ratios[divider + 1];
            let d = divider_move(
                a as int,
                b as int,
                delta,
                least_share(min),
            );
            if -STILL < d < STILL {
                None
            } else {
                Some(
                    normal(
                        Tree::Split {
                            axis,
                            children,
                            ratios: ratios.update(divider, (a + d) as u32).update(
                                divider + 1,
                                (b - d) as u32,
                            ),
                        },
                    ),
                )
            }
        },
    }
}

/// The layout after a divider has been asked to move, if it does.
pub open spec fn resized<T>(
    t: Tree<T>,
    path: Seq<usize>,
    divider: int,
    delta: int,
    min: int,
) -> Option<Tree<T>> {
    match subtree(t, path) {
        None => None,
        Some(s) => match nudged(s, divider, delta, min) {
            None => None,
            Some(n) => Some(put(t, path, n)),
        },
    }
}

fn nudge<T>(n: Node<T>, divider: usize, delta: i128, min: u32) -> (r: (Node<T>, bool))
    ensures
        match nudged(tree(n), divider as int, delta as int, min as int) {
            None => !r.1 && tree(r.0) == tree(n),
            Some(t) => r.1 && tree(r.0) == t,
        },
{
    match n {
        Node::Leaf(id) => (Node::Leaf(id), false),
        Node::Split { axis, children, ratios } => {
            if divider >= ratios.len() || divider + 1 >= ratios.len() {
                return (Node::Split { axis, children, ratios }, false);
            }
            let a: i128 = ratios[divider] as i128;
            let b: i128 = ratios[divider + 1] as i128;
            let least: i128 = if min < 1 {
                1
            } else if min > WHOLE / 2 {
                (WHOLE / 2) as i128
            } else {
                min as i128
            };
            // The most either side can give up.
            let low: i128 = if a > least {
                least - a
            } else {
                0
            };
            let high: i128 = if b > least {
                b - least
            } else {
                0
            };
            let d: i128 = if delta < low {
                low
            } else if delta > high {
                high
            } else {
                delta
            };
            if -STILL < d && d < STILL {
                return (Node::Split { axis, children, ratios }, false);
            }
            let mut ratios = ratios;
            assert(a + b <= 2 * u32::MAX);
            let grown: u32 = #[verifier::truncate] ((a + d) as u32);
            let shrunk: u32 = #[verifier::truncate] ((b - d) as u32);
            ratios.set(divider, grown);
            ratios.set(divider + 1, shrunk);
            (normalised(Node::Split { axis, children, ratios }), true)
        },
    }
}

impl<T> Node<T> {
    /// Move the divider after child `divider` of the split at `path` by
    /// `delta` parts (positive grows the child before the divider). Only the
    /// two neighbouring children change. Clamped so neither drops below
    /// `min`, nor to nothing; returns whether anything moved.
    pub fn resize_divider(&mut self, path: &[usize], divider: usize, delta: i128, min: u32) -> (r:
        bool)
        ensures
            match resized(old(self)@, path@, divider as int, delta as int, min as int) {
                None => !r && final(self)@ == old(self)@,
                Some(t) => r && final(self)@ == t,
            },
    {
        match self.at_path_mut(path) {
            None => false,
            Some(n) => {
                let mut own: Node<T> = Node::Split {
                    axis: Axis::Horizontal,
                    children: Vec::new(),
                    ratios: Vec::new(),
                };
                std::mem::swap(n, &mut own);
                let (next, moved) = nudge(own, divider, delta, min);
                *n = next;
                proof {
                    lemma_put_same(old(self)@, path@);
                }
                moved
            },
        }
    }
}

proof fn lemma_put_same<T>(t: Tree<T>, path: Seq<usize>)
    ensures
        subtree(t, path) matches Some(s) ==> put(t, path, s) == t,
    decreases path.len(),
{
    if path.len() > 0 {
        if let Tree::Split { axis, children, ratios } = t {
            if path[0] < children.len() {
                let c = children[path[0] as int];
                lemma_put_same(c, path.skip(1));
                if let Some(s) = subtree(c, path.skip(1)) {
                    assert(children.update(path[0] as int, c) =~= children);
                }
            }
        }
    }
}

/// The deepest split on the way to `target`, above depth `depth`, that runs
/// along `axis`: its depth.
pub open spec fn enclosing(t: Tree<PaneId>, path: Seq<usize>, axis: Axis, depth: nat) -> Option<nat>
    decreases depth,
{
    if depth == 0 {
        None
    } else {
        let d = (depth - 1) as nat;
        match subtree(t, path.take(d as int)) {
            Some(Tree::Split { axis: a, .. }) => if a == axis {
                Some(d)
            } else {
                enclosing(t, path, axis, d)
            },
            _ => enclosing(t, path, axis, d),
        }
    }
}

/// The layout after a pane has been asked to grow along `axis`, if it does:
/// the nearest enclosing split that runs that way gives or takes at the
/// pane's own edge, towards the next sibling, or the previous one for the
/// last child.
pub open spec fn leaf_resized(
    t: Tree<PaneId>,
    target: PaneId,
    axis: Axis,
    delta: int,
    min: int,
) -> Option<Tree<PaneId>> {
    match route(t, target) {
        None => None,
        Some(path) => match enclosing(t, path, axis, path.len()) {
            None => None,
            Some(d) => {
                let parent = path.take(d as int);
                let ix = path[d as int] as int;
                let n = match subtree(t, parent) {
                    Some(Tree::Split { children, .. }) => children.len(),
                    _ => 0,
                };
                if ix + 1 < n {
                    resized(t, parent, ix, delta, min)
                } else if ix > 0 {
                    resized(t, parent, ix - 1, -delta, min)
                } else {
                    None
                }
            },
        },
    }
}

impl Node<PaneId> {
    /// The panes of the layout, in reading order.
    pub fn leaves(&self) -> (r: Vec<PaneId>)
        ensures
            r@ == leaves(self@),
        decreases *self,
    {
        match self {
            Node::Leaf(id) => {
                let mut out: Vec<PaneId> = Vec::new();
                out.push(*id);
                out
            },
            Node::Split { axis, children, ratios } => {
                let mut out: Vec<PaneId> = Vec::new();
                let mut i: usize = 0;
                proof {
                    lemma_trees(children@);
                }
                while i < children.len()
                    invariant
                        i <= children.len(),
                        *self matches Node::Split { children: c, .. } && c == *children,
                        out@ == all_leaves(trees(children@).subrange(0, i as int)),
                        trees(children@).len() == children.len(),
                        forall|k: int|
                            0 <= k < children.len() ==> #[trigger] trees(children@)[k] == tree(
                                children@[k],
                            ),
                    decreases children.len() - i,
                {
                    let mut more = children[i].leaves();
                    proof {
                        let s = trees(children@).subrange(0, i + 1);
                        assert(s.subrange(0, s.len() - 1) =~= trees(children@).subrange(
                            0,
                            i as int,
                        ));
                        assert(s[i as int] == trees(children@)[i as int]);
                    }
                    out.append(&mut more);
                    i += 1;
                }
                assert(trees(children@).subrange(0, trees(children@).len() as int) =~= trees(
                    children@,
                ));
                out
            },
        }
    }

    /// How many panes the layout holds.
    pub fn len(&self) -> (n: usize)
        ensures
            n == leaves(self@).len(),
    {
        self.leaves().len()
    }

    /// Child indices from the root down to `target`'s leaf.
    pub fn path_to(&self, target: &PaneId) -> (r: Option<NodePath>)
        ensures
            match r {
                None => route(self@, *target) is None,
                Some(p) => route(self@, *target) == Some(p@),
            },
        decreases *self,
    {
        match self {
            Node::Leaf(id) => {
                if *id == *target {
                    let p: Vec<usize> = Vec::new();
                    assert(p@ =~= Seq::<usize>::empty());
                    Some(p)
                } else {
                    None
                }
            },
            Node::Split { axis, children, ratios } => {
                let mut i: usize = 0;
                proof {
                    lemma_trees(children@);
                }
                while i < children.len()
                    invariant
                        i <= children.len(),
                        *self matches Node::Split { children: c, .. } && c == *children,
                        route_in(trees(children@).subrange(0, i as int), *target) is None,
                        trees(children@).len() == children.len(),
                        forall|k: int|
                            0 <= k < children.len() ==> #[trigger] trees(children@)[k] == tree(
                                children@[k],
                            ),
                    decreases children.len() - i,
                {
                    proof {
                        let s = trees(children@).subrange(0, i + 1);
                        assert(s.subrange(0, s.len() - 1) =~= trees(children@).subrange(
                            0,
                            i as int,
                        ));
                        assert(s[i as int] == trees(children@)[i as int]);
                    }
                    match children[i].path_to(target) {
                        Some(rest) => {
                            let mut rest = rest;
                            let ghost tail = rest@;
                            rest.insert(0, i);
                            proof {
                                assert(rest@ =~= seq![i] + tail);
                                lemma_route_prefix(trees(children@), *target, i + 1);
                            }
                            return Some(rest);
                        },
                        None => {},
                    }
                    i += 1;
                }
                assert(trees(children@).subrange(0, trees(children@).len() as int) =~= trees(
                    children@,
                ));
                None
            },
        }
    }

    /// Split `target` along `direction`, inserting `new_leaf`. The new pane
    /// takes half of the target's share; nothing else moves. A share too
    /// small to halve is left alone, and the new pane takes as little from
    /// the largest one.
    pub fn split(&mut self, target: &PaneId, direction: Direction, new_leaf: PaneId) -> (r: bool)
        requires
            parallel(old(self)@),
        ensures
            match split_tree(old(self)@, *target, direction, new_leaf) {
                None => !r && final(self)@ == old(self)@,
                Some(t) => r && final(self)@ == t,
            },
    {
        let mut own: Node<PaneId> = Node::Leaf(0);
        std::mem::swap(self, &mut own);
        let (next, done) = split_node(own, *target, direction, new_leaf);
        *self = next;
        done
    }

    /// Remove `target`, sharing its space out proportionally among the
    /// surviving siblings. A split left with a single child collapses into
    /// it, so the tree never keeps pointless one-way nodes.
    pub fn remove(&mut self, target: &PaneId) -> (r: bool)
        ensures
            match remove_tree(old(self)@, *target) {
                None => !r && final(self)@ == old(self)@,
                Some(t) => r && final(self)@ == t,
            },
    {
        let mut own: Node<PaneId> = Node::Leaf(0);
        std::mem::swap(self, &mut own);
        let (next, done) = remove_node(own, *target);
        *self = next;
        done
    }

    /// Grow (or shrink, for negative `delta`) the pane `target` along `axis`
    /// by parts of the nearest enclosing split that runs that way. The space
    /// comes from the next sibling, or the previous one for the last child,
    /// so the pane's own edge moves, never a far-away one.
    pub fn resize_leaf(&mut self, target: &PaneId, axis: Axis, delta: i64, min: u32) -> (r: bool)
        ensures
            match leaf_resized(old(self)@, *target, axis, delta as int, min as int) {
                None => !r && final(self)@ == old(self)@,
                Some(t) => r && final(self)@ == t,
            },
    {
        let path = match self.path_to(target) {
            None => {
                return false;
            },
            Some(p) => p,
        };
        let mut depth: usize = path.len();
        while depth > 0
            invariant
                *self == *old(self),
                depth <= path.len(),
                route(self@, *target) == Some(path@),
                enclosing(self@, path@, axis, path@.len()) == enclosing(
                    self@,
                    path@,
                    axis,
                    depth as nat,
                ),
            decreases depth,
        {
            depth -= 1;
            let parent = prefix(&path, depth);
            let ix = path[depth];
            let found: Option<usize> = match self.at_path(parent.as_slice()) {
                Some(Node::Split { axis: a, children, .. }) => {
                    proof {
                        lemma_trees(children@);
                    }
                    if *a == axis {
                        Some(children.len())
                    } else {
                        None
                    }
                },
                _ => None,
            };
            match found {
                Some(n) => {
                    if ix < n && ix + 1 < n {
                        return self.resize_divider(parent.as_slice(), ix, delta as i128, min);
                    } else if ix > 0 {
                        return self.resize_divider(
                            parent.as_slice(),
                            ix - 1,
                            -(delta as i128),
                            min,
                        );
                    } else {
                        return false;
                    }
                },
                None => {},
            }
        }
        false
    }
}

fn prefix(path: &Vec<usize>, n: usize) -> (r: Vec<usize>)
    requires
        n <= path.len(),
    ensures
        r@ == path@.take(n as int),
{
    let mut r: Vec<usize> = Vec::new();
    let mut i: usize = 0;
    while i < n
        invariant
            i <= n <= path.len(),
            r@ == path@.take(i as int),
        decreases n - i,
    {
        r.push(path[i]);
        assert(path@.take(i + 1) =~= path@.take(i as int).push(path@[i as int]));
        i += 1;
    }
    r
}

/// Once a prefix of the children holds the target, so do all of them, by the
/// same route.
proof fn lemma_route_prefix(s: Seq<Tree<PaneId>>, target: PaneId, k: int)
    requires
        0 <= k <= s.len(),
        route_in(s.subrange(0, k), target) is Some,
    ensures
        route_in(s, target) == route_in(s.subrange(0, k), target),
    decreases s.len() - k,
{
    if k == s.len() {
        assert(s.subrange(0, k) =~= s);
    } else {
        let next = s.subrange(0, k + 1);
        assert(next.subrange(0, next.len() - 1) =~= s.subrange(0, k));
        lemma_route_prefix(s, target, k + 1);
    }
}

/// `r` is `n` with every leaf replaced by something `f` gives for it.
pub open spec fn mapped<T, U, F: Fn(&T) -> U>(n: Tree<T>, r: Tree<U>, f: F) -> bool
    decreases n,
{
    match (n, r) {
        (Tree::Leaf(a), Tree::Leaf(b)) => call_ensures(f, (&a,), b),
        (
            Tree::Split { axis, children, ratios },
            Tree::Split { axis: axis2, children: children2, ratios: ratios2 },
        ) => axis == axis2 && ratios == ratios2 && all_mapped(children, children2, f),
        _ => false,
    }
}

pub open spec fn all_mapped<T, U, F: Fn(&T) -> U>(s: Seq<Tree<T>>, r: Seq<Tree<U>>, f: F) -> bool
    decreases s,
{
    if s.len() == 0 {
        r.len() == 0
    } else {
        &&& r.len() == s.len()
        &&& all_mapped(s.subrange(0, s.len() - 1), r.subrange(0, s.len() - 1), f)
        &&& mapped(s[s.len() - 1], r[s.len() - 1], f)
    }
}

impl<T> Node<T> {
    /// Rebuild the tree with every leaf transformed: used to swap pane ids
    /// for saved directories (and back) during workspace persistence.
    pub fn map<U, F: Fn(&T) -> U>(&self, f: &F) -> (r: Node<U>)
        requires
            forall|t: &T| call_requires(*f, (t,)),
        ensures
            mapped(self@, r@, *f),
        decreases *self,
    {
        match self {
            Node::Leaf(id) => Node::Leaf(f(id)),
            Node::Split { axis, children, ratios } => {
                let mut out: Vec<Node<U>> = Vec::new();
                let mut i: usize = 0;
                proof {
                    lemma_trees(children@);
                }
                while i < children.len()
                    invariant
                        forall|t: &T| call_requires(*f, (t,)),
                        i <= children.len(),
                        out.len() == i,
                        *self matches Node::Split { children: c, .. } && c == *children,
                        all_mapped(trees(children@).subrange(0, i as int), trees(out@), *f),
                        trees(children@).len() == children.len(),
                        forall|k: int|
                            0 <= k < children.len() ==> #[trigger] trees(children@)[k] == tree(
                                children@[k],
                            ),
                    decreases children.len() - i,
                {
                    let c = children[i].map(f);
                    let ghost before = out@;
                    out.push(c);
                    proof {
                        let s = trees(children@).subrange(0, i + 1);
                        assert(s.subrange(0, s.len() - 1) =~= trees(children@).subrange(
                            0,
                            i as int,
                        ));
                        assert(s[i as int] == trees(children@)[i as int]);
                        lemma_trees(out@);
                        lemma_trees(before);
                        assert(trees(out@).subrange(0, i as int) =~= trees(before));
                    }
                    i += 1;
                }
                assert(trees(children@).subrange(0, trees(children@).len() as int) =~= trees(
                    children@,
                ));
                let mut shares: Vec<u32> = Vec::new();
                let mut k: usize = 0;
                while k < ratios.len()
                    invariant
                        k <= ratios.len(),
                        shares@ == ratios@.take(k as int),
                    decreases ratios.len() - k,
                {
                    shares.push(ratios[k]);
                    assert(ratios@.take(k + 1) =~= ratios@.take(k as int).push(ratios@[k as int]));
                    k += 1;
                }
                assert(ratios@.take(ratios@.len() as int) =~= ratios@);
                Node::Split { axis: *axis, children: out, ratios: shares }
            },
        }
    }
}

/// Layouts one after the other have their panes one after the other.
pub proof fn lemma_all_leaves_concat<T>(a: Seq<Tree<T>>, b: Seq<Tree<T>>)
    ensures
        all_leaves(a + b) == all_leaves(a) + all_leaves(b),
    decreases b.len(),
{
    if b.len() == 0 {
        assert(a + b =~= a);
        assert(all_leaves(a) + all_leaves(b) =~= all_leaves(a));
    } else {
        let s = a + b;
        assert(s.subrange(0, s.len() - 1) =~= a + b.subrange(0, b.len() - 1));
        lemma_all_leaves_concat(a, b.subrange(0, b.len() - 1));
        assert(all_leaves(a) + (all_leaves(b.subrange(0, b.len() - 1)) + leaves(b[b.len() - 1]))
            =~= (all_leaves(a) + all_leaves(b.subrange(0, b.len() - 1))) + leaves(b[b.len() - 1]));
    }
}

proof fn lemma_one_leaf<T>(id: T)
    ensures
        all_leaves(seq![Tree::Leaf(id)]) == seq![id],
{
    let s = seq![Tree::Leaf(id)];
    assert(s.subrange(0, s.len() - 1) =~= Seq::<Tree<T>>::empty());
    assert(all_leaves(s.subrange(0, s.len() - 1)) + leaves(s[0]) =~= seq![id]);
}

proof fn lemma_single<T>(t: Tree<T>)
    ensures
        all_leaves(seq![t]) == leaves(t),
{
    let s = seq![t];
    assert(s.subrange(0, s.len() - 1) =~= Seq::<Tree<T>>::empty());
    assert(all_leaves(s.subrange(0, s.len() - 1)) + leaves(s[0]) =~= leaves(t));
}

/// The panes of a list that ends with `last`.
proof fn lemma_last_leaves<T>(s: Seq<Tree<T>>, x: T)
    requires
        s.len() > 0,
    ensures
        all_leaves(s) == all_leaves(s.subrange(0, s.len() - 1)) + leaves(s[s.len() - 1]),
        all_leaves(s).contains(x) <==> all_leaves(s.subrange(0, s.len() - 1)).contains(x) || leaves(
            s[s.len() - 1],
        ).contains(x),
{
    let a = all_leaves(s.subrange(0, s.len() - 1));
    let b = leaves(s[s.len() - 1]);
    assert(all_leaves(s) == a + b);
    if a.contains(x) {
        let i = choose|i: int| 0 <= i < a.len() && a[i] == x;
        assert((a + b)[i] == x);
    }
    if b.contains(x) {
        let i = choose|i: int| 0 <= i < b.len() && b[i] == x;
        assert((a + b)[a.len() + i] == x);
    }
    if (a + b).contains(x) {
        let i = choose|i: int| 0 <= i < (a + b).len() && (a + b)[i] == x;
        if i < a.len() {
            assert(a[i] == x);
        } else {
            assert(b[i - a.len()] == x);
        }
    }
}

/// Fitting the shares keeps the panes.
pub proof fn lemma_normal_leaves<T>(t: Tree<T>)
    ensures
        leaves(normal(t)) == leaves(t),
    decreases t,
{
    if let Tree::Split { axis, children, ratios } = t {
        lemma_all_normal_leaves(children);
    }
}

proof fn lemma_all_normal_leaves<T>(s: Seq<Tree<T>>)
    ensures
        all_leaves(all_normal(s)) == all_leaves(s),
        all_normal(s).len() == s.len(),
    decreases s,
{
    if s.len() > 0 {
        let r = s.subrange(0, s.len() - 1);
        lemma_all_normal_leaves(r);
        lemma_normal_leaves(s[s.len() - 1]);
        assert(all_normal(s).subrange(0, s.len() - 1) =~= all_normal(r));
    }
}

/// A layout in order is left alone by fitting.
pub proof fn lemma_normal_in_order<T>(t: Tree<T>)
    requires
        in_order(t),
    ensures
        normal(t) == t,
    decreases t,
{
    if let Tree::Split { axis, children, ratios } = t {
        lemma_all_normal_in_order(children);
    }
}

proof fn lemma_all_normal_in_order<T>(s: Seq<Tree<T>>)
    requires
        all_in_order(s),
    ensures
        all_normal(s) == s,
    decreases s,
{
    if s.len() > 0 {
        let r = s.subrange(0, s.len() - 1);
        lemma_all_normal_in_order(r);
        lemma_normal_in_order(s[s.len() - 1]);
        assert(r.push(s[s.len() - 1]) =~= s);
    }
}

/// Every split has at least two children and no more than there are parts.
pub open spec fn branching<T>(t: Tree<T>) -> bool
    decreases t,
{
    match t {
        Tree::Leaf(_) => true,
        Tree::Split { axis, children, ratios } => 2 <= children.len() <= WHOLE && all_branching(
            children,
        ),
    }
}

pub open spec fn all_branching<T>(s: Seq<Tree<T>>) -> bool
    decreases s,
{
    if s.len() == 0 {
        true
    } else {
        all_branching(s.subrange(0, s.len() - 1)) && branching(s[s.len() - 1])
    }
}

/// Whatever its shares were, fitting puts a layout in order.
pub proof fn lemma_normalise_restores<T>(t: Tree<T>)
    requires
        branching(t),
    ensures
        in_order(normal(t)),
        leaves(normal(t)) == leaves(t),
    decreases t,
{
    lemma_normal_leaves(t);
    if let Tree::Split { axis, children, ratios } = t {
        lemma_fit(children.len(), ratios);
        lemma_all_normalise_restores(children);
    }
}

proof fn lemma_all_normalise_restores<T>(s: Seq<Tree<T>>)
    requires
        all_branching(s),
    ensures
        all_in_order(all_normal(s)),
        all_normal(s).len() == s.len(),
    decreases s,
{
    if s.len() > 0 {
        let r = s.subrange(0, s.len() - 1);
        lemma_all_normalise_restores(r);
        lemma_normalise_restores(s[s.len() - 1]);
        assert(all_normal(s).subrange(0, s.len() - 1) =~= all_normal(r));
    }
}

/// Evening out keeps the panes, puts every share in order, and changes
/// nothing the second time.
pub proof fn lemma_equalise<T>(t: Tree<T>)
    ensures
        leaves(equal(t)) == leaves(t),
        equal(equal(t)) == equal(t),
        branching(t) ==> in_order(equal(t)),
    decreases t,
{
    if let Tree::Split { axis, children, ratios } = t {
        lemma_all_equalise(children);
        if branching(t) {
            lemma_even(children.len());
        }
    }
}

proof fn lemma_all_equalise<T>(s: Seq<Tree<T>>)
    ensures
        all_leaves(all_equal(s)) == all_leaves(s),
        all_equal(all_equal(s)) == all_equal(s),
        all_equal(s).len() == s.len(),
        all_branching(s) ==> all_in_order(all_equal(s)),
    decreases s,
{
    if s.len() > 0 {
        let r = s.subrange(0, s.len() - 1);
        lemma_all_equalise(r);
        lemma_equalise(s[s.len() - 1]);
        assert(all_equal(s).subrange(0, s.len() - 1) =~= all_equal(r));
    }
}

proof fn lemma_leaf_index(s: Seq<Tree<PaneId>>, target: PaneId)
    ensures
        leaf_index(s, target) <= s.len(),
        leaf_index(s, target) < s.len() ==> s[leaf_index(s, target) as int] == Tree::Leaf(target),
        forall|i: int| 0 <= i < leaf_index(s, target) ==> #[trigger] s[i] != Tree::Leaf(target),
    decreases s.len(),
{
    if s.len() > 0 && s[0] != Tree::Leaf(target) {
        lemma_leaf_index(s.skip(1), target);
        assert forall|i: int| 0 <= i < leaf_index(s, target) implies #[trigger] s[i] != Tree::Leaf(
            target,
        ) by {
            if i > 0 {
                assert(s.skip(1)[i - 1] == s[i]);
            }
        }
    }
}

/// The panes after a split: `fresh` stands next to an occurrence of
/// `target`.
pub open spec fn beside(
    before: Seq<PaneId>,
    after: Seq<PaneId>,
    i: int,
    target: PaneId,
    direction: Direction,
    fresh: PaneId,
) -> bool {
    &&& 0 <= i < before.len()
    &&& before[i] == target
    &&& after == before.insert(
        if direction.before() {
            i
        } else {
            i + 1
        },
        fresh,
    )
}

proof fn lemma_sibling_leaves(
    children: Seq<Tree<PaneId>>,
    ix: int,
    at: int,
    target: PaneId,
    direction: Direction,
    fresh: PaneId,
) -> (i: int)
    requires
        0 <= ix < children.len(),
        children[ix] == Tree::<PaneId>::Leaf(target),
        at == if direction.before() {
            ix
        } else {
            ix + 1
        },
    ensures
        beside(
            all_leaves(children),
            all_leaves(children.insert(at, Tree::Leaf(fresh))),
            i,
            target,
            direction,
            fresh,
        ),
{
    let raw = children.insert(at, Tree::Leaf(fresh));
    let left = children.take(at);
    let right = children.skip(at);
    let new = seq![Tree::<PaneId>::Leaf(fresh)];
    let old_leaf = seq![Tree::<PaneId>::Leaf(target)];
    assert(raw =~= left + new + right);
    assert(children =~= left + right);
    lemma_all_leaves_concat(left, right);
    lemma_all_leaves_concat(left + new, right);
    lemma_all_leaves_concat(left, new);
    lemma_one_leaf(fresh);
    lemma_one_leaf(target);
    let pos = all_leaves(left).len() as int;
    assert(all_leaves(raw) =~= all_leaves(children).insert(pos, fresh));
    if direction.before() {
        let tail = right.skip(1);
        assert(right =~= old_leaf + tail);
        lemma_all_leaves_concat(old_leaf, tail);
        assert(all_leaves(children)[pos] == target);
        pos
    } else {
        let head = left.drop_last();
        assert(left =~= head + old_leaf);
        lemma_all_leaves_concat(head, old_leaf);
        assert(all_leaves(children)[pos - 1] == target);
        pos - 1
    }
}

/// Splitting a pane adds exactly one pane, right next to it on the side
/// asked for, and keeps all others where they are; it fails exactly when the
/// pane is not there. `i` is where the pane that was split stands.
pub proof fn lemma_split_leaves(
    t: Tree<PaneId>,
    target: PaneId,
    direction: Direction,
    fresh: PaneId,
) -> (i: int)
    ensures
        match split_tree(t, target, direction, fresh) {
            None => !leaves(t).contains(target),
            Some(u) => beside(leaves(t), leaves(u), i, target, direction, fresh),
        },
    decreases t,
{
    match t {
        Tree::Leaf(id) => {
            if id == target {
                let u = split_tree(t, target, direction, fresh)->0;
                let c = u->children;
                lemma_one_leaf(fresh);
                lemma_one_leaf(id);
                let a = Tree::<PaneId>::Leaf(fresh);
                let b = Tree::<PaneId>::Leaf(id);
                if direction.before() {
                    assert(c =~= seq![a] + seq![b]);
                    lemma_all_leaves_concat(seq![a], seq![b]);
                    assert(leaves(u) =~= seq![id].insert(0, fresh));
                } else {
                    assert(c =~= seq![b] + seq![a]);
                    lemma_all_leaves_concat(seq![b], seq![a]);
                    assert(leaves(u) =~= seq![id].insert(1, fresh));
                }
            }
            0
        },
        Tree::Split { axis, children, ratios } => {
            lemma_leaf_index(children, target);
            let ix = leaf_index(children, target) as int;
            assert(leaves(t) == all_leaves(children));
            if axis == direction.runs() && ix < children.len() {
                let at = if direction.before() {
                    ix
                } else {
                    ix + 1
                };
                let raw = children.insert(at, Tree::Leaf(fresh));
                let u = Tree::Split { axis, children: raw, ratios: shared_out(ratios, ix, at) };
                assert(split_tree(t, target, direction, fresh) == Some(normal(u)));
                lemma_normal_leaves(u);
                assert(leaves(u) == all_leaves(raw));
                lemma_sibling_leaves(children, ix, at, target, direction, fresh)
            } else {
                let i = lemma_split_first_leaves(children, target, direction, fresh);
                if let Some(c) = split_first(children, target, direction, fresh) {
                    let u = Tree::Split { axis, children: c, ratios };
                    assert(split_tree(t, target, direction, fresh) == Some(u));
                    assert(leaves(u) == all_leaves(c));
                }
                i
            }
        },
    }
}

proof fn lemma_split_first_leaves(
    s: Seq<Tree<PaneId>>,
    target: PaneId,
    direction: Direction,
    fresh: PaneId,
) -> (i: int)
    ensures
        match split_first(s, target, direction, fresh) {
            None => !all_leaves(s).contains(target),
            Some(r) => beside(all_leaves(s), all_leaves(r), i, target, direction, fresh),
        },
    decreases s,
{
    if s.len() == 0 {
        0
    } else {
        let r = s.subrange(0, s.len() - 1);
        let last = s[s.len() - 1];
        let i = lemma_split_first_leaves(r, target, direction, fresh);
        let j = lemma_split_leaves(last, target, direction, fresh);
        lemma_last_leaves(s, target);
        match split_first(r, target, direction, fresh) {
            Some(q) => {
                let n = q.push(last);
                assert(n.subrange(0, n.len() - 1) =~= q);
                lemma_last_leaves(n, target);
                assert(all_leaves(n) =~= all_leaves(s).insert(
                    if direction.before() {
                        i
                    } else {
                        i + 1
                    },
                    fresh,
                ));
                i
            },
            None => match split_tree(last, target, direction, fresh) {
                Some(u) => {
                    let n = r.push(u);
                    assert(n.subrange(0, n.len() - 1) =~= r);
                    lemma_last_leaves(n, target);
                    let base = all_leaves(r).len();
                    assert(all_leaves(n) =~= all_leaves(s).insert(
                        if direction.before() {
                            base + j
                        } else {
                            base + j + 1
                        },
                        fresh,
                    ));
                    base + j
                },
                None => 0,
            },
        }
    }
}

/// The panes after a removal: one occurrence of `target` is gone.
pub open spec fn dropped(before: Seq<PaneId>, after: Seq<PaneId>, i: int, target: PaneId) -> bool {
    0 <= i < before.len() && before[i] == target && after == before.remove(i)
}

/// Removing a pane takes out exactly that pane and keeps all others in
/// order; it fails exactly when the layout is a lone leaf or does not hold
/// the pane. `i` is where the pane stood.
pub proof fn lemma_remove_leaves(t: Tree<PaneId>, target: PaneId) -> (i: int)
    ensures
        match remove_tree(t, target) {
            None => t is Leaf || !leaves(t).contains(target),
            Some(u) => t is Split && dropped(leaves(t), leaves(u), i, target),
        },
    decreases t,
{
    match t {
        Tree::Leaf(_) => 0,
        Tree::Split { axis, children, ratios } => {
            lemma_leaf_index(children, target);
            let ix = leaf_index(children, target) as int;
            assert(leaves(t) == all_leaves(children));
            if ix < children.len() {
                let rest = children.remove(ix);
                let left = children.take(ix);
                let right = children.skip(ix + 1);
                let gone = seq![Tree::<PaneId>::Leaf(target)];
                assert(children =~= left + gone + right);
                assert(rest =~= left + right);
                lemma_all_leaves_concat(left + gone, right);
                lemma_all_leaves_concat(left, gone);
                lemma_all_leaves_concat(left, right);
                lemma_one_leaf(target);
                let pos = all_leaves(left).len() as int;
                assert(all_leaves(rest) =~= leaves(t).remove(pos));
                if rest.len() == 1 {
                    assert(rest =~= seq![rest[0]]);
                    lemma_single(rest[0]);
                } else {
                    let shares = if ix < ratios.len() {
                        ratios.remove(ix)
                    } else {
                        ratios
                    };
                    let u = Tree::Split { axis, children: rest, ratios: shares };
                    lemma_normal_leaves(u);
                    assert(leaves(u) == all_leaves(rest));
                }
                pos
            } else {
                let i = lemma_remove_first_leaves(children, target);
                if let Some(c) = remove_first(children, target) {
                    let u = Tree::Split { axis, children: c, ratios };
                    assert(remove_tree(t, target) == Some(u));
                    assert(leaves(u) == all_leaves(c));
                }
                i
            }
        },
    }
}

proof fn lemma_collapsed_leaves<T>(t: Tree<T>)
    ensures
        leaves(collapsed(t)) == leaves(t),
{
    if let Tree::Split { axis, children, ratios } = t {
        if children.len() == 1 {
            assert(children =~= seq![children[0]]);
            lemma_single(children[0]);
        }
    }
}

proof fn lemma_remove_first_leaves(s: Seq<Tree<PaneId>>, target: PaneId) -> (i: int)
    requires
        forall|i: int| 0 <= i < s.len() ==> #[trigger] s[i] != Tree::Leaf(target),
    ensures
        match remove_first(s, target) {
            None => !all_leaves(s).contains(target),
            Some(r) => dropped(all_leaves(s), all_leaves(r), i, target),
        },
    decreases s,
{
    if s.len() == 0 {
        0
    } else {
        let r = s.subrange(0, s.len() - 1);
        let last = s[s.len() - 1];
        assert forall|i: int| 0 <= i < r.len() implies #[trigger] r[i] != Tree::Leaf(target) by {
            assert(r[i] == s[i]);
        }
        let i = lemma_remove_first_leaves(r, target);
        let j = lemma_remove_leaves(last, target);
        lemma_last_leaves(s, target);
        match remove_first(r, target) {
            Some(q) => {
                let n = q.push(last);
                assert(n.subrange(0, n.len() - 1) =~= q);
                lemma_last_leaves(n, target);
                assert(all_leaves(n) =~= all_leaves(s).remove(i));
                i
            },
            None => match remove_tree(last, target) {
                Some(u) => {
                    lemma_collapsed_leaves(u);
                    let n = r.push(collapsed(u));
                    assert(n.subrange(0, n.len() - 1) =~= r);
                    lemma_last_leaves(n, target);
                    let base = all_leaves(r).len();
                    assert(all_leaves(n) =~= all_leaves(s).remove(base + j));
                    base + j
                },
                None => {
                    if let Tree::Leaf(id) = last {
                        assert(id != target);
                        assert(leaves(last) == seq![id]);
                    }
                    0
                },
            },
        }
    }
}

/// Removing the pane that a split put in gives back the same panes.
pub proof fn lemma_remove_undoes_split(
    t: Tree<PaneId>,
    target: PaneId,
    direction: Direction,
    fresh: PaneId,
)
    requires
        split_tree(t, target, direction, fresh) is Some,
        !leaves(t).contains(fresh),
    ensures
        ({
            let u = split_tree(t, target, direction, fresh)->0;
            remove_tree(u, fresh) matches Some(v) && leaves(v) == leaves(t)
        }),
{
    let u = split_tree(t, target, direction, fresh)->0;
    let i = lemma_split_leaves(t, target, direction, fresh);
    let at = if direction.before() {
        i
    } else {
        i + 1
    };
    assert(leaves(u)[at] == fresh);
    if let Tree::Leaf(id) = u {
        assert(leaves(u).len() == 1);
        assert(false);
    }
    let j = lemma_remove_leaves(u, fresh);
    let v = remove_tree(u, fresh)->0;
    if j != at {
        if j < at {
            assert(leaves(u)[j] == leaves(t)[j]);
        } else {
            assert(leaves(u)[j] == leaves(t)[j - 1]);
        }
        assert(false);
    }
    assert(leaves(v) =~= leaves(t));
}

proof fn lemma_leaves_some<T>(t: Tree<T>)
    requires
        in_order(t),
    ensures
        leaves(t).len() >= 1,
    decreases t,
{
    if let Tree::Split { axis, children, ratios } = t {
        lemma_all_leaves_some(children);
    }
}

proof fn lemma_all_leaves_some<T>(s: Seq<Tree<T>>)
    requires
        all_in_order(s),
    ensures
        all_leaves(s).len() >= s.len(),
    decreases s,
{
    if s.len() > 0 {
        lemma_all_leaves_some(s.subrange(0, s.len() - 1));
        lemma_leaves_some(s[s.len() - 1]);
    }
}

/// Splitting keeps a layout in order, as long as there are fewer panes than
/// parts.
pub proof fn lemma_split_in_order(
    t: Tree<PaneId>,
    target: PaneId,
    direction: Direction,
    fresh: PaneId,
)
    requires
        in_order(t),
        leaves(t).len() < WHOLE,
    ensures
        split_tree(t, target, direction, fresh) matches Some(u) ==> in_order(u),
    decreases t,
{
    match t {
        Tree::Leaf(id) => {
            if id == target {
                lemma_even(2);
                let c = (split_tree(t, target, direction, fresh)->0)->children;
                lemma_all_in_order(c);
            }
        },
        Tree::Split { axis, children, ratios } => {
            lemma_leaf_index(children, target);
            lemma_all_leaves_some(children);
            let ix = leaf_index(children, target) as int;
            if axis == direction.runs() && ix < children.len() {
                let at = if direction.before() {
                    ix
                } else {
                    ix + 1
                };
                let raw = children.insert(at, Tree::Leaf(fresh));
                lemma_all_in_order(children);
                assert forall|k: int| 0 <= k < raw.len() implies in_order(#[trigger] raw[k]) by {
                    if k < at {
                        assert(raw[k] == children[k]);
                    } else if k > at {
                        assert(raw[k] == children[k - 1]);
                    }
                }
                lemma_all_in_order(raw);
                lemma_all_normal_in_order(raw);
                lemma_fit(raw.len(), shared_out(ratios, ix, at));
            } else {
                lemma_split_first_in_order(children, target, direction, fresh);
            }
        },
    }
}

proof fn lemma_split_first_in_order(
    s: Seq<Tree<PaneId>>,
    target: PaneId,
    direction: Direction,
    fresh: PaneId,
)
    requires
        all_in_order(s),
        all_leaves(s).len() < WHOLE,
    ensures
        split_first(s, target, direction, fresh) matches Some(r) ==> all_in_order(r) && r.len()
            == s.len(),
    decreases s,
{
    if s.len() > 0 {
        let r = s.subrange(0, s.len() - 1);
        let last = s[s.len() - 1];
        lemma_split_first_in_order(r, target, direction, fresh);
        lemma_split_in_order(last, target, direction, fresh);
        match split_first(r, target, direction, fresh) {
            Some(q) => {
                let n = q.push(last);
                assert(n.subrange(0, n.len() - 1) =~= q);
            },
            None => match split_tree(last, target, direction, fresh) {
                Some(u) => {
                    let n = r.push(u);
                    assert(n.subrange(0, n.len() - 1) =~= r);
                },
                None => {},
            },
        }
    }
}

proof fn lemma_total_insert(s: Seq<u32>, at: int, x: u32)
    requires
        0 <= at <= s.len(),
    ensures
        total(s.insert(at, x)) == total(s) + x,
    decreases s.len(),
{
    let t = s.insert(at, x);
    if at == s.len() {
        assert(t.drop_last() =~= s);
    } else {
        assert(t.drop_last() =~= s.drop_last().insert(at, x));
        lemma_total_insert(s.drop_last(), at, x);
    }
}

proof fn lemma_total_of_ones(s: Seq<u32>)
    requires
        forall|k: int| 0 <= k < s.len() ==> #[trigger] s[k] <= 1,
    ensures
        total(s) <= s.len(),
    decreases s.len(),
{
    if s.len() > 0 {
        assert(s[s.len() - 1] <= 1);
        lemma_total_of_ones(s.drop_last());
    }
}

proof fn lemma_shared_out(s: Seq<u32>, ix: int, at: int)
    requires
        positive(s),
        total(s) == WHOLE,
        s.len() < WHOLE,
        0 <= ix < s.len(),
        0 <= at <= s.len(),
    ensures
        s[largest(s)] > 1,
        0 <= largest(s) < s.len(),
        shared_out(s, ix, at).len() == s.len() + 1,
        positive(shared_out(s, ix, at)),
        total(shared_out(s, ix, at)) == WHOLE,
{
    let d = largest(s);
    lemma_largest(s);
    if s[d] <= 1 {
        assert forall|k: int| 0 <= k < s.len() implies #[trigger] s[k] <= 1 by {
            assert(s[k] <= s[d]);
        }
        lemma_total_of_ones(s);
    }
    let r = shared_out(s, ix, at);
    assert(s[ix] > 0 && s[d] > 0);
    let (mid, x) = if s[ix] == 1 {
        lemma_total_update(s, d, (s[d] - 1) as u32);
        (s.update(d, (s[d] - 1) as u32), 1u32)
    } else {
        let half = (s[ix] / 2) as u32;
        lemma_total_update(s, ix, (s[ix] - half) as u32);
        (s.update(ix, (s[ix] - half) as u32), half)
    };
    lemma_total_insert(mid, at, x);
    assert forall|k: int| 0 <= k < r.len() implies #[trigger] r[k] > 0 by {
        if k < at {
            assert(r[k] == mid[k] && s[k] > 0);
        } else if k > at {
            assert(r[k] == mid[k - 1] && s[k - 1] > 0);
        }
    }
}

/// What a split does to the split or the pane it happens at, `before` and
/// `after`: a pane becomes two halves; in a split that runs the right way the
/// new pane stands beside `target`, at `ix`, which halves its share with it,
/// and no other share changes. A share of a single part stays, and the
/// single part for the new pane comes from the share at `giver`.
pub open spec fn halves(
    before: Tree<PaneId>,
    after: Tree<PaneId>,
    ix: int,
    giver: int,
    target: PaneId,
    direction: Direction,
    fresh: PaneId,
) -> bool {
    match before {
        Tree::Leaf(id) => {
            &&& id == target
            &&& after == Tree::Split {
                axis: direction.runs(),
                children: if direction.before() {
                    seq![Tree::Leaf(fresh), Tree::Leaf(target)]
                } else {
                    seq![Tree::Leaf(target), Tree::Leaf(fresh)]
                },
                ratios: seq![(WHOLE / 2) as u32, (WHOLE / 2) as u32],
            }
        },
        Tree::Split { axis, children, ratios } => {
            let at = if direction.before() {
                ix
            } else {
                ix + 1
            };
            let half = (ratios[ix] / 2) as u32;
            &&& axis == direction.runs()
            &&& 0 <= ix < children.len()
            &&& children[ix] == Tree::<PaneId>::Leaf(target)
            &&& 0 <= giver < children.len()
            &&& ratios[ix] == 1 ==> giver != ix && ratios[giver] > 1
            &&& after == Tree::Split {
                axis,
                children: children.insert(at, Tree::Leaf(fresh)),
                ratios: if ratios[ix] > 1 {
                    ratios.update(ix, (ratios[ix] - half) as u32).insert(at, half)
                } else {
                    ratios.update(giver, (ratios[giver] - 1) as u32).insert(at, 1)
                },
            }
        },
    }
}

proof fn lemma_sibling_halves(
    axis: Axis,
    children: Seq<Tree<PaneId>>,
    ratios: Seq<u32>,
    target: PaneId,
    direction: Direction,
    fresh: PaneId,
)
    requires
        in_order((Tree::Split { axis, children, ratios })),
        children.len() < WHOLE,
        axis == direction.runs(),
        leaf_index(children, target) < children.len(),
    ensures
        ({
            let t = Tree::Split { axis, children, ratios };
            let u = split_tree(t, target, direction, fresh);
            u is Some && halves(
                t,
                u->0,
                leaf_index(children, target) as int,
                largest(ratios),
                target,
                direction,
                fresh,
            )
        }),
{
    lemma_leaf_index(children, target);
    let ix = leaf_index(children, target) as int;
    let at = if direction.before() {
        ix
    } else {
        ix + 1
    };
    let raw = children.insert(at, Tree::Leaf(fresh));
    lemma_all_in_order(children);
    assert forall|k: int| 0 <= k < raw.len() implies in_order(#[trigger] raw[k]) by {
        if k < at {
            assert(raw[k] == children[k]);
        } else if k > at {
            assert(raw[k] == children[k - 1]);
        }
    }
    lemma_all_in_order(raw);
    lemma_all_normal_in_order(raw);
    lemma_shared_out(ratios, ix, at);
    assert(ratios[ix] > 0);
}

/// Splitting a pane moves nothing else: at one place of the layout the pane
/// shares its room with the new one, and every other part of the layout, with
/// all its shares, is what it was.
pub proof fn lemma_split_moves_nothing_else(
    t: Tree<PaneId>,
    target: PaneId,
    direction: Direction,
    fresh: PaneId,
) -> (r: (Seq<usize>, int, int))
    requires
        in_order(t),
        leaves(t).len() < WHOLE,
        split_tree(t, target, direction, fresh) is Some,
    ensures
        ({
            let u = split_tree(t, target, direction, fresh)->0;
            &&& subtree(t, r.0) is Some
            &&& subtree(u, r.0) is Some
            &&& u == put(t, r.0, subtree(u, r.0)->0)
            &&& halves(subtree(t, r.0)->0, subtree(u, r.0)->0, r.1, r.2, target, direction, fresh)
        }),
    decreases t,
{
    let here = Seq::<usize>::empty();
    match t {
        Tree::Leaf(_) => {
            assert(even_shares(2) =~= seq![(WHOLE / 2) as u32, (WHOLE / 2) as u32]);
            (here, 0, 0)
        },
        Tree::Split { axis, children, ratios } => {
            lemma_all_leaves_some(children);
            let ix = leaf_index(children, target) as int;
            if axis == direction.runs() && ix < children.len() {
                lemma_sibling_halves(axis, children, ratios, target, direction, fresh);
                (here, ix, largest(ratios))
            } else {
                let (k, path, i, g) = lemma_split_first_moves(children, target, direction, fresh);
                let c = split_first(children, target, direction, fresh)->0;
                let whole = seq![k as usize] + path;
                assert(whole.skip(1) =~= path);
                assert(whole[0] == k);
                let sub = subtree(c[k], path)->0;
                assert(subtree(t, whole) == subtree(children[k], path));
                assert(subtree(Tree::Split { axis, children: c, ratios }, whole) == Some(sub));
                assert(put(t, whole, sub) == Tree::Split {
                    axis,
                    children: children.update(k, put(children[k], path, sub)),
                    ratios,
                });
                (whole, i, g)
            }
        },
    }
}

proof fn lemma_split_first_moves(
    s: Seq<Tree<PaneId>>,
    target: PaneId,
    direction: Direction,
    fresh: PaneId,
) -> (r: (int, Seq<usize>, int, int))
    requires
        all_in_order(s),
        s.len() <= WHOLE,
        all_leaves(s).len() < WHOLE,
        split_first(s, target, direction, fresh) is Some,
    ensures
        ({
            let c = split_first(s, target, direction, fresh)->0;
            &&& 0 <= r.0 < s.len()
            &&& c == s.update(r.0, c[r.0])
            &&& subtree(s[r.0], r.1) is Some
            &&& subtree(c[r.0], r.1) is Some
            &&& c[r.0] == put(s[r.0], r.1, subtree(c[r.0], r.1)->0)
            &&& halves(
                subtree(s[r.0], r.1)->0,
                subtree(c[r.0], r.1)->0,
                r.2,
                r.3,
                target,
                direction,
                fresh,
            )
        }),
    decreases s,
{
    let n = s.len() - 1;
    let r = s.subrange(0, n);
    let last = s[n];
    let c = split_first(s, target, direction, fresh)->0;
    match split_first(r, target, direction, fresh) {
        Some(q) => {
            let (k, path, i, g) = lemma_split_first_moves(r, target, direction, fresh);
            assert(c =~= s.update(k, c[k]));
            (k, path, i, g)
        },
        None => {
            let (path, i, g) = lemma_split_moves_nothing_else(last, target, direction, fresh);
            assert(c =~= s.update(n, c[n]));
            (n, path, i, g)
        },
    }
}

/// Removing keeps a layout in order.
pub proof fn lemma_remove_in_order(t: Tree<PaneId>, target: PaneId)
    requires
        in_order(t),
    ensures
        remove_tree(t, target) matches Some(u) ==> in_order(u),
    decreases t,
{
    if let Tree::Split { axis, children, ratios } = t {
        lemma_leaf_index(children, target);
        lemma_all_in_order(children);
        let ix = leaf_index(children, target) as int;
        if ix < children.len() {
            let rest = children.remove(ix);
            assert forall|k: int| 0 <= k < rest.len() implies in_order(#[trigger] rest[k]) by {
                if k < ix {
                    assert(rest[k] == children[k]);
                } else {
                    assert(rest[k] == children[k + 1]);
                }
            }
            lemma_all_in_order(rest);
            if rest.len() != 1 {
                lemma_all_normal_in_order(rest);
                lemma_fit(rest.len(), ratios.remove(ix));
            } else {
                assert(in_order(rest[0]));
            }
        } else {
            lemma_remove_first_in_order(children, target);
        }
    }
}

proof fn lemma_remove_first_in_order(s: Seq<Tree<PaneId>>, target: PaneId)
    requires
        all_in_order(s),
    ensures
        remove_first(s, target) matches Some(r) ==> all_in_order(r) && r.len() == s.len(),
    decreases s,
{
    if s.len() > 0 {
        let r = s.subrange(0, s.len() - 1);
        let last = s[s.len() - 1];
        lemma_remove_first_in_order(r, target);
        lemma_remove_in_order(last, target);
        match remove_first(r, target) {
            Some(q) => {
                let n = q.push(last);
                assert(n.subrange(0, n.len() - 1) =~= q);
            },
            None => match remove_tree(last, target) {
                Some(u) => {
                    let n = r.push(collapsed(u));
                    assert(n.subrange(0, n.len() - 1) =~= r);
                },
                None => {},
            },
        }
    }
}

proof fn lemma_put_in_order<T>(t: Tree<T>, path: Seq<usize>, sub: Tree<T>)
    requires
        in_order(t),
        in_order(sub),
    ensures
        in_order(put(t, path, sub)),
    decreases path.len(),
{
    if path.len() > 0 {
        if let Tree::Split { axis, children, ratios } = t {
            if path[0] < children.len() {
                let i = path[0] as int;
                lemma_all_in_order(children);
                lemma_put_in_order(children[i], path.skip(1), sub);
                let next = children.update(i, put(children[i], path.skip(1), sub));
                lemma_all_in_order(next);
            }
        }
    }
}

proof fn lemma_put_leaves<T>(t: Tree<T>, path: Seq<usize>, sub: Tree<T>)
    requires
        subtree(t, path) is Some,
        leaves(sub) == leaves(subtree(t, path)->0),
    ensures
        leaves(put(t, path, sub)) == leaves(t),
    decreases path.len(),
{
    if path.len() > 0 {
        if let Tree::Split { axis, children, ratios } = t {
            let i = path[0] as int;
            lemma_put_leaves(children[i], path.skip(1), sub);
            let c = put(children[i], path.skip(1), sub);
            let left = children.take(i);
            let right = children.skip(i + 1);
            assert(children =~= left + seq![children[i]] + right);
            assert(children.update(i, c) =~= left + seq![c] + right);
            lemma_all_leaves_concat(left + seq![children[i]], right);
            lemma_all_leaves_concat(left, seq![children[i]]);
            lemma_all_leaves_concat(left + seq![c], right);
            lemma_all_leaves_concat(left, seq![c]);
            lemma_single(c);
            lemma_single(children[i]);
        }
    }
}

/// A part of a layout in order is in order.
pub proof fn lemma_subtree_in_order<T>(t: Tree<T>, path: Seq<usize>)
    requires
        in_order(t),
    ensures
        subtree(t, path) matches Some(s) ==> in_order(s),
    decreases path.len(),
{
    if path.len() > 0 {
        if let Tree::Split { axis, children, ratios } = t {
            if path[0] < children.len() {
                lemma_all_in_order(children);
                lemma_subtree_in_order(children[path[0] as int], path.skip(1));
            }
        }
    }
}

/// Moving a divider keeps a layout in order and keeps its panes.
pub proof fn lemma_resize_in_order<T>(
    t: Tree<T>,
    path: Seq<usize>,
    divider: int,
    delta: int,
    min: int,
)
    requires
        in_order(t),
        0 <= divider,
    ensures
        resized(t, path, divider, delta, min) matches Some(u) ==> in_order(u) && leaves(u)
            == leaves(t),
{
    if let Some(s) = subtree(t, path) {
        lemma_subtree_in_order(t, path);
        if let Some(n) = nudged(s, divider, delta, min) {
            if let Tree::Split { axis, children, ratios } = s {
                let d = divider_move(
                    ratios[divider] as int,
                    ratios[divider + 1] as int,
                    delta,
                    least_share(min),
                );
                let next = ratios.update(divider, (ratios[divider] + d) as u32).update(
                    divider + 1,
                    (ratios[divider + 1] - d) as u32,
                );
                lemma_fit(children.len(), next);
                lemma_all_normal_in_order(children);
                lemma_put_in_order(t, path, n);
                lemma_normal_leaves(Tree::Split { axis, children, ratios: next });
                lemma_put_leaves(t, path, n);
            }
        }
    }
}

/// Changing one share changes the sum by the difference.
pub proof fn lemma_total_update(s: Seq<u32>, i: int, x: u32)
    requires
        0 <= i < s.len(),
    ensures
        total(s.update(i, x)) == total(s) - s[i] + x,
    decreases s.len(),
{
    if i == s.len() - 1 {
        assert(s.update(i, x).drop_last() =~= s.drop_last());
    } else {
        assert(s.update(i, x).drop_last() =~= s.drop_last().update(i, x));
        lemma_total_update(s.drop_last(), i, x);
    }
}

/// A divider moves only its two neighbours, and what one gains the other
/// gives: every other share stays, and neither neighbour ends below the
/// minimum unless it started there.
pub proof fn lemma_resize_moves_two<T>(t: Tree<T>, divider: int, delta: int, min: int)
    requires
        in_order(t),
        0 <= divider,
        nudged(t, divider, delta, min) is Some,
    ensures
        ({
            let before = t->ratios;
            let after = (nudged(t, divider, delta, min)->0)->ratios;
            let least = least_share(min);
            &&& after.len() == before.len()
            &&& forall|k: int|
                0 <= k < before.len() && k != divider && k != divider + 1 ==> after[k] == before[k]
            &&& after[divider] + after[divider + 1] == before[divider] + before[divider + 1]
            &&& after[divider] >= least || after[divider] >= before[divider]
            &&& after[divider + 1] >= least || after[divider + 1] >= before[divider + 1]
        }),
{
    if let Tree::Split { axis, children, ratios } = t {
        let a = ratios[divider];
        let b = ratios[divider + 1];
        let least = least_share(min);
        let d = divider_move(a as int, b as int, delta, least);
        lemma_total_two(ratios, divider);
        let one = ratios.update(divider, (a + d) as u32);
        let next = one.update(divider + 1, (b - d) as u32);
        lemma_total_update(ratios, divider, (a + d) as u32);
        lemma_total_update(one, divider + 1, (b - d) as u32);
        assert(ratios[divider] > 0 && ratios[divider + 1] > 0);
        assert(total(next) == WHOLE);
        assert forall|k: int| 0 <= k < next.len() implies #[trigger] next[k] > 0 by {
            assert(ratios[k] > 0);
        }
        assert(fit(children.len(), next) == next);
    }
}

/// Two neighbouring shares together are no more than all of them.
pub proof fn lemma_total_two(s: Seq<u32>, i: int)
    requires
        0 <= i,
        i + 1 < s.len(),
    ensures
        s[i] + s[i + 1] <= total(s),
    decreases s.len(),
{
    lemma_total_bounds(s.drop_last());
    if i + 1 == s.len() - 1 {
        lemma_total_bounds(s.drop_last().drop_last());
        assert(s.drop_last().last() == s[i]);
    } else {
        lemma_total_two(s.drop_last(), i);
    }
}

/// A route leads to its pane, and there is one exactly when the layout holds
/// the pane.
pub proof fn lemma_route(t: Tree<PaneId>, target: PaneId)
    requires
        in_order(t),
    ensures
        match route(t, target) {
            None => !leaves(t).contains(target),
            Some(p) => leaves(t).contains(target) && subtree(t, p) == Some(Tree::Leaf(target)),
        },
    decreases t,
{
    match t {
        Tree::Leaf(id) => {
            if id == target {
                assert(leaves(t)[0] == target);
            }
        },
        Tree::Split { axis, children, ratios } => {
            lemma_route_in(children, target);
            if let Some(p) = route_in(children, target) {
                assert(children[p[0] as int] == children[p[0] as int]);
            }
        },
    }
}

proof fn lemma_route_in(s: Seq<Tree<PaneId>>, target: PaneId)
    requires
        all_in_order(s),
        s.len() <= WHOLE,
    ensures
        match route_in(s, target) {
            None => !all_leaves(s).contains(target),
            Some(p) => {
                &&& all_leaves(s).contains(target)
                &&& p.len() > 0
                &&& p[0] < s.len()
                &&& subtree(s[p[0] as int], p.skip(1)) == Some(Tree::Leaf(target))
            },
        },
    decreases s,
{
    if s.len() > 0 {
        let r = s.subrange(0, s.len() - 1);
        let last = s[s.len() - 1];
        lemma_route_in(r, target);
        lemma_route(last, target);
        match route_in(r, target) {
            Some(p) => {
                let i = choose|i: int|
                    0 <= i < all_leaves(r).len() && all_leaves(r)[i] == target;
                assert(all_leaves(s)[i] == target);
            },
            None => match route(last, target) {
                Some(p) => {
                    let i = choose|i: int| 0 <= i < leaves(last).len() && leaves(last)[i] == target;
                    assert(all_leaves(s)[all_leaves(r).len() + i] == target);
                    assert((seq![(s.len() - 1) as usize] + p).skip(1) =~= p);
                },
                None => {},
            },
        }
    }
}

/// A tree in order has as many shares as children everywhere.
pub proof fn lemma_in_order_parallel<T>(t: Tree<T>)
    requires
        in_order(t),
    ensures
        parallel(t),
    decreases t,
{
    if let Tree::Split { axis, children, ratios } = t {
        lemma_all_in_order_parallel(children);
    }
}

proof fn lemma_all_in_order_parallel<T>(s: Seq<Tree<T>>)
    requires
        all_in_order(s),
    ensures
        all_parallel(s),
    decreases s,
{
    if s.len() > 0 {
        lemma_all_in_order_parallel(s.subrange(0, s.len() - 1));
        lemma_in_order_parallel(s[s.len() - 1]);
    }
}

/// A tree has a leaf.
pub proof fn lemma_has_leaf<T>(t: Tree<T>)
    requires
        in_order(t),
    ensures
        leaves(t).len() > 0,
    decreases t,
{
    if let Tree::Split { axis, children, ratios } = t {
        lemma_all_have_leaf(children);
    }
}

proof fn lemma_all_have_leaf<T>(s: Seq<Tree<T>>)
    requires
        all_in_order(s),
        s.len() > 0,
    ensures
        all_leaves(s).len() > 0,
    decreases s,
{
    lemma_has_leaf(s[s.len() - 1]);
}

/// The share that a pane has in the nearest split along an axis.
pub open spec fn share_along(t: Tree<PaneId>, target: PaneId, axis: Axis) -> Option<u32> {
    match route(t, target) {
        None => None,
        Some(path) => match enclosing(t, path, axis, path.len()) {
            None => None,
            Some(d) => match subtree(t, path.take(d as int)) {
                Some(Tree::Split { ratios, .. }) => if path[d as int] < ratios.len() {
                    Some(ratios[path[d as int] as int])
                } else {
                    None
                },
                _ => None,
            },
        },
    }
}

impl Node<PaneId> {
    /// The share that a pane has in the nearest enclosing split that runs
    /// along `axis`: the one a resize applies to. The pane's own extent
    /// equals its child's there.
    pub fn share_of(&self, target: &PaneId, axis: Axis) -> (r: Option<u32>)
        ensures
            r == share_along(self@, *target, axis),
    {
        let path = match self.path_to(target) {
            None => {
                return None;
            },
            Some(p) => p,
        };
        let mut depth: usize = path.len();
        while depth > 0
            invariant
                depth <= path.len(),
                route(self@, *target) == Some(path@),
                enclosing(self@, path@, axis, path@.len()) == enclosing(
                    self@,
                    path@,
                    axis,
                    depth as nat,
                ),
            decreases depth,
        {
            let d = depth - 1;
            let upto = vstd::slice::slice_subrange(path.as_slice(), 0, d);
            assert(upto@ =~= path@.take(d as int));
            match self.at_path(upto) {
                Some(Node::Split { axis: a, ratios, children }) => {
                    if *a == axis {
                        let ix = path[d];
                        return if ix < ratios.len() {
                            Some(ratios[ix])
                        } else {
                            None
                        };
                    }
                },
                _ => {},
            }
            depth = d;
        }
        None
    }
}

/// The layout while a divider is dragged: always moved relative to where the
/// drag began, so the divider tracks the pointer instead of accumulating
/// rounding from each event.
pub open spec fn dragged<T>(
    t: Tree<T>,
    path: Seq<usize>,
    divider: int,
    start: Seq<u32>,
    delta: int,
    min: int,
) -> Tree<T> {
    let back = match subtree(t, path) {
        Some(Tree::Split { axis, children, ratios }) => if ratios.len() == start.len() {
            put(t, path, Tree::Split { axis, children, ratios: start })
        } else {
            t
        },
        _ => t,
    };
    match resized(back, path, divider, delta, min) {
        None => back,
        Some(u) => u,
    }
}

pub(crate) fn copy_shares(v: &Vec<u32>) -> (r: Vec<u32>)
    ensures
        r@ == v@,
{
    let mut out: Vec<u32> = Vec::new();
    let mut k: usize = 0;
    while k < v.len()
        invariant
            k <= v.len(),
            out@ == v@.take(k as int),
        decreases v.len() - k,
    {
        out.push(v[k]);
        assert(v@.take(k + 1) =~= v@.take(k as int).push(v@[k as int]));
        k += 1;
    }
    assert(v@.take(v@.len() as int) =~= v@);
    out
}

impl<T> Node<T> {
    /// Drag the divider after child `divider` of the split at `path` to
    /// `delta` parts from where it was when the shares were `start`.
    pub fn drag_divider(
        &mut self,
        path: &[usize],
        divider: usize,
        start: &Vec<u32>,
        delta: i128,
        min: u32,
    )
        ensures
            final(self)@ == dragged(
                old(self)@,
                path@,
                divider as int,
                start@,
                delta as int,
                min as int,
            ),
    {
        let ghost t = self@;
        let fits = match self.at_path(path) {
            Some(Node::Split { ratios, .. }) => ratios.len() == start.len(),
            _ => false,
        };
        if fits {
            match self.at_path_mut(path) {
                None => {},
                Some(n) => {
                    let mut own: Node<T> = Node::Split {
                        axis: Axis::Horizontal,
                        children: Vec::new(),
                        ratios: Vec::new(),
                    };
                    std::mem::swap(n, &mut own);
                    match own {
                        Node::Leaf(id) => {
                            *n = Node::Leaf(id);
                        },
                        Node::Split { axis, children, ratios } => {
                            *n = Node::Split { axis, children, ratios: copy_shares(start) };
                        },
                    }
                },
            }
        }
        let _ = self.resize_divider(path, divider, delta, min);
    }
}

/// Dragging a divider keeps a layout in order and keeps its panes.
pub proof fn lemma_drag_in_order<T>(
    t: Tree<T>,
    path: Seq<usize>,
    divider: int,
    start: Seq<u32>,
    delta: int,
    min: int,
)
    requires
        in_order(t),
        0 <= divider,
        positive(start),
        total(start) == WHOLE,
    ensures
        in_order(dragged(t, path, divider, start, delta, min)),
        leaves(dragged(t, path, divider, start, delta, min)) == leaves(t),
{
    lemma_subtree_in_order(t, path);
    let back = match subtree(t, path) {
        Some(Tree::Split { axis, children, ratios }) => if ratios.len() == start.len() {
            put(t, path, Tree::Split { axis, children, ratios: start })
        } else {
            t
        },
        _ => t,
    };
    if let Some(Tree::Split { axis, children, ratios }) = subtree(t, path) {
        if ratios.len() == start.len() {
            let sub = Tree::Split { axis, children, ratios: start };
            assert(in_order(sub));
            lemma_put_in_order(t, path, sub);
            lemma_put_leaves(t, path, sub);
        }
    }
    lemma_resize_in_order(back, path, divider, delta, min);
}

/// Growing a pane keeps a layout in order and keeps its panes.
pub proof fn lemma_leaf_resize_in_order(
    t: Tree<PaneId>,
    target: PaneId,
    axis: Axis,
    delta: int,
    min: int,
)
    requires
        in_order(t),
    ensures
        leaf_resized(t, target, axis, delta, min) matches Some(u) ==> in_order(u) && leaves(u)
            == leaves(t),
{
    if let Some(path) = route(t, target) {
        if let Some(d) = enclosing(t, path, axis, path.len()) {
            let parent = path.take(d as int);
            let ix = path[d as int] as int;
            lemma_resize_in_order(t, parent, ix, delta, min);
            if ix > 0 {
                lemma_resize_in_order(t, parent, ix - 1, -delta, min);
            }
        }
    }
}

/// A layout in order branches everywhere.
pub proof fn lemma_in_order_branching<T>(t: Tree<T>)
    requires
        in_order(t),
    ensures
        branching(t),
    decreases t,
{
    if let Tree::Split { axis, children, ratios } = t {
        lemma_all_in_order_branching(children);
    }
}

proof fn lemma_all_in_order_branching<T>(s: Seq<Tree<T>>)
    requires
        all_in_order(s),
    ensures
        all_branching(s),
    decreases s,
{
    if s.len() > 0 {
        lemma_all_in_order_branching(s.subrange(0, s.len() - 1));
        lemma_in_order_branching(s[s.len() - 1]);
    }
}

/// The largest minimum share: no pane may insist on more.
pub const MOST_MINIMUM: u32 = 450_000_000;

/// A length as parts of a split, one child of which has `share` parts and is
/// `extent` long: rounded towards nothing.
pub open spec fn as_parts(length: int, share: int, extent: int) -> int {
    if length >= 0 {
        length * share / extent
    } else {
        -(-length * share / extent)
    }
}

/// A length as parts of a split, one child of which has `share` parts and is
/// `extent` long.
pub fn parts_of(length: i32, share: u32, extent: u32) -> (r: i64)
    requires
        extent > 0,
    ensures
        r == as_parts(length as int, share as int, extent as int),
{
    let size: u64 = if length >= 0 {
        length as u64
    } else {
        (-(length as i64)) as u64
    };
    proof {
        assert(size * share <= 0x8000_0000 * 0xffff_ffff) by (nonlinear_arith)
            requires
                0 <= size <= 0x8000_0000,
                0 <= share <= 0xffff_ffff,
        ;
        assert(size * share / (extent as int) <= size * share) by (nonlinear_arith)
            requires
                extent > 0,
                size * share >= 0,
        ;
    }
    let parts: u64 = size * share as u64 / extent as u64;
    if length >= 0 {
        parts as i64
    } else {
        -(parts as i64)
    }
}

/// The least share a child may be left with, given the least length a pane
/// may have.
pub fn least_parts(length: u32, share: u32, extent: u32) -> (r: u32)
    requires
        extent > 0,
    ensures
        r == if as_parts(length as int, share as int, extent as int) < MOST_MINIMUM {
            as_parts(length as int, share as int, extent as int)
        } else {
            MOST_MINIMUM as int
        },
{
    proof {
        assert(length * share <= 0xffff_ffff * 0xffff_ffff) by (nonlinear_arith)
            requires
                0 <= length <= 0xffff_ffff,
                0 <= share <= 0xffff_ffff,
        ;
    }
    let parts: u64 = length as u64 * share as u64 / extent as u64;
    if parts < MOST_MINIMUM as u64 {
        parts as u32
    } else {
        MOST_MINIMUM
    }
}

} // verus!
