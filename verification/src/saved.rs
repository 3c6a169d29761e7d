//! Pinned workspaces across restarts: split trees with pane ids swapped for
//! their shells' directories, and back.
use vstd::prelude::*;

use crate::panes::{
    all_branching, all_in_order, all_leaves, all_mapped, branching, in_order, leaves,
    lemma_has_leaf, lemma_normal_in_order, lemma_normalise_restores, lemma_trees, mapped, normal,
    tree, trees, Node, PaneId, Tree, WHOLE,
};
use crate::text::{
    all_digits, begins_with, chars_of, decimal, digits_value, has_prefix, is_digit,
    lemma_decimal_reads_back, read_digits, tail_of,
};
use crate::workspaces::{
    distinct, has_pane, index_in, lemma_ws_added_ok, model_ok, numbered, pane, tab_ok, tab_views,
    ws_added, ws_ok, ws_views, Model, Tab, TabState, Workspace, Workspaces, Ws,
};

verus! {

/// A tab to save: its layout with directories in place of panes, and which
/// of them is active, counted in reading order.
pub struct SavedTab {
    pub layout: Node<String>,
    pub active: usize,
}

/// A pinned workspace to save.
pub struct SavedWorkspace {
    pub name: String,
    pub active_tab: usize,
    pub tabs: Vec<SavedTab>,
}

/// A saved tab, as plain values.
pub ghost struct TabRecord {
    pub tree: Tree<Seq<char>>,
    pub active: int,
}

/// A saved workspace, as plain values.
pub ghost struct Record {
    pub name: Seq<char>,
    pub active_tab: int,
    pub tabs: Seq<TabRecord>,
}

/// A tree with every leaf replaced by what `g` gives for it.
pub open spec fn retree<T, U>(t: Tree<T>, g: spec_fn(T) -> U) -> Tree<U>
    decreases t,
{
    match t {
        Tree::Leaf(a) => Tree::Leaf(g(a)),
        Tree::Split { axis, children, ratios } => Tree::Split {
            axis,
            children: all_retree(children, g),
            ratios,
        },
    }
}

pub open spec fn all_retree<T, U>(s: Seq<Tree<T>>, g: spec_fn(T) -> U) -> Seq<Tree<U>>
    decreases s,
{
    if s.len() == 0 {
        Seq::empty()
    } else {
        all_retree(s.subrange(0, s.len() - 1), g).push(retree(s[s.len() - 1], g))
    }
}

/// A string's text.
pub open spec fn text() -> spec_fn(String) -> Seq<char> {
    |s: String| s@
}

impl View for SavedTab {
    type V = TabRecord;

    open spec fn view(&self) -> TabRecord {
        TabRecord { tree: retree(self.layout@, text()), active: self.active as int }
    }
}

pub open spec fn saved_tab_views(v: Seq<SavedTab>) -> Seq<TabRecord> {
    v.map_values(|t: SavedTab| t@)
}

impl View for SavedWorkspace {
    type V = Record;

    open spec fn view(&self) -> Record {
        Record {
            name: self.name@,
            active_tab: self.active_tab as int,
            tabs: saved_tab_views(self.tabs@),
        }
    }
}

pub open spec fn saved_views(v: Seq<SavedWorkspace>) -> Seq<Record> {
    v.map_values(|w: SavedWorkspace| w@)
}

proof fn lemma_all_retree<T, U>(s: Seq<Tree<T>>, g: spec_fn(T) -> U)
    ensures
        all_retree(s, g).len() == s.len(),
        forall|i: int| 0 <= i < s.len() ==> #[trigger] all_retree(s, g)[i] == retree(s[i], g),
    decreases s.len(),
{
    if s.len() > 0 {
        let r = s.subrange(0, s.len() - 1);
        lemma_all_retree(r, g);
        assert forall|i: int| 0 <= i < s.len() implies #[trigger] all_retree(s, g)[i] == retree(
            s[i],
            g,
        ) by {
            if i < s.len() - 1 {
                assert(r[i] == s[i]);
            }
        }
    }
}

proof fn lemma_retree_leaves<T, U>(t: Tree<T>, g: spec_fn(T) -> U)
    ensures
        leaves(retree(t, g)) == leaves(t).map_values(g),
        branching(retree(t, g)) == branching(t),
        in_order(retree(t, g)) == in_order(t),
    decreases t,
{
    match t {
        Tree::Leaf(a) => {
            assert(leaves(retree(t, g)) =~= leaves(t).map_values(g));
        },
        Tree::Split { axis, children, ratios } => {
            lemma_all_retree_leaves(children, g);
            lemma_all_retree(children, g);
        },
    }
}

proof fn lemma_all_retree_leaves<T, U>(s: Seq<Tree<T>>, g: spec_fn(T) -> U)
    ensures
        all_leaves(all_retree(s, g)) == all_leaves(s).map_values(g),
        all_branching(all_retree(s, g)) == all_branching(s),
        all_in_order(all_retree(s, g)) == all_in_order(s),
    decreases s,
{
    if s.len() == 0 {
        assert(all_leaves(all_retree(s, g)) =~= all_leaves(s).map_values(g));
    } else {
        let r = s.subrange(0, s.len() - 1);
        lemma_all_retree_leaves(r, g);
        lemma_retree_leaves(s[s.len() - 1], g);
        lemma_all_retree(s, g);
        lemma_all_retree(r, g);
        assert(all_retree(s, g).subrange(0, s.len() - 1) =~= all_retree(r, g));
        assert((all_leaves(r) + leaves(s[s.len() - 1])).map_values(g) =~= all_leaves(r).map_values(
            g,
        ) + leaves(s[s.len() - 1]).map_values(g));
    }
}

/// What a mapping gives, where its function gives what `g` does.
proof fn lemma_mapped<T, U, V, F: Fn(&T) -> U>(
    n: Tree<T>,
    r: Tree<U>,
    f: F,
    g: spec_fn(T) -> V,
    h: spec_fn(U) -> V,
)
    requires
        mapped(n, r, f),
        forall|a: T, b: U| #[trigger] call_ensures(f, (&a,), b) ==> g(a) == h(b),
    ensures
        retree(n, g) == retree(r, h),
    decreases n,
{
    match (n, r) {
        (
            Tree::Split { axis, children, ratios },
            Tree::Split { axis: axis2, children: children2, ratios: ratios2 },
        ) => {
            lemma_all_mapped(children, children2, f, g, h);
        },
        _ => {},
    }
}

proof fn lemma_all_mapped<T, U, V, F: Fn(&T) -> U>(
    s: Seq<Tree<T>>,
    r: Seq<Tree<U>>,
    f: F,
    g: spec_fn(T) -> V,
    h: spec_fn(U) -> V,
)
    requires
        all_mapped(s, r, f),
        forall|a: T, b: U| #[trigger] call_ensures(f, (&a,), b) ==> g(a) == h(b),
    ensures
        all_retree(s, g) == all_retree(r, h),
    decreases s,
{
    if s.len() > 0 {
        lemma_all_mapped(s.subrange(0, s.len() - 1), r.subrange(0, s.len() - 1), f, g, h);
        lemma_mapped(s[s.len() - 1], r[s.len() - 1], f, g, h);
    }
}

// --- Saving ---

/// The directory of a pane, by the first record for it.
pub open spec fn dir_of(cwds: Seq<(PaneId, String)>, home: Seq<char>, id: PaneId) -> Seq<char>
    decreases cwds.len(),
{
    if cwds.len() == 0 {
        home
    } else if cwds[0].0 == id {
        cwds[0].1@
    } else {
        dir_of(cwds.skip(1), home, id)
    }
}

pub open spec fn dirs(cwds: Seq<(PaneId, String)>, home: Seq<char>) -> spec_fn(PaneId) -> Seq<char> {
    |id: PaneId| dir_of(cwds, home, id)
}

/// A tab as it is saved.
pub open spec fn tab_record(t: Tab, cwds: Seq<(PaneId, String)>, home: Seq<char>) -> TabRecord {
    TabRecord {
        tree: retree(t.tree, dirs(cwds, home)),
        active: leaves(t.tree).index_of(t.active),
    }
}

/// A workspace as it is saved.
pub open spec fn record(w: Ws, cwds: Seq<(PaneId, String)>, home: Seq<char>) -> Record {
    Record {
        name: w.name,
        active_tab: w.active_tab,
        tabs: Seq::new(w.tabs.len(), |i: int| tab_record(w.tabs[i], cwds, home)),
    }
}

/// Every pinned workspace, as it is saved.
pub open spec fn records(list: Seq<Ws>, cwds: Seq<(PaneId, String)>, home: Seq<char>) -> Seq<Record>
    decreases list.len(),
{
    if list.len() == 0 {
        Seq::empty()
    } else if list.last().persist {
        records(list.drop_last(), cwds, home).push(record(list.last(), cwds, home))
    } else {
        records(list.drop_last(), cwds, home)
    }
}

/// The directory of a pane: where its shell is, else `home`.
pub fn directory_of(cwds: &Vec<(PaneId, String)>, home: &str, id: PaneId) -> (r: String)
    ensures
        r@ == dir_of(cwds@, home@, id),
{
    let mut i: usize = 0;
    assert(cwds@.skip(0) =~= cwds@);
    while i < cwds.len()
        invariant
            i <= cwds.len(),
            dir_of(cwds@, home@, id) == dir_of(cwds@.skip(i as int), home@, id),
        decreases cwds.len() - i,
    {
        assert(cwds@.skip(i as int)[0] == cwds@[i as int]);
        assert(cwds@.skip(i as int).skip(1) =~= cwds@.skip(i + 1));
        if cwds[i].0 == id {
            return cwds[i].1.clone();
        }
        i += 1;
    }
    home.to_owned()
}

fn save_tab(tab: &TabState, cwds: &Vec<(PaneId, String)>, home: &str) -> (r: SavedTab)
    requires
        tab_ok(tab@),
        forall|i: int, j: int|
            0 <= i < leaves(tab@.tree).len() && 0 <= j < leaves(tab@.tree).len() && leaves(
                tab@.tree,
            )[i] == tab@.active && leaves(tab@.tree)[j] == tab@.active ==> i == j,
    ensures
        r@ == tab_record(tab@, cwds@, home@),
{
    let f = |id: &PaneId| -> (r: String)
        ensures
            r@ == dir_of(cwds@, home@, *id),
        { directory_of(cwds, home, *id) };
    let layout = tab.layout.map(&f);
    proof {
        lemma_mapped(tab.layout@, layout@, f, dirs(cwds@, home@), text());
    }
    let order = tab.layout.leaves();
    let active = index_in(&order, tab.active);
    SavedTab { layout, active }
}

impl Workspaces {
    /// Every pinned workspace with pane ids swapped for their shells'
    /// current directories: `cwds` where it has one for the pane, else
    /// `home`.
    pub fn save_workspaces(&self, cwds: &Vec<(PaneId, String)>, home: &str) -> (r: Vec<
        SavedWorkspace,
    >)
        requires
            self.wf(),
        ensures
            saved_views(r@) == records(self@.list, cwds@, home@),
    {
        let ghost all = self@.list;
        let mut out: Vec<SavedWorkspace> = Vec::new();
        let mut w: usize = 0;
        assert(all.take(0) =~= Seq::empty());
        assert(saved_views(out@) =~= Seq::empty());
        while w < self.list.len()
            invariant
                w <= self.list.len(),
                all == self@.list,
                self.wf(),
                saved_views(out@) == records(all.take(w as int), cwds@, home@),
            decreases self.list.len() - w,
        {
            assert(all.take(w + 1).drop_last() =~= all.take(w as int));
            assert(all.take(w + 1).last() == self.list@[w as int]@);
            if self.list[w].persist {
                let one = self.save_one(w, cwds, home);
                let ghost before = out@;
                out.push(one);
                assert(saved_views(out@) =~= saved_views(before).push(one@));
            }
            w += 1;
        }
        assert(all.take(w as int) =~= all);
        out
    }

    fn save_one(&self, w: usize, cwds: &Vec<(PaneId, String)>, home: &str) -> (r: SavedWorkspace)
        requires
            self.wf(),
            w < self@.list.len(),
        ensures
            r@ == record(self@.list[w as int], cwds@, home@),
    {
        let ghost ws = self@.list[w as int];
        assert(ws_ok(ws));
        let mut tabs: Vec<SavedTab> = Vec::new();
        let mut t: usize = 0;
        while t < self.list[w as usize].tabs.len()
            invariant
                self.wf(),
                w < self.list.len(),
                ws == self@.list[w as int],
                ws_ok(ws),
                t <= self.list@[w as int].tabs.len(),
                tabs@.len() == t,
                forall|k: int|
                    0 <= k < t ==> (#[trigger] tabs@[k])@ == tab_record(ws.tabs[k], cwds@, home@),
            decreases self.list@[w as int].tabs.len() - t,
        {
            proof {
                let tab = ws.tabs[t as int];
                assert(tab_ok(tab));
                assert forall|i: int, j: int|
                    0 <= i < leaves(tab.tree).len() && 0 <= j < leaves(tab.tree).len() && leaves(
                        tab.tree,
                    )[i] == tab.active && leaves(tab.tree)[j] == tab.active implies i == j by {
                    assert(has_pane(self@.list, w as int, t as int, i));
                    assert(has_pane(self@.list, w as int, t as int, j));
                }
                assert(self.list@[w as int].tabs@[t as int]@ == tab);
            }
            tabs.push(save_tab(&self.list[w].tabs[t], cwds, home));
            t += 1;
        }
        let r = SavedWorkspace {
            name: self.list[w].name.clone(),
            active_tab: self.list[w].active_tab,
            tabs,
        };
        assert(r@.tabs =~= record(ws, cwds@, home@).tabs);
        r
    }
}

// --- Restoring ---

/// A tree with its leaves numbered in reading order, from `from` on.
pub open spec fn renumber<T>(t: Tree<T>, from: int) -> Tree<PaneId>
    decreases t,
{
    match t {
        Tree::Leaf(_) => Tree::Leaf(from as PaneId),
        Tree::Split { axis, children, ratios } => Tree::Split {
            axis,
            children: all_renumber(children, from),
            ratios,
        },
    }
}

pub open spec fn all_renumber<T>(s: Seq<Tree<T>>, from: int) -> Seq<Tree<PaneId>>
    decreases s,
{
    if s.len() == 0 {
        Seq::empty()
    } else {
        let r = s.subrange(0, s.len() - 1);
        all_renumber(r, from).push(renumber(s[s.len() - 1], from + all_leaves(r).len()))
    }
}

/// The numbers from `from` on.
pub open spec fn count_up(from: int, n: nat) -> Seq<PaneId> {
    Seq::new(n, |i: int| (from + i) as PaneId)
}

proof fn lemma_renumber<T>(t: Tree<T>, from: int)
    ensures
        leaves(renumber(t, from)) == count_up(from, leaves(t).len()),
        branching(renumber(t, from)) == branching(t),
        in_order(renumber(t, from)) == in_order(t),
    decreases t,
{
    match t {
        Tree::Leaf(a) => {
            assert(leaves(renumber(t, from)) =~= count_up(from, 1));
        },
        Tree::Split { axis, children, ratios } => {
            lemma_all_renumber(children, from);
        },
    }
}

proof fn lemma_all_renumber<T>(s: Seq<Tree<T>>, from: int)
    ensures
        all_renumber(s, from).len() == s.len(),
        all_leaves(all_renumber(s, from)) == count_up(from, all_leaves(s).len()),
        all_branching(all_renumber(s, from)) == all_branching(s),
        all_in_order(all_renumber(s, from)) == all_in_order(s),
    decreases s,
{
    if s.len() == 0 {
        assert(all_leaves(all_renumber(s, from)) =~= count_up(from, 0));
    } else {
        let r = s.subrange(0, s.len() - 1);
        lemma_all_renumber(r, from);
        lemma_renumber(s[s.len() - 1], from + all_leaves(r).len());
        assert(all_renumber(s, from).subrange(0, s.len() - 1) =~= all_renumber(r, from));
        assert(all_leaves(all_renumber(s, from)) =~= count_up(from, all_leaves(s).len()));
    }
}

/// The directories of some saved tabs, in reading order.
pub open spec fn tab_dirs(tabs: Seq<TabRecord>) -> Seq<Seq<char>>
    decreases tabs.len(),
{
    if tabs.len() == 0 {
        Seq::empty()
    } else {
        tab_dirs(tabs.drop_last()) + leaves(tabs.last().tree)
    }
}

/// The directories of some saved workspaces, in reading order.
pub open spec fn all_dirs(list: Seq<Record>) -> Seq<Seq<char>>
    decreases list.len(),
{
    if list.len() == 0 {
        Seq::empty()
    } else {
        all_dirs(list.drop_last()) + tab_dirs(list.last().tabs)
    }
}

/// A saved tab with fresh panes.
pub open spec fn restored_tab(t: TabRecord, from: int) -> Tab {
    Tab {
        tree: normal(renumber(t.tree, from)),
        active: (from + if t.active < leaves(t.tree).len() {
            t.active
        } else {
            0
        }) as PaneId,
    }
}

pub open spec fn restored_tabs(tabs: Seq<TabRecord>, from: int) -> Seq<Tab>
    decreases tabs.len(),
{
    if tabs.len() == 0 {
        Seq::empty()
    } else {
        restored_tabs(tabs.drop_last(), from).push(
            restored_tab(tabs.last(), from + tab_dirs(tabs.drop_last()).len()),
        )
    }
}

/// A saved workspace with fresh panes, pinned as it was.
pub open spec fn restored_ws(w: Record, from: int) -> Ws {
    Ws {
        name: w.name,
        persist: true,
        tabs: restored_tabs(w.tabs, from),
        active_tab: if w.active_tab < w.tabs.len() {
            w.active_tab
        } else {
            w.tabs.len() - 1
        },
    }
}

pub open spec fn restored_list(list: Seq<Record>) -> Seq<Ws>
    decreases list.len(),
{
    if list.len() == 0 {
        Seq::empty()
    } else {
        restored_list(list.drop_last()).push(
            restored_ws(list.last(), all_dirs(list.drop_last()).len() as int),
        )
    }
}

/// The number in a name such as `workspace 2`.
pub open spec fn number_in(name: Seq<char>) -> Option<int> {
    let rest = name.skip("workspace "@.len() as int);
    let n = if rest.len() > 0 && rest[0] == '+' {
        rest.skip(1)
    } else {
        rest
    };
    if begins_with(name, "workspace "@) && all_digits(n) && digits_value(n) <= u64::MAX {
        Some(digits_value(n))
    } else {
        None
    }
}

/// The number for the next new workspace: past every one that is taken.
pub open spec fn next_number(list: Seq<Record>) -> int
    decreases list.len(),
{
    if list.len() == 0 {
        1
    } else {
        let n = next_number(list.drop_last());
        match number_in(list.last().name) {
            Some(k) => if k + 1 > n {
                k + 1
            } else {
                n
            },
            None => n,
        }
    }
}

/// Whether a saved workspace has tabs, each with a pane, and a name that
/// leaves room for another one.
pub open spec fn usable(w: Record) -> bool {
    &&& w.tabs.len() > 0
    &&& forall|t: int| 0 <= t < w.tabs.len() ==> branching((#[trigger] w.tabs[t]).tree)
    &&& match number_in(w.name) {
        Some(n) => n + 1 < u64::MAX,
        None => true,
    }
}

/// A window with nothing in it yet.
pub open spec fn vacant() -> Model {
    Model { list: Seq::empty(), active: 0, selected: 0, next_number: 1, next_pane: 0 }
}

/// A window as it opens: the saved workspaces, or else a first one.
pub open spec fn restored(list: Seq<Record>) -> Model {
    if list.len() == 0 {
        ws_added(vacant())
    } else {
        Model {
            list: restored_list(list),
            active: 0,
            selected: 0,
            next_number: next_number(list),
            next_pane: all_dirs(list).len() as int,
        }
    }
}

proof fn lemma_branching_leaf<T>(t: Tree<T>)
    requires
        branching(t),
    ensures
        leaves(t).len() > 0,
{
    lemma_normalise_restores(t);
    lemma_has_leaf(normal(t));
}

proof fn lemma_restored_tab(t: TabRecord, from: int)
    requires
        branching(t.tree),
        0 <= t.active,
    ensures
        tab_ok(restored_tab(t, from)),
        leaves(restored_tab(t, from).tree) == count_up(from, leaves(t.tree).len()),
{
    lemma_renumber(t.tree, from);
    lemma_normalise_restores(renumber(t.tree, from));
    lemma_branching_leaf(t.tree);
    let r = restored_tab(t, from);
    let i = if t.active < leaves(t.tree).len() {
        t.active
    } else {
        0
    };
    assert(leaves(r.tree)[i] == r.active);
}

proof fn lemma_tab_dirs_take(tabs: Seq<TabRecord>, k: int)
    requires
        0 <= k <= tabs.len(),
    ensures
        tab_dirs(tabs.take(k)).len() <= tab_dirs(tabs).len(),
    decreases tabs.len(),
{
    if k < tabs.len() {
        assert(tabs.drop_last().take(k) =~= tabs.take(k));
        lemma_tab_dirs_take(tabs.drop_last(), k);
    } else {
        assert(tabs.take(k) =~= tabs);
    }
}

/// The tabs of a workspace come after everything before them.
proof fn lemma_restored_ws(before: Seq<Ws>, w: Record, n: int, k: int)
    requires
        distinct(before),
        numbered(before, n),
        usable(w),
        forall|t: int| 0 <= t < w.tabs.len() ==> (#[trigger] w.tabs[t]).active >= 0,
        0 <= k <= w.tabs.len(),
        0 <= n,
        n + tab_dirs(w.tabs).len() <= u64::MAX,
    ensures
        ({
            let ws = Ws { tabs: restored_tabs(w.tabs.take(k), n), ..restored_ws(w, n) };
            let list = before.push(ws);
            &&& distinct(list)
            &&& numbered(list, n + tab_dirs(w.tabs.take(k)).len())
            &&& ws.tabs.len() == k
            &&& forall|t: int| 0 <= t < ws.tabs.len() ==> tab_ok(#[trigger] ws.tabs[t])
        }),
    decreases k,
{
    let ws = Ws { tabs: restored_tabs(w.tabs.take(k), n), ..restored_ws(w, n) };
    let list = before.push(ws);
    let at = before.len() as int;
    if k == 0 {
        assert forall|v: int, u: int, i: int| #[trigger] has_pane(list, v, u, i) implies has_pane(
            before,
            v,
            u,
            i,
        ) && pane(before, v, u, i) == pane(list, v, u, i) by {
            assert(v != at);
        }
    } else {
        lemma_restored_ws(before, w, n, k - 1);
        let tabs = w.tabs.take(k);
        assert(tabs.drop_last() =~= w.tabs.take(k - 1));
        assert(tabs.last() == w.tabs[k - 1]);
        let ws0 = Ws { tabs: restored_tabs(w.tabs.take(k - 1), n), ..restored_ws(w, n) };
        let list0 = before.push(ws0);
        let from = n + tab_dirs(tabs.drop_last()).len();
        lemma_restored_tab(tabs.last(), from);
        lemma_tab_dirs_take(w.tabs, k);
        let last = restored_tab(tabs.last(), from);
        assert(ws.tabs == ws0.tabs.push(last));
        assert forall|v: int, u: int, i: int| #[trigger] has_pane(list, v, u, i) && !(v == at && u
            == k - 1) implies has_pane(list0, v, u, i) && pane(list0, v, u, i) == pane(
            list,
            v,
            u,
            i,
        ) by {
            if v == at {
                assert(ws.tabs[u] == ws0.tabs[u]);
            } else {
                assert(list[v] == list0[v]);
            }
        }
        assert forall|i: int| #[trigger] has_pane(list, at, k - 1, i) implies pane(
            list,
            at,
            k - 1,
            i,
        ) == from + i && i < leaves(tabs.last().tree).len() by {
            assert(list[at].tabs[k - 1] == last);
        }
        assert forall|v: int, t: int, i: int, x: int, u: int, j: int| #[trigger]
            has_pane(list, v, t, i) && #[trigger] has_pane(list, x, u, j) && pane(list, v, t, i)
                == pane(list, x, u, j) implies v == x && t == u && i == j by {
            if v == at && t == k - 1 {
                if !(x == at && u == k - 1) {
                    assert(has_pane(list0, x, u, j));
                }
            } else if x == at && u == k - 1 {
                assert(has_pane(list0, v, t, i));
            } else {
                assert(has_pane(list0, x, u, j) && has_pane(list0, v, t, i));
            }
        }
    }
}

/// What is restored keeps the panes apart and everything in order.
proof fn lemma_restored_list(list: Seq<Record>)
    requires
        forall|w: int| 0 <= w < list.len() ==> usable(#[trigger] list[w]),
        forall|w: int, t: int|
            0 <= w < list.len() && 0 <= t < list[w].tabs.len() ==> (
            #[trigger] list[w].tabs[t]).active >= 0,
        forall|w: int| 0 <= w < list.len() ==> (#[trigger] list[w]).active_tab >= 0,
        all_dirs(list).len() <= u64::MAX,
    ensures
        restored_list(list).len() == list.len(),
        distinct(restored_list(list)),
        numbered(restored_list(list), all_dirs(list).len() as int),
        forall|w: int| 0 <= w < list.len() ==> ws_ok(#[trigger] restored_list(list)[w]),
    decreases list.len(),
{
    if list.len() > 0 {
        let rest = list.drop_last();
        assert forall|w: int, t: int|
            0 <= w < rest.len() && 0 <= t < rest[w].tabs.len() implies (
        #[trigger] rest[w].tabs[t]).active >= 0 by {
            assert(list[w].tabs[t].active >= 0);
        }
        lemma_restored_list(rest);
        let last = list.last();
        assert forall|t: int| 0 <= t < last.tabs.len() implies (
        #[trigger] last.tabs[t]).active >= 0 by {
            assert(list[list.len() - 1].tabs[t].active >= 0);
        }
        let n = all_dirs(rest).len() as int;
        lemma_restored_ws(restored_list(rest), last, n, last.tabs.len() as int);
        assert(last.tabs.take(last.tabs.len() as int) =~= last.tabs);
        assert(ws_ok(restored_ws(last, n)));
    }
}

/// A window that opens on saved workspaces is in order.
proof fn lemma_restored_ok(list: Seq<Record>)
    requires
        forall|w: int| 0 <= w < list.len() ==> usable(#[trigger] list[w]),
        forall|w: int, t: int|
            0 <= w < list.len() && 0 <= t < list[w].tabs.len() ==> (
            #[trigger] list[w].tabs[t]).active >= 0,
        forall|w: int| 0 <= w < list.len() ==> (#[trigger] list[w]).active_tab >= 0,
        all_dirs(list).len() <= u64::MAX,
    ensures
        model_ok(restored(list)),
{
    if list.len() == 0 {
        lemma_ws_added_ok(vacant());
    } else {
        lemma_restored_list(list);
    }
}

/// The panes to start, each with its directory: numbered as they come.
pub open spec fn lists(panes: Seq<(PaneId, String)>, dirs: Seq<Seq<char>>) -> bool {
    &&& panes.len() == dirs.len()
    &&& forall|i: int|
        0 <= i < panes.len() ==> (#[trigger] panes[i]).0 == i && panes[i].1@ == dirs[i]
}

/// Numbers the leaves of a saved layout, adding each to `panes`.
fn number_leaves(n: &Node<String>, panes: &mut Vec<(PaneId, String)>) -> (r: Node<PaneId>)
    requires
        forall|i: int| 0 <= i < old(panes)@.len() ==> (#[trigger] old(panes)@[i]).0 == i,
    ensures
        r@ == renumber(n@, old(panes)@.len() as int),
        final(panes)@.len() == old(panes)@.len() + leaves(n@).len(),
        final(panes)@.take(old(panes)@.len() as int) == old(panes)@,
        forall|i: int| 0 <= i < final(panes)@.len() ==> (#[trigger] final(panes)@[i]).0 == i,
        forall|i: int|
            old(panes)@.len() <= i < final(panes)@.len() ==> (#[trigger] final(panes)@[i]).1@
                == leaves(n@)[i - old(panes)@.len()]@,
    decreases *n,
{
    let ghost before = panes@;
    match n {
        Node::Leaf(d) => {
            let id = panes.len() as u64;
            panes.push((id, d.clone()));
            assert(panes@.take(before.len() as int) =~= before);
            Node::Leaf(id)
        },
        Node::Split { axis, children, ratios } => {
            let mut out: Vec<Node<PaneId>> = Vec::new();
            let mut i: usize = 0;
            proof {
                lemma_trees(children@);
                assert(panes@.take(before.len() as int) =~= before);
                assert(all_renumber(trees(children@).subrange(0, 0), before.len() as int)
                    =~= Seq::empty());
                assert(trees(out@) =~= Seq::empty());
            }
            while i < children.len()
                invariant
                    i <= children.len(),
                    out.len() == i,
                    *n matches Node::Split { children: c, .. } && c == *children,
                    trees(out@) == all_renumber(
                        trees(children@).subrange(0, i as int),
                        before.len() as int,
                    ),
                    panes@.len() == before.len() + all_leaves(
                        trees(children@).subrange(0, i as int),
                    ).len(),
                    panes@.take(before.len() as int) == before,
                    forall|k: int| 0 <= k < panes@.len() ==> (#[trigger] panes@[k]).0 == k,
                    forall|k: int|
                        before.len() <= k < panes@.len() ==> (#[trigger] panes@[k]).1@
                            == all_leaves(trees(children@).subrange(0, i as int))[k
                            - before.len()]@,
                    trees(children@).len() == children.len(),
                    forall|k: int|
                        0 <= k < children.len() ==> #[trigger] trees(children@)[k] == tree(
                            children@[k],
                        ),
                decreases children.len() - i,
            {
                let ghost mid = panes@;
                let c = number_leaves(&children[i], panes);
                let ghost was = out@;
                out.push(c);
                proof {
                    let s = trees(children@).subrange(0, i + 1);
                    let r = trees(children@).subrange(0, i as int);
                    assert(s.subrange(0, s.len() - 1) =~= r);
                    assert(s[i as int] == trees(children@)[i as int]);
                    lemma_trees(out@);
                    lemma_trees(was);
                    assert(trees(out@) =~= trees(was).push(c@));
                    assert(panes@.take(before.len() as int) =~= mid.take(before.len() as int)) by {
                        assert forall|k: int| 0 <= k < mid.len() implies panes@[k] == mid[k] by {
                            assert(panes@.take(mid.len() as int)[k] == mid[k]);
                        }
                    }
                    assert forall|k: int| before.len() <= k < panes@.len() implies (
                    #[trigger] panes@[k]).1@ == all_leaves(s)[k - before.len()]@ by {
                        if k < mid.len() {
                            assert(panes@.take(mid.len() as int)[k] == mid[k]);
                            assert(mid[k].1@ == all_leaves(r)[k - before.len()]@);
                        }
                    }
                }
                i += 1;
            }
            assert(trees(children@).subrange(0, trees(children@).len() as int) =~= trees(
                children@,
            ));
            let mut shares: Vec<u32> = Vec::new();
            let mut k: usize = 0;
            while k < ratios.len()
                invariant
                    k <= ratios.len(),
                    shares@ == ratios@.take(k as int),
                decreases ratios.len() - k,
            {
                shares.push(ratios[k]);
                assert(ratios@.take(k + 1) =~= ratios@.take(k as int).push(ratios@[k as int]));
                k += 1;
            }
            assert(ratios@.take(ratios@.len() as int) =~= ratios@);
            Node::Split { axis: *axis, children: out, ratios: shares }
        },
    }
}

/// Numbering looks at the shape alone.
proof fn lemma_renumber_retree<T, U>(t: Tree<T>, g: spec_fn(T) -> U, from: int)
    ensures
        renumber(retree(t, g), from) == renumber(t, from),
    decreases t,
{
    if let Tree::Split { axis, children, ratios } = t {
        lemma_all_renumber_retree(children, g, from);
    }
}

proof fn lemma_all_renumber_retree<T, U>(s: Seq<Tree<T>>, g: spec_fn(T) -> U, from: int)
    ensures
        all_renumber(all_retree(s, g), from) == all_renumber(s, from),
    decreases s,
{
    if s.len() > 0 {
        let r = s.subrange(0, s.len() - 1);
        lemma_all_renumber_retree(r, g, from);
        lemma_all_retree_leaves(r, g);
        lemma_all_retree(s, g);
        lemma_all_retree(r, g);
        assert(all_retree(s, g).subrange(0, s.len() - 1) =~= all_retree(r, g));
        lemma_renumber_retree(s[s.len() - 1], g, from + all_leaves(r).len());
    }
}

fn restore_tab(t: &SavedTab, panes: &mut Vec<(PaneId, String)>, Ghost(so_far): Ghost<Seq<Seq<char>>>) -> (r:
    TabState)
    requires
        branching(t@.tree),
        lists(old(panes)@, so_far),
    ensures
        r@ == restored_tab(t@, so_far.len() as int),
        lists(final(panes)@, so_far + leaves(t@.tree)),
{
    let ghost before = panes@;
    let ghost from = before.len() as int;
    let mut layout = number_leaves(&t.layout, panes);
    proof {
        lemma_retree_leaves(t.layout@, text());
        lemma_renumber_retree(t.layout@, text(), from);
        lemma_restored_tab(t@, from);
        let after = so_far + leaves(t@.tree);
        assert forall|i: int| 0 <= i < panes@.len() implies (#[trigger] panes@[i]).1@ == after[i] by {
            if i < from {
                assert(panes@.take(from)[i] == before[i]);
            }
        }
        lemma_branching_leaf(t@.tree);
    }
    layout.normalise();
    let order = layout.leaves();
    assert(order@ == count_up(from, leaves(t@.tree).len()));
    let active = if t.active < order.len() {
        order[t.active]
    } else {
        order[0]
    };
    TabState { layout, active }
}

fn restore_ws(w: SavedWorkspace, panes: &mut Vec<(PaneId, String)>, Ghost(so_far): Ghost<Seq<Seq<char>>>) -> (r:
    Workspace)
    requires
        usable(w@),
        lists(old(panes)@, so_far),
    ensures
        r@ == restored_ws(w@, so_far.len() as int),
        lists(final(panes)@, so_far + tab_dirs(w@.tabs)),
{
    let ghost from = so_far.len() as int;
    let ghost all = w@.tabs;
    let mut tabs: Vec<TabState> = Vec::new();
    let mut t: usize = 0;
    assert(all.take(0) =~= Seq::empty());
    assert(tab_views(tabs@) =~= Seq::empty());
    assert(so_far + tab_dirs(all.take(0)) =~= so_far);
    while t < w.tabs.len()
        invariant
            t <= w.tabs.len(),
            all == w@.tabs,
            usable(w@),
            from == so_far.len(),
            tabs@.len() == t,
            tab_views(tabs@) == restored_tabs(all.take(t as int), from),
            lists(panes@, so_far + tab_dirs(all.take(t as int))),
        decreases w.tabs.len() - t,
    {
        let ghost s = all.take(t + 1);
        assert(s.drop_last() =~= all.take(t as int));
        assert(s.last() == w.tabs@[t as int]@);
        assert(s.last() == all[t as int]);
        let ghost mid = so_far + tab_dirs(all.take(t as int));
        let ghost was = tabs@;
        tabs.push(restore_tab(&w.tabs[t], panes, Ghost(mid)));
        proof {
            assert(tab_views(tabs@) =~= tab_views(was).push(tabs@[t as int]@));
            assert(mid + leaves(s.last().tree) =~= so_far + tab_dirs(s));
        }
        t += 1;
    }
    assert(all.take(t as int) =~= all);
    let active_tab = if w.active_tab < tabs.len() {
        w.active_tab
    } else {
        tabs.len() - 1
    };
    Workspace { name: w.name, persist: true, tabs, active_tab }
}

/// The number in a workspace's name, where it has the form of a given one.
pub fn number_of(name: &str) -> (r: Option<u64>)
    ensures
        match r {
            Some(n) => number_in(name@) == Some(n as int),
            None => number_in(name@) is None,
        },
{
    if !has_prefix(name, "workspace ") {
        return None;
    }
    proof {
        reveal_strlit("workspace ");
    }
    let v = chars_of(name);
    let rest = tail_of(v.as_slice(), 10);
    assert(rest@ =~= name@.skip("workspace "@.len() as int));
    if rest.len() > 0 && rest[0] == '+' {
        let n = tail_of(rest, 1);
        assert(n@ =~= rest@.skip(1));
        read_digits(n, u64::MAX)
    } else {
        read_digits(rest, u64::MAX)
    }
}

fn is_branching(n: &Node<String>) -> (r: bool)
    ensures
        r == branching(n@),
    decreases *n,
{
    match n {
        Node::Leaf(_) => true,
        Node::Split { axis, children, ratios } => {
            if children.len() < 2 || children.len() > WHOLE as usize {
                proof {
                    lemma_trees(children@);
                }
                return false;
            }
            proof {
                lemma_trees(children@);
            }
            let mut i: usize = 0;
            while i < children.len()
                invariant
                    i <= children.len(),
                    2 <= children.len() <= WHOLE,
                    *n matches Node::Split { children: c, .. } && c == *children,
                    all_branching(trees(children@).subrange(0, i as int)),
                    trees(children@).len() == children.len(),
                    forall|k: int|
                        0 <= k < children.len() ==> #[trigger] trees(children@)[k] == tree(
                            children@[k],
                        ),
                decreases children.len() - i,
            {
                proof {
                    let s = trees(children@).subrange(0, i + 1);
                    assert(s.subrange(0, s.len() - 1) =~= trees(children@).subrange(0, i as int));
                    assert(s[i as int] == trees(children@)[i as int]);
                }
                if !is_branching(&children[i]) {
                    proof {
                        lemma_not_branching(trees(children@), i as int);
                    }
                    return false;
                }
                i += 1;
            }
            assert(trees(children@).subrange(0, trees(children@).len() as int) =~= trees(
                children@,
            ));
            true
        },
    }
}

proof fn lemma_not_branching<T>(s: Seq<Tree<T>>, i: int)
    requires
        0 <= i < s.len(),
        !branching(s[i]),
    ensures
        !all_branching(s),
    decreases s.len(),
{
    if i < s.len() - 1 {
        lemma_not_branching(s.subrange(0, s.len() - 1), i);
    }
}

impl SavedWorkspace {
    /// Whether a saved workspace can be opened: it has tabs, each with a
    /// pane, and its name leaves room for another one.
    pub fn is_usable(&self) -> (r: bool)
        ensures
            r == usable(self@),
    {
        if self.tabs.len() == 0 {
            return false;
        }
        let mut t: usize = 0;
        while t < self.tabs.len()
            invariant
                t <= self.tabs.len(),
                forall|k: int| 0 <= k < t ==> branching((#[trigger] self@.tabs[k]).tree),
            decreases self.tabs.len() - t,
        {
            proof {
                lemma_retree_leaves(self.tabs@[t as int].layout@, text());
                assert(self@.tabs[t as int] == self.tabs@[t as int]@);
            }
            if !is_branching(&self.tabs[t].layout) {
                return false;
            }
            t += 1;
        }
        match number_of(self.name.as_str()) {
            Some(n) => n < u64::MAX - 1,
            None => true,
        }
    }
}

impl Workspaces {
    /// First-run state: the saved workspaces (fresh shells in their saved
    /// directories), or else a first one at `cwd`. Returned beside them are
    /// the panes to start, each with its directory.
    pub fn bootstrap_workspaces(list: Vec<SavedWorkspace>, cwd: &str) -> (r: (
        Workspaces,
        Vec<(PaneId, String)>,
    ))
        requires
            forall|w: int| 0 <= w < list@.len() ==> usable((#[trigger] list@[w])@),
        ensures
            r.0.wf(),
            r.0@ == restored(saved_views(list@)),
            lists(
                r.1@,
                if list@.len() == 0 {
                    seq![cwd@]
                } else {
                    all_dirs(saved_views(list@))
                },
            ),
    {
        let ghost all = saved_views(list@);
        let mut panes: Vec<(PaneId, String)> = Vec::new();
        if list.len() == 0 {
            let w = Workspaces::new();
            panes.push((0, cwd.to_owned()));
            assert(all =~= Seq::empty());
            return (w, panes);
        }
        let mut out: Vec<Workspace> = Vec::new();
        let mut number: u64 = 1;
        let count = list.len();
        assert(all.take(0) =~= Seq::empty());
        assert(ws_views(out@) =~= Seq::empty());
        let mut i: usize = 0;
        let mut rest = list;
        while i < count
            invariant
                i <= count,
                count == list@.len(),
                rest@ == list@.skip(i as int),
                all == saved_views(list@),
                forall|w: int| 0 <= w < list@.len() ==> usable((#[trigger] list@[w])@),
                out@.len() == i,
                ws_views(out@) == restored_list(all.take(i as int)),
                lists(panes@, all_dirs(all.take(i as int))),
                number == next_number(all.take(i as int)),
                number < u64::MAX,
            decreases count - i,
        {
            let ghost s = all.take(i + 1);
            assert(s.drop_last() =~= all.take(i as int));
            let w = rest.remove(0);
            assert(w == list@[i as int]);
            assert(rest@ =~= list@.skip(i + 1));
            assert(s.last() == w@);
            if let Some(n) = number_of(w.name.as_str()) {
                if n + 1 > number {
                    number = n + 1;
                }
            }
            let ghost was = out@;
            let ghost so_far = all_dirs(all.take(i as int));
            let ws = restore_ws(w, &mut panes, Ghost(so_far));
            out.push(ws);
            assert(ws_views(out@) =~= ws_views(was).push(ws@));
            i += 1;
        }
        assert(all.take(count as int) =~= all);
        let next_pane_id = panes.len() as u64;
        let r = Workspaces {
            list: out,
            active_ws: 0,
            ws_selected: 0,
            next_ws_number: number,
            next_pane_id,
        };
        proof {
            assert forall|w: int| 0 <= w < all.len() implies usable(#[trigger] all[w]) by {
                assert(all[w] == list@[w]@);
            }
            assert forall|w: int, t: int|
                0 <= w < all.len() && 0 <= t < all[w].tabs.len() implies (
            #[trigger] all[w].tabs[t]).active >= 0 by {
                assert(all[w].tabs[t] == list@[w].tabs@[t]@);
            }
            assert forall|w: int| 0 <= w < all.len() implies (#[trigger] all[w]).active_tab >= 0 by {
                assert(all[w] == list@[w]@);
            }
            lemma_restored_ok(all);
        }
        (r, panes)
    }
}

proof fn lemma_dir_of(panes: Seq<(PaneId, String)>, home: Seq<char>, from: int, k: int)
    requires
        0 <= k < panes.len(),
        forall|i: int| 0 <= i < panes.len() ==> (#[trigger] panes[i]).0 == from + i,
    ensures
        dir_of(panes, home, (from + k) as PaneId) == panes[k].1@,
    decreases panes.len(),
{
    assert(panes[k].0 == from + k);
    assert(panes[0].0 == from + 0);
    if k > 0 {
        let rest = panes.skip(1);
        assert forall|i: int| 0 <= i < rest.len() implies (#[trigger] rest[i]).0 == from + 1 + i by {
            assert(rest[i] == panes[i + 1]);
        }
        lemma_dir_of(rest, home, from + 1, k - 1);
        assert(rest[k - 1] == panes[k]);
    }
}

/// Numbering the leaves and looking each number up gives the tree back.
proof fn lemma_looked_up<U>(t: Tree<U>, from: int, g: spec_fn(PaneId) -> U)
    requires
        forall|i: int|
            0 <= i < leaves(t).len() ==> g((from + i) as PaneId) == #[trigger] leaves(t)[i],
    ensures
        retree(renumber(t, from), g) == t,
    decreases t,
{
    match t {
        Tree::Leaf(a) => {
            assert(leaves(t)[0] == a);
        },
        Tree::Split { axis, children, ratios } => {
            assert(leaves(t) == all_leaves(children));
            assert forall|i: int| 0 <= i < all_leaves(children).len() implies g(
                (from + i) as PaneId,
            ) == #[trigger] all_leaves(children)[i] by {
                assert(leaves(t)[i] == all_leaves(children)[i]);
            }
            lemma_all_looked_up(children, from, g);
        },
    }
}

proof fn lemma_all_looked_up<U>(s: Seq<Tree<U>>, from: int, g: spec_fn(PaneId) -> U)
    requires
        forall|i: int|
            0 <= i < all_leaves(s).len() ==> g((from + i) as PaneId) == #[trigger] all_leaves(s)[i],
    ensures
        all_retree(all_renumber(s, from), g) == s,
    decreases s,
{
    if s.len() == 0 {
        assert(all_retree(all_renumber(s, from), g) =~= s);
    } else {
        let r = s.subrange(0, s.len() - 1);
        let last = s[s.len() - 1];
        let n = all_leaves(r).len();
        assert forall|i: int| 0 <= i < n implies g((from + i) as PaneId) == #[trigger] all_leaves(
            r,
        )[i] by {
            assert(all_leaves(s)[i] == all_leaves(r)[i]);
        }
        assert forall|i: int| 0 <= i < leaves(last).len() implies g((from + n + i) as PaneId)
            == #[trigger] leaves(last)[i] by {
            assert(all_leaves(s)[n + i] == leaves(last)[i]);
        }
        lemma_all_looked_up(r, from, g);
        lemma_looked_up(last, from + n, g);
        lemma_all_renumber(r, from);
        lemma_all_renumber(s, from);
        assert(all_renumber(s, from).subrange(0, s.len() - 1) =~= all_renumber(r, from));
        assert(r.push(last) =~= s);
    }
}

/// Whether a saved tab has a layout in order and an active pane of its own.
pub open spec fn sound(t: TabRecord) -> bool {
    in_order(t.tree) && 0 <= t.active < leaves(t.tree).len()
}

/// Whether a saved workspace is one that saving could have written.
pub open spec fn sound_record(w: Record) -> bool {
    &&& 0 <= w.active_tab < w.tabs.len()
    &&& forall|t: int| 0 <= t < w.tabs.len() ==> sound(#[trigger] w.tabs[t])
}

proof fn lemma_tab_comes_back(
    t: TabRecord,
    from: int,
    panes: Seq<(PaneId, String)>,
    home: Seq<char>,
)
    requires
        sound(t),
        0 <= from,
        from + leaves(t.tree).len() <= panes.len() <= u64::MAX,
        forall|i: int| 0 <= i < panes.len() ==> (#[trigger] panes[i]).0 == i,
        forall|i: int|
            0 <= i < leaves(t.tree).len() ==> panes[from + i].1@ == #[trigger] leaves(t.tree)[i],
    ensures
        tab_record(restored_tab(t, from), panes, home) == t,
{
    lemma_renumber(t.tree, from);
    lemma_normal_in_order(renumber(t.tree, from));
    let g = dirs(panes, home);
    assert forall|i: int| 0 <= i < leaves(t.tree).len() implies g((from + i) as PaneId)
        == #[trigger] leaves(t.tree)[i] by {
        lemma_dir_of(panes, home, 0, from + i);
    }
    lemma_looked_up(t.tree, from, g);
    let r = restored_tab(t, from);
    let order = leaves(r.tree);
    assert(order[t.active] == r.active);
    let k = order.index_of(r.active);
    assert(order.contains(r.active));
    assert(order[k] == (from + k) as PaneId);
}

proof fn lemma_tabs_come_back(
    w: Record,
    from: int,
    panes: Seq<(PaneId, String)>,
    home: Seq<char>,
    k: int,
)
    requires
        sound_record(w),
        0 <= k <= w.tabs.len(),
        0 <= from,
        from + tab_dirs(w.tabs.take(k)).len() <= panes.len() <= u64::MAX,
        forall|i: int| 0 <= i < panes.len() ==> (#[trigger] panes[i]).0 == i,
        forall|i: int|
            0 <= i < tab_dirs(w.tabs.take(k)).len() ==> panes[from + i].1@ == #[trigger] tab_dirs(
                w.tabs.take(k),
            )[i],
    ensures
        restored_tabs(w.tabs.take(k), from).len() == k,
        forall|t: int|
            0 <= t < k ==> tab_record(
                #[trigger] restored_tabs(w.tabs.take(k), from)[t],
                panes,
                home,
            ) == w.tabs[t],
    decreases k,
{
    if k > 0 {
        let tabs = w.tabs.take(k);
        let r = w.tabs.take(k - 1);
        assert(tabs.drop_last() =~= r);
        let last = w.tabs[k - 1];
        assert(tabs.last() == last);
        let n = tab_dirs(r).len();
        assert forall|i: int| 0 <= i < n implies panes[from + i].1@ == #[trigger] tab_dirs(
            r,
        )[i] by {
            assert(tab_dirs(tabs)[i] == tab_dirs(r)[i]);
        }
        lemma_tabs_come_back(w, from, panes, home, k - 1);
        assert(sound(last));
        assert forall|i: int| 0 <= i < leaves(last.tree).len() implies panes[from + n + i].1@
            == #[trigger] leaves(last.tree)[i] by {
            assert(tab_dirs(tabs)[n + i] == leaves(last.tree)[i]);
        }
        lemma_tab_comes_back(last, from + n, panes, home);
    }
}

proof fn lemma_list_comes_back(
    list: Seq<Record>,
    panes: Seq<(PaneId, String)>,
    home: Seq<char>,
)
    requires
        forall|w: int| 0 <= w < list.len() ==> sound_record(#[trigger] list[w]),
        all_dirs(list).len() <= panes.len() <= u64::MAX,
        forall|i: int| 0 <= i < panes.len() ==> (#[trigger] panes[i]).0 == i,
        forall|i: int|
            0 <= i < all_dirs(list).len() ==> panes[i].1@ == #[trigger] all_dirs(list)[i],
    ensures
        records(restored_list(list), panes, home) == list,
    decreases list.len(),
{
    if list.len() == 0 {
        assert(records(restored_list(list), panes, home) =~= list);
    } else {
        let rest = list.drop_last();
        let last = list.last();
        let n = all_dirs(rest).len();
        assert forall|i: int| 0 <= i < n implies panes[i].1@ == #[trigger] all_dirs(rest)[i] by {
            assert(all_dirs(list)[i] == all_dirs(rest)[i]);
        }
        lemma_list_comes_back(rest, panes, home);
        assert(last.tabs.take(last.tabs.len() as int) =~= last.tabs);
        assert forall|i: int| 0 <= i < tab_dirs(last.tabs).len() implies panes[n + i].1@
            == #[trigger] tab_dirs(last.tabs)[i] by {
            assert(all_dirs(list)[n + i] == tab_dirs(last.tabs)[i]);
        }
        lemma_tabs_come_back(last, n as int, panes, home, last.tabs.len() as int);
        let all = restored_list(list);
        assert(all.drop_last() =~= restored_list(rest));
        let ws = restored_ws(last, n as int);
        assert(all.last() == ws);
        assert(record(ws, panes, home).tabs =~= last.tabs);
        assert(rest.push(last) =~= list);
    }
}

/// What was saved comes back: saving a window that has just opened on saved
/// workspaces writes the same workspaces again.
pub proof fn lemma_saved_comes_back(
    list: Seq<Record>,
    panes: Seq<(PaneId, String)>,
    home: Seq<char>,
)
    requires
        forall|w: int| 0 <= w < list.len() ==> sound_record(#[trigger] list[w]),
        lists(panes, all_dirs(list)),
        panes.len() <= u64::MAX,
    ensures
        records(restored(list).list, panes, home) == list,
{
    if list.len() == 0 {
        let fresh = restored(list).list;
        assert(fresh.drop_last() =~= Seq::empty());
        assert(!fresh.last().persist);
        assert(records(fresh.drop_last(), panes, home) =~= Seq::empty());
        assert(records(fresh, panes, home) =~= list);
    } else {
        lemma_list_comes_back(list, panes, home);
    }
}

/// A workspace that was given its name by number is known by it.
pub proof fn lemma_numbers_read_back(n: u64)
    ensures
        number_in("workspace "@ + decimal(n as nat)) == Some(n as int),
{
    lemma_decimal_reads_back(n as nat);
    let w = "workspace "@;
    let d = decimal(n as nat);
    assert((w + d).skip(w.len() as int) =~= d);
    assert((w + d).take(w.len() as int) =~= w);
    assert(is_digit(d[0]));
}

/// The next workspace gets a number that no saved one has: one more than the
/// highest, and one where none has any.
pub proof fn lemma_the_next_number(list: Seq<Record>)
    ensures
        next_number(list) >= 1,
        forall|i: int|
            0 <= i < list.len() ==> (number_in((#[trigger] list[i]).name) matches Some(k)
                ==> next_number(list) > k),
        next_number(list) == 1 || exists|i: int|
            0 <= i < list.len() && number_in((#[trigger] list[i]).name) == Some(
                next_number(list) - 1,
            ),
    decreases list.len(),
{
    if list.len() > 0 {
        let r = list.drop_last();
        lemma_the_next_number(r);
        assert forall|i: int| 0 <= i < list.len() implies (number_in(
            (#[trigger] list[i]).name,
        ) matches Some(k) ==> next_number(list) > k) by {
            if i < r.len() {
                assert(r[i] == list[i]);
            }
        }
        if next_number(list) != 1 {
            if next_number(list) == next_number(r) {
                let i = choose|i: int|
                    0 <= i < r.len() && number_in((#[trigger] r[i]).name) == Some(
                        next_number(r) - 1,
                    );
                assert(list[i] == r[i]);
            } else {
                assert(list[list.len() - 1] == list.last());
            }
        }
    }
}

/// Only workspaces that are to be kept are saved, each with its name, in
/// their order.
pub proof fn lemma_what_is_saved(
    list: Seq<Ws>,
    w: Ws,
    cwds: Seq<(PaneId, String)>,
    home: Seq<char>,
)
    ensures
        !w.persist ==> records(list.push(w), cwds, home) == records(list, cwds, home),
        w.persist ==> records(list.push(w), cwds, home).len() == records(list, cwds, home).len() + 1
            && records(list.push(w), cwds, home).last().name == w.name && records(
            list.push(w),
            cwds,
            home,
        ).last().active_tab == w.active_tab && records(list.push(w), cwds, home).drop_last()
            == records(list, cwds, home),
{
    assert(list.push(w).drop_last() =~= list);
    let r = records(list, cwds, home);
    assert(r.push(record(w, cwds, home)).drop_last() =~= r);
}

/// A pane is saved with the directory that it was last seen in, and with home
/// where none was seen.
pub proof fn lemma_directories(cwds: Seq<(PaneId, String)>, home: Seq<char>, id: PaneId, k: int)
    ensures
        (forall|i: int| 0 <= i < cwds.len() ==> (#[trigger] cwds[i]).0 != id) ==> dir_of(
            cwds,
            home,
            id,
        ) == home,
        0 <= k < cwds.len() && cwds[k].0 == id && (forall|i: int|
            0 <= i < k ==> (#[trigger] cwds[i]).0 != id) ==> dir_of(cwds, home, id) == cwds[k].1@,
    decreases cwds.len(),
{
    if cwds.len() > 0 && cwds[0].0 != id {
        let r = cwds.skip(1);
        lemma_directories(r, home, id, k - 1);
        if forall|i: int| 0 <= i < cwds.len() ==> (#[trigger] cwds[i]).0 != id {
            assert forall|i: int| 0 <= i < r.len() implies (#[trigger] r[i]).0 != id by {
                assert(r[i] == cwds[i + 1]);
            }
        }
        if 0 <= k < cwds.len() && cwds[k].0 == id && (forall|i: int|
            0 <= i < k ==> (#[trigger] cwds[i]).0 != id) {
            assert(r[k - 1] == cwds[k]);
            assert forall|i: int| 0 <= i < k - 1 implies (#[trigger] r[i]).0 != id by {
                assert(r[i] == cwds[i + 1]);
            }
        }
    }
}

/// A workspace that is named by its number is read back under that number.
pub proof fn lemma_numbered_names(n: u64)
    ensures
        number_in(crate::workspaces::numbered_name(n as int)) == Some(n as int),
{
    lemma_numbers_read_back(n);
}

} // verus!
