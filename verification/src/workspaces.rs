//! Workspaces, their tabs and the panes in them: which is active, and what is
//! left when one is opened, split or closed. The window shows what stands
//! here; the panes themselves are known by number.
use vstd::prelude::*;

use crate::keymap::keystroke::Keystroke;
use crate::panes::{
    copy_shares, dragged, dropped, equal, in_order, leaf_resized, leaves, lemma_all_in_order,
    lemma_drag_in_order, lemma_equalise, lemma_has_leaf, lemma_in_order_branching,
    lemma_in_order_parallel, lemma_leaf_resize_in_order, lemma_remove_in_order, lemma_remove_leaves,
    lemma_split_in_order, lemma_split_leaves, lemma_subtree_in_order, lemma_trees, positive,
    remove_tree, share_along, split_tree, subtree, total, trees, Axis, Direction, Node, PaneId,
    Tree, WHOLE,
};
use crate::text::{chars_of, decimal, push_decimal, same, string_of, trim, trimmed};

verus! {

/// One tab: a split tree of panes and which of them is focused.
pub struct TabState {
    pub layout: Node<PaneId>,
    pub active: PaneId,
}

/// A named collection of tabs, the tmux-session analogue. Temporary by
/// default; `persist` opts it into surviving restarts (layout + directories,
/// fresh shells).
pub struct Workspace {
    pub name: String,
    pub persist: bool,
    pub tabs: Vec<TabState>,
    pub active_tab: usize,
}

/// Every workspace of a window.
pub struct Workspaces {
    pub list: Vec<Workspace>,
    pub active_ws: usize,
    /// Cursor row in the workspaces panel (may differ from `active_ws`).
    pub ws_selected: usize,
    pub next_ws_number: u64,
    pub next_pane_id: PaneId,
}

/// A tab, as plain values.
pub ghost struct Tab {
    pub tree: Tree<PaneId>,
    pub active: PaneId,
}

/// A workspace, as plain values.
pub ghost struct Ws {
    pub name: Seq<char>,
    pub persist: bool,
    pub tabs: Seq<Tab>,
    pub active_tab: int,
}

/// Every workspace of a window, as plain values.
pub ghost struct Model {
    pub list: Seq<Ws>,
    pub active: int,
    pub selected: int,
    pub next_number: int,
    pub next_pane: int,
}

impl View for TabState {
    type V = Tab;

    open spec fn view(&self) -> Tab {
        Tab { tree: self.layout@, active: self.active }
    }
}

pub open spec fn tab_views(v: Seq<TabState>) -> Seq<Tab> {
    v.map_values(|t: TabState| t@)
}

impl View for Workspace {
    type V = Ws;

    open spec fn view(&self) -> Ws {
        Ws {
            name: self.name@,
            persist: self.persist,
            tabs: tab_views(self.tabs@),
            active_tab: self.active_tab as int,
        }
    }
}

pub open spec fn ws_views(v: Seq<Workspace>) -> Seq<Ws> {
    v.map_values(|w: Workspace| w@)
}

impl View for Workspaces {
    type V = Model;

    open spec fn view(&self) -> Model {
        Model {
            list: ws_views(self.list@),
            active: self.active_ws as int,
            selected: self.ws_selected as int,
            next_number: self.next_ws_number as int,
            next_pane: self.next_pane_id as int,
        }
    }
}

/// Whether tab `t` of workspace `w` has an `i`-th pane.
pub open spec fn has_pane(list: Seq<Ws>, w: int, t: int, i: int) -> bool {
    0 <= w < list.len() && 0 <= t < list[w].tabs.len() && 0 <= i < leaves(
        list[w].tabs[t].tree,
    ).len()
}

/// The `i`-th pane of tab `t` of workspace `w`.
pub open spec fn pane(list: Seq<Ws>, w: int, t: int, i: int) -> PaneId {
    leaves(list[w].tabs[t].tree)[i]
}

/// Whether a tab's tree is sound and its active pane is one of its own.
pub open spec fn tab_ok(t: Tab) -> bool {
    in_order(t.tree) && leaves(t.tree).contains(t.active)
}

/// Whether a workspace has tabs, all of them sound, and one is active.
pub open spec fn ws_ok(w: Ws) -> bool {
    &&& 0 <= w.active_tab < w.tabs.len()
    &&& forall|t: int| 0 <= t < w.tabs.len() ==> tab_ok(#[trigger] w.tabs[t])
}

/// Whether no pane occurs in two places.
pub open spec fn distinct(list: Seq<Ws>) -> bool {
    forall|w: int, t: int, i: int, v: int, u: int, j: int| #[trigger]
        has_pane(list, w, t, i) && #[trigger] has_pane(list, v, u, j) && pane(list, w, t, i)
            == pane(list, v, u, j) ==> w == v && t == u && i == j
}

/// Whether every pane has a number below `n`.
pub open spec fn numbered(list: Seq<Ws>, n: int) -> bool {
    forall|w: int, t: int, i: int| #[trigger]
        has_pane(list, w, t, i) ==> pane(list, w, t, i) < n
}

/// There is always a workspace, a tab in it and a pane in that, and each of
/// them one that is active; no pane is in two places, and new panes get new
/// numbers.
pub open spec fn model_ok(m: Model) -> bool {
    &&& 0 <= m.active < m.list.len()
    &&& 0 <= m.selected < m.list.len()
    &&& forall|w: int| 0 <= w < m.list.len() ==> ws_ok(#[trigger] m.list[w])
    &&& distinct(m.list)
    &&& numbered(m.list, m.next_pane)
}

/// The pane that has the focus.
pub open spec fn active_pane(m: Model) -> PaneId {
    m.list[m.active].tabs[m.list[m.active].active_tab].active
}

/// What an operation leaves behind: the workspaces, the panes that are gone,
/// and the pane to focus.
pub ghost struct Turn {
    pub model: Model,
    pub gone: Seq<PaneId>,
    pub focus: Option<PaneId>,
}

/// The panes that are gone, and the pane to focus.
#[derive(Debug)]
pub struct Closing {
    pub gone: Vec<PaneId>,
    pub focus: Option<PaneId>,
}

/// The workspaces with one of them changed.
pub open spec fn with_ws(m: Model, w: int, ws: Ws) -> Model {
    Model { list: m.list.update(w, ws), ..m }
}

/// A workspace with one of its tabs changed.
pub open spec fn with_tab(ws: Ws, t: int, tab: Tab) -> Ws {
    Ws { tabs: ws.tabs.update(t, tab), ..ws }
}

/// The first tab of a workspace that holds a pane.
pub open spec fn tab_with(tabs: Seq<Tab>, id: PaneId) -> int
    decreases tabs.len(),
{
    if tabs.len() == 0 || leaves(tabs[0].tree).contains(id) {
        0
    } else {
        1 + tab_with(tabs.skip(1), id)
    }
}

/// The first workspace that holds a pane.
pub open spec fn ws_with(list: Seq<Ws>, id: PaneId) -> int
    decreases list.len(),
{
    if list.len() == 0 || tab_with(list[0].tabs, id) < list[0].tabs.len() {
        0
    } else {
        1 + ws_with(list.skip(1), id)
    }
}

proof fn lemma_tab_with(tabs: Seq<Tab>, id: PaneId)
    ensures
        0 <= tab_with(tabs, id) <= tabs.len(),
        tab_with(tabs, id) < tabs.len() ==> leaves(tabs[tab_with(tabs, id)].tree).contains(id),
        forall|t: int| 0 <= t < tab_with(tabs, id) ==> !leaves((#[trigger] tabs[t]).tree).contains(id),
    decreases tabs.len(),
{
    if tabs.len() > 0 && !leaves(tabs[0].tree).contains(id) {
        let rest = tabs.skip(1);
        lemma_tab_with(rest, id);
        assert forall|t: int| 0 <= t < tab_with(tabs, id) implies !leaves(
            (#[trigger] tabs[t]).tree,
        ).contains(id) by {
            if t > 0 {
                assert(rest[t - 1] == tabs[t]);
            }
        }
    }
}

proof fn lemma_ws_with(list: Seq<Ws>, id: PaneId)
    ensures
        0 <= ws_with(list, id) <= list.len(),
        ws_with(list, id) < list.len() ==> tab_with(list[ws_with(list, id)].tabs, id) < list[ws_with(
            list,
            id,
        )].tabs.len(),
        forall|w: int|
            0 <= w < ws_with(list, id) ==> tab_with((#[trigger] list[w]).tabs, id)
                == list[w].tabs.len(),
    decreases list.len(),
{
    if list.len() > 0 {
        lemma_tab_with(list[0].tabs, id);
        if !(tab_with(list[0].tabs, id) < list[0].tabs.len()) {
            let rest = list.skip(1);
            lemma_ws_with(rest, id);
            assert forall|w: int| 0 <= w < ws_with(list, id) implies tab_with(
                (#[trigger] list[w]).tabs,
                id,
            ) == list[w].tabs.len() by {
                if w > 0 {
                    assert(rest[w - 1] == list[w]);
                }
            }
        }
    }
}

/// Whether a pane is anywhere in some workspaces.
pub open spec fn lives(list: Seq<Ws>, id: PaneId) -> bool {
    exists|w: int, t: int, i: int| #[trigger] has_pane(list, w, t, i) && pane(list, w, t, i) == id
}

/// A pane is found where it is.
pub proof fn lemma_located(list: Seq<Ws>, w: int, t: int, i: int)
    requires
        distinct(list),
        has_pane(list, w, t, i),
    ensures
        ws_with(list, pane(list, w, t, i)) == w,
        tab_with(list[w].tabs, pane(list, w, t, i)) == t,
{
    let id = pane(list, w, t, i);
    lemma_ws_with(list, id);
    lemma_tab_with(list[w].tabs, id);
    let v = ws_with(list, id);
    if v > w {
        assert(leaves(list[w].tabs[t].tree)[i] == id);
    } else {
        let u = tab_with(list[v].tabs, id);
        lemma_tab_with(list[v].tabs, id);
        let order = leaves(list[v].tabs[u].tree);
        if v < w || u < list[v].tabs.len() {
            let j = choose|j: int| 0 <= j < order.len() && order[j] == id;
            assert(has_pane(list, v, u, j) && pane(list, v, u, j) == id);
        }
        assert(leaves(list[w].tabs[t].tree)[i] == id);
    }
}

/// What is left of the order among panes where every pane of `new` stands
/// for one of `old`, no two for the same.
proof fn lemma_embedded(
    old_list: Seq<Ws>,
    new_list: Seq<Ws>,
    n: int,
    fw: spec_fn(int, int, int) -> int,
    ft: spec_fn(int, int, int) -> int,
    fi: spec_fn(int, int, int) -> int,
)
    requires
        distinct(old_list),
        numbered(old_list, n),
        forall|w: int, t: int, i: int| #[trigger]
            has_pane(new_list, w, t, i) ==> has_pane(
                old_list,
                fw(w, t, i),
                ft(w, t, i),
                fi(w, t, i),
            ) && pane(old_list, fw(w, t, i), ft(w, t, i), fi(w, t, i)) == pane(new_list, w, t, i),
        forall|w: int, t: int, i: int, v: int, u: int, j: int| #[trigger]
            has_pane(new_list, w, t, i) && #[trigger] has_pane(new_list, v, u, j) && fw(w, t, i)
                == fw(v, u, j) && ft(w, t, i) == ft(v, u, j) && fi(w, t, i) == fi(v, u, j) ==> w
                == v && t == u && i == j,
    ensures
        distinct(new_list),
        numbered(new_list, n),
{
}

/// The same where one pane of `new` is a fresh one.
proof fn lemma_grown(
    old_list: Seq<Ws>,
    new_list: Seq<Ws>,
    n: int,
    w0: int,
    t0: int,
    i0: int,
    fi: spec_fn(int, int, int) -> int,
)
    requires
        distinct(old_list),
        numbered(old_list, n),
        0 <= n,
        has_pane(new_list, w0, t0, i0),
        pane(new_list, w0, t0, i0) == n,
        forall|w: int, t: int, i: int| #[trigger]
            has_pane(new_list, w, t, i) && !(w == w0 && t == t0 && i == i0) ==> has_pane(
                old_list,
                w,
                t,
                fi(w, t, i),
            ) && pane(old_list, w, t, fi(w, t, i)) == pane(new_list, w, t, i),
        forall|w: int, t: int, i: int, j: int| #[trigger]
            has_pane(new_list, w, t, i) && #[trigger] has_pane(new_list, w, t, j) && !(w == w0 && t
                == t0 && (i == i0 || j == i0)) && fi(w, t, i) == fi(w, t, j) ==> i == j,
    ensures
        distinct(new_list),
        numbered(new_list, n + 1),
{
}

/// A workspace without one of its tabs.
pub open spec fn without_tab(ws: Ws, t: int) -> Ws {
    let tabs = ws.tabs.remove(t);
    Ws {
        tabs,
        active_tab: if ws.active_tab >= tabs.len() {
            tabs.len() - 1
        } else if t < ws.active_tab {
            ws.active_tab - 1
        } else {
            ws.active_tab
        },
        ..ws
    }
}

/// A whole tab is closed, with all its panes.
pub open spec fn tab_closed(m: Model, w: int, t: int) -> Turn {
    let next = with_ws(m, w, without_tab(m.list[w], t));
    Turn {
        model: next,
        gone: leaves(m.list[w].tabs[t].tree),
        focus: if w == m.active && t == m.list[w].active_tab {
            Some(active_pane(next))
        } else {
            None
        },
    }
}

/// The panes of some tabs, in order.
pub open spec fn tabs_panes(tabs: Seq<Tab>) -> Seq<PaneId>
    decreases tabs.len(),
{
    if tabs.len() == 0 {
        Seq::empty()
    } else {
        tabs_panes(tabs.drop_last()) + leaves(tabs.last().tree)
    }
}

/// The name of a new workspace.
pub open spec fn numbered_name(n: int) -> Seq<char> {
    "workspace "@ + decimal(n as nat)
}

/// A workspace with a single pane.
pub open spec fn fresh_ws(name: Seq<char>, id: PaneId) -> Ws {
    Ws {
        name,
        persist: false,
        tabs: seq![Tab { tree: Tree::Leaf(id), active: id }],
        active_tab: 0,
    }
}

/// A workspace is removed, with everything in it. Deleting the only one
/// swaps in a fresh default so the window never ends up empty.
pub open spec fn ws_removed(m: Model, w: int) -> Turn {
    let gone = tabs_panes(m.list[w].tabs);
    if m.list.len() == 1 {
        let id = m.next_pane as PaneId;
        Turn {
            model: Model {
                list: seq![fresh_ws(numbered_name(m.next_number), id)],
                active: 0,
                selected: 0,
                next_number: m.next_number + 1,
                next_pane: m.next_pane + 1,
            },
            gone,
            focus: Some(id),
        }
    } else {
        let list = m.list.remove(w);
        let next = Model {
            list,
            active: if m.active >= list.len() {
                list.len() - 1
            } else if w < m.active {
                m.active - 1
            } else {
                m.active
            },
            selected: if m.selected < list.len() {
                m.selected
            } else {
                list.len() - 1
            },
            ..m
        };
        Turn {
            model: next,
            gone,
            focus: if w == m.active {
                Some(active_pane(next))
            } else {
                None
            },
        }
    }
}

/// A tab without one of its panes. The active pane stays, or gives way to
/// the one that takes its place.
pub open spec fn without_pane(tab: Tab, id: PaneId) -> Tab {
    let tree = remove_tree(tab.tree, id)->0;
    let i = leaves(tab.tree).index_of(id);
    let rest = leaves(tree);
    Tab {
        tree,
        active: if tab.active == id {
            rest[if i < rest.len() {
                i
            } else {
                rest.len() - 1
            }]
        } else {
            tab.active
        },
    }
}

/// A pane is closed wherever it lives, cascading upward: the last pane
/// closes its tab, the last tab closes its workspace. `None` only where this
/// was the last pane of the last tab of the last workspace.
pub open spec fn pane_closed(m: Model, id: PaneId) -> Option<Turn> {
    let w = ws_with(m.list, id);
    let t = tab_with(m.list[w].tabs, id);
    if w >= m.list.len() {
        Some(Turn { model: m, gone: Seq::empty(), focus: None })
    } else if leaves(m.list[w].tabs[t].tree).len() > 1 {
        let ws = m.list[w];
        let next = with_ws(m, w, with_tab(ws, t, without_pane(ws.tabs[t], id)));
        Some(
            Turn {
                model: next,
                gone: seq![id],
                focus: if w == m.active && t == ws.active_tab {
                    Some(active_pane(next))
                } else {
                    None
                },
            },
        )
    } else if m.list[w].tabs.len() > 1 {
        Some(tab_closed(m, w, t))
    } else if m.list.len() > 1 {
        Some(ws_removed(m, w))
    } else {
        None
    }
}

proof fn lemma_tab_closed_ok(m: Model, w: int, t: int)
    requires
        model_ok(m),
        0 <= w < m.list.len(),
        0 <= t < m.list[w].tabs.len(),
        m.list[w].tabs.len() > 1,
    ensures
        model_ok(tab_closed(m, w, t).model),
{
    let ws = m.list[w];
    let after = without_tab(ws, t);
    let next = tab_closed(m, w, t).model;
    assert(ws_ok(ws));
    assert forall|u: int| 0 <= u < after.tabs.len() implies tab_ok(#[trigger] after.tabs[u]) by {
        assert(after.tabs[u] == ws.tabs[if u < t {
            u
        } else {
            u + 1
        }]);
    }
    assert(ws_ok(after));
    assert forall|v: int| 0 <= v < next.list.len() implies ws_ok(#[trigger] next.list[v]) by {
        if v != w {
            assert(next.list[v] == m.list[v]);
        }
    }
    let fw = |v: int, u: int, i: int| v;
    let ft = |v: int, u: int, i: int|
        if v == w && u >= t {
            u + 1
        } else {
            u
        };
    let fi = |v: int, u: int, i: int| i;
    assert forall|v: int, u: int, i: int| #[trigger] has_pane(next.list, v, u, i) implies has_pane(
        m.list,
        fw(v, u, i),
        ft(v, u, i),
        fi(v, u, i),
    ) && pane(m.list, fw(v, u, i), ft(v, u, i), fi(v, u, i)) == pane(next.list, v, u, i) by {
        if v == w {
            assert(after.tabs[u] == ws.tabs[ft(v, u, i)]);
        } else {
            assert(next.list[v] == m.list[v]);
        }
    }
    lemma_embedded(m.list, next.list, m.next_pane, fw, ft, fi);
}

proof fn lemma_fresh_ws_ok(name: Seq<char>, id: PaneId)
    ensures
        ws_ok(fresh_ws(name, id)),
        leaves(fresh_ws(name, id).tabs[0].tree) == seq![id],
{
    let ws = fresh_ws(name, id);
    assert(leaves(Tree::Leaf(id)) == seq![id]);
    assert(leaves(ws.tabs[0].tree)[0] == id);
    assert(tab_ok(ws.tabs[0]));
}

proof fn lemma_ws_removed_ok(m: Model, w: int)
    requires
        model_ok(m),
        0 <= w < m.list.len(),
        0 <= m.next_pane < u64::MAX,
    ensures
        model_ok(ws_removed(m, w).model),
{
    let next = ws_removed(m, w).model;
    if m.list.len() == 1 {
        let id = m.next_pane as PaneId;
        let name = numbered_name(m.next_number);
        lemma_fresh_ws_ok(name, id);
        assert(next.list[0] == fresh_ws(name, id));
        assert forall|a: int, t: int, i: int| #[trigger] has_pane(next.list, a, t, i) implies a == 0
            && t == 0 && i == 0 by {}
    } else {
        assert forall|v: int| 0 <= v < next.list.len() implies ws_ok(#[trigger] next.list[v]) by {
            assert(next.list[v] == m.list[if v < w {
                v
            } else {
                v + 1
            }]);
        }
        let fw = |v: int, u: int, i: int|
            if v < w {
                v
            } else {
                v + 1
            };
        let ft = |v: int, u: int, i: int| u;
        let fi = |v: int, u: int, i: int| i;
        assert forall|v: int, u: int, i: int| #[trigger] has_pane(next.list, v, u, i) implies has_pane(
            m.list,
            fw(v, u, i),
            ft(v, u, i),
            fi(v, u, i),
        ) && pane(m.list, fw(v, u, i), ft(v, u, i), fi(v, u, i)) == pane(next.list, v, u, i) by {
            assert(next.list[v] == m.list[fw(v, u, i)]);
        }
        lemma_embedded(m.list, next.list, m.next_pane, fw, ft, fi);
    }
}

proof fn lemma_without_pane(m: Model, w: int, t: int, id: PaneId)
    requires
        model_ok(m),
        0 <= w < m.list.len(),
        0 <= t < m.list[w].tabs.len(),
        leaves(m.list[w].tabs[t].tree).contains(id),
        leaves(m.list[w].tabs[t].tree).len() > 1,
    ensures
        remove_tree(m.list[w].tabs[t].tree, id) is Some,
        leaves(without_pane(m.list[w].tabs[t], id).tree).len() > 0,
        leaves(without_pane(m.list[w].tabs[t], id).tree).len() + 1 == leaves(
            m.list[w].tabs[t].tree,
        ).len(),
        model_ok(
            with_ws(m, w, with_tab(m.list[w], t, without_pane(m.list[w].tabs[t], id))),
        ),
{
    let ws = m.list[w];
    let tab = ws.tabs[t];
    assert(ws_ok(ws));
    assert(tab_ok(tab));
    let before = leaves(tab.tree);
    let k = lemma_remove_leaves(tab.tree, id);
    if tab.tree is Leaf {
        assert(before.len() == 1);
    }
    lemma_remove_in_order(tab.tree, id);
    let after_tab = without_pane(tab, id);
    let rest = leaves(after_tab.tree);
    assert(dropped(before, rest, k, id));
    let at = before.index_of(id);
    assert(before[at] == id) by {
        assert(before.contains(id));
    }
    assert(has_pane(m.list, w, t, at) && has_pane(m.list, w, t, k));
    assert(at == k);
    if tab.active == id {
        let j = if at < rest.len() {
            at
        } else {
            rest.len() - 1
        };
        assert(rest[j] == after_tab.active);
    } else {
        let a = choose|a: int| 0 <= a < before.len() && before[a] == tab.active;
        let b = if a < k {
            a
        } else {
            a - 1
        };
        assert(rest[b] == tab.active);
    }
    assert(tab_ok(after_tab));
    let after = with_tab(ws, t, after_tab);
    let next = with_ws(m, w, after);
    assert forall|u: int| 0 <= u < after.tabs.len() implies tab_ok(#[trigger] after.tabs[u]) by {
        if u != t {
            assert(after.tabs[u] == ws.tabs[u]);
        }
    }
    assert forall|v: int| 0 <= v < next.list.len() implies ws_ok(#[trigger] next.list[v]) by {
        if v != w {
            assert(next.list[v] == m.list[v]);
        }
    }
    let fw = |v: int, u: int, i: int| v;
    let ft = |v: int, u: int, i: int| u;
    let fi = |v: int, u: int, i: int|
        if v == w && u == t && i >= k {
            i + 1
        } else {
            i
        };
    assert forall|v: int, u: int, i: int| #[trigger] has_pane(next.list, v, u, i) implies has_pane(
        m.list,
        fw(v, u, i),
        ft(v, u, i),
        fi(v, u, i),
    ) && pane(m.list, fw(v, u, i), ft(v, u, i), fi(v, u, i)) == pane(next.list, v, u, i) by {
        if v != w {
            assert(next.list[v] == m.list[v]);
        } else if u != t {
            assert(next.list[v].tabs[u] == m.list[v].tabs[u]);
        }
    }
    lemma_embedded(m.list, next.list, m.next_pane, fw, ft, fi);
}

/// The active tab of the active workspace split: a fresh pane beside the
/// active one, which gets the focus.
pub open spec fn active_split(m: Model, direction: Direction) -> Model {
    let ws = m.list[m.active];
    let tab = ws.tabs[ws.active_tab];
    let id = m.next_pane as PaneId;
    Model {
        list: m.list.update(
            m.active,
            with_tab(
                ws,
                ws.active_tab,
                Tab { tree: split_tree(tab.tree, tab.active, direction, id)->0, active: id },
            ),
        ),
        next_pane: m.next_pane + 1,
        ..m
    }
}

proof fn lemma_active_split_ok(m: Model, direction: Direction)
    requires
        model_ok(m),
        0 <= m.next_pane < u64::MAX,
        leaves(m.list[m.active].tabs[m.list[m.active].active_tab].tree).len() < WHOLE,
    ensures
        ({
            let tab = m.list[m.active].tabs[m.list[m.active].active_tab];
            split_tree(tab.tree, tab.active, direction, m.next_pane as PaneId) is Some
        }),
        model_ok(active_split(m, direction)),
{
    let w = m.active;
    let ws = m.list[w];
    let t = ws.active_tab;
    assert(ws_ok(ws));
    let tab = ws.tabs[t];
    assert(tab_ok(tab));
    let id = m.next_pane as PaneId;
    let k = lemma_split_leaves(tab.tree, tab.active, direction, id);
    lemma_split_in_order(tab.tree, tab.active, direction, id);
    let next = active_split(m, direction);
    let after_tab = next.list[w].tabs[t];
    let before = leaves(tab.tree);
    let at = if direction.before() {
        k
    } else {
        k + 1
    };
    let rest = leaves(after_tab.tree);
    assert(rest == before.insert(at, id));
    assert(rest[at] == id);
    assert(tab_ok(after_tab));
    let after = next.list[w];
    assert forall|u: int| 0 <= u < after.tabs.len() implies tab_ok(#[trigger] after.tabs[u]) by {
        if u != t {
            assert(after.tabs[u] == ws.tabs[u]);
        }
    }
    assert forall|v: int| 0 <= v < next.list.len() implies ws_ok(#[trigger] next.list[v]) by {
        if v != w {
            assert(next.list[v] == m.list[v]);
        }
    }
    let fi = |v: int, u: int, i: int|
        if v == w && u == t && i > at {
            i - 1
        } else {
            i
        };
    assert forall|v: int, u: int, i: int| #[trigger] has_pane(next.list, v, u, i) && !(v == w && u
        == t && i == at) implies has_pane(m.list, v, u, fi(v, u, i)) && pane(
        m.list,
        v,
        u,
        fi(v, u, i),
    ) == pane(next.list, v, u, i) by {
        if v != w {
            assert(next.list[v] == m.list[v]);
        } else if u != t {
            assert(next.list[v].tabs[u] == m.list[v].tabs[u]);
        }
    }
    assert(has_pane(next.list, w, t, at));
    lemma_grown(m.list, next.list, m.next_pane, w, t, at, fi);
}

/// A new tab in the active workspace, with the focus.
pub open spec fn tab_added(m: Model) -> Model {
    let ws = m.list[m.active];
    let id = m.next_pane as PaneId;
    Model {
        list: m.list.update(
            m.active,
            Ws {
                tabs: ws.tabs.push(Tab { tree: Tree::Leaf(id), active: id }),
                active_tab: ws.tabs.len() as int,
                ..ws
            },
        ),
        next_pane: m.next_pane + 1,
        ..m
    }
}

proof fn lemma_tab_added_ok(m: Model)
    requires
        model_ok(m),
        0 <= m.next_pane < u64::MAX,
    ensures
        model_ok(tab_added(m)),
{
    let w = m.active;
    let ws = m.list[w];
    assert(ws_ok(ws));
    let id = m.next_pane as PaneId;
    let next = tab_added(m);
    let after = next.list[w];
    let t = ws.tabs.len() as int;
    assert(leaves(after.tabs[t].tree)[0] == id);
    assert(tab_ok(after.tabs[t]));
    assert forall|u: int| 0 <= u < after.tabs.len() implies tab_ok(#[trigger] after.tabs[u]) by {
        if u != t {
            assert(after.tabs[u] == ws.tabs[u]);
        }
    }
    assert forall|v: int| 0 <= v < next.list.len() implies ws_ok(#[trigger] next.list[v]) by {
        if v != w {
            assert(next.list[v] == m.list[v]);
        }
    }
    let fi = |v: int, u: int, i: int| i;
    assert forall|v: int, u: int, i: int| #[trigger] has_pane(next.list, v, u, i) && !(v == w && u
        == t && i == 0) implies has_pane(m.list, v, u, fi(v, u, i)) && pane(
        m.list,
        v,
        u,
        fi(v, u, i),
    ) == pane(next.list, v, u, i) by {
        if v != w {
            assert(next.list[v] == m.list[v]);
        } else {
            assert(u != t);
            assert(next.list[v].tabs[u] == m.list[v].tabs[u]);
        }
    }
    assert(has_pane(next.list, w, t, 0));
    lemma_grown(m.list, next.list, m.next_pane, w, t, 0, fi);
}

/// A new workspace with one pane, which is active and has the cursor.
pub open spec fn ws_added(m: Model) -> Model {
    let id = m.next_pane as PaneId;
    Model {
        list: m.list.push(fresh_ws(numbered_name(m.next_number), id)),
        active: m.list.len() as int,
        selected: m.list.len() as int,
        next_number: m.next_number + 1,
        next_pane: m.next_pane + 1,
    }
}

/// A new workspace keeps everything in order.
pub proof fn lemma_ws_added_ok(m: Model)
    requires
        model_ok(m) || (m.list.len() == 0),
        0 <= m.next_pane < u64::MAX,
    ensures
        model_ok(ws_added(m)),
{
    let id = m.next_pane as PaneId;
    let name = numbered_name(m.next_number);
    lemma_fresh_ws_ok(name, id);
    let next = ws_added(m);
    let w = m.list.len() as int;
    assert(next.list[w] == fresh_ws(name, id));
    assert forall|v: int| 0 <= v < next.list.len() implies ws_ok(#[trigger] next.list[v]) by {
        if v != w {
            assert(next.list[v] == m.list[v]);
        }
    }
    let fi = |v: int, u: int, i: int| i;
    assert forall|v: int, u: int, i: int| #[trigger] has_pane(next.list, v, u, i) && !(v == w && u
        == 0 && i == 0) implies has_pane(m.list, v, u, fi(v, u, i)) && pane(
        m.list,
        v,
        u,
        fi(v, u, i),
    ) == pane(next.list, v, u, i) by {
        if v != w {
            assert(next.list[v] == m.list[v]);
        }
    }
    assert(has_pane(next.list, w, 0, 0));
    lemma_grown(m.list, next.list, m.next_pane, w, 0, 0, fi);
}

/// The active workspace with tab `t` in front.
pub open spec fn tab_selected(m: Model, t: int) -> Model {
    with_ws(m, m.active, Ws { active_tab: t, ..m.list[m.active] })
}

/// Where a cursor that goes round `n` places comes to from `at`.
pub open spec fn round(at: int, delta: int, n: int) -> int {
    (at + delta) % n
}

impl Workspaces {
    /// There is always a workspace, a tab in it and a pane in that, and each
    /// of them one that is active.
    pub open spec fn wf(&self) -> bool {
        model_ok(self@)
    }

    /// A window with one workspace and one pane in it.
    pub fn new() -> (r: Self)
        ensures
            r.wf(),
            r@ == ws_added(
                Model { list: Seq::empty(), active: 0, selected: 0, next_number: 1, next_pane: 0 },
            ),
    {
        let mut r = Workspaces {
            list: Vec::new(),
            active_ws: 0,
            ws_selected: 0,
            next_ws_number: 1,
            next_pane_id: 0,
        };
        let ghost empty = Model {
            list: Seq::empty(),
            active: 0,
            selected: 0,
            next_number: 1,
            next_pane: 0,
        };
        assert(r@.list =~= Seq::empty());
        proof {
            lemma_ws_added_ok(empty);
        }
        let id = r.push_fresh();
        r
    }

    /// A fresh workspace at the end of the list, which becomes active.
    fn push_fresh(&mut self) -> (id: PaneId)
        requires
            old(self).next_pane_id < u64::MAX,
            old(self).next_ws_number < u64::MAX,
        ensures
            final(self)@ == ws_added(old(self)@),
            id == old(self).next_pane_id,
    {
        let ghost before = self@;
        let id = self.next_pane_id;
        self.next_pane_id = id + 1;
        let name = self.next_ws_name();
        let ws = fresh_workspace(name, id);
        self.list.push(ws);
        self.active_ws = self.list.len() - 1;
        self.ws_selected = self.active_ws;
        assert(self@.list =~= ws_added(before).list);
        id
    }

    /// The name of the next workspace.
    pub fn next_ws_name(&mut self) -> (r: String)
        requires
            old(self).next_ws_number < u64::MAX,
        ensures
            r@ == numbered_name(old(self)@.next_number),
            final(self)@ == (Model { next_number: old(self)@.next_number + 1, ..old(self)@ }),
            final(self).list == old(self).list,
    {
        let n = self.next_ws_number;
        self.next_ws_number = n + 1;
        let mut out = "workspace ".to_owned();
        push_decimal(&mut out, n);
        out
    }

    /// The pane that has the focus.
    pub fn active_id(&self) -> (id: PaneId)
        requires
            self.wf(),
        ensures
            id == active_pane(self@),
    {
        assert(ws_ok(self@.list[self.active_ws as int]));
        let ws = &self.list[self.active_ws];
        ws.tabs[ws.active_tab].active
    }

    /// Which (workspace, tab) owns this pane: panes in background tabs can
    /// still exit and need to be removed from wherever they live.
    pub fn locate_pane(&self, id: PaneId) -> (r: Option<(usize, usize)>)
        ensures
            match r {
                None => ws_with(self@.list, id) == self@.list.len(),
                Some((w, t)) => w == ws_with(self@.list, id) && w < self@.list.len() && t
                    == tab_with(self@.list[w as int].tabs, id) && t
                    < self@.list[w as int].tabs.len(),
            },
    {
        let ghost all = self@.list;
        let mut w: usize = 0;
        assert(all.skip(0) =~= all);
        while w < self.list.len()
            invariant
                w <= self.list.len(),
                all == self@.list,
                ws_with(all, id) == w + ws_with(all.skip(w as int), id),
            decreases self.list.len() - w,
        {
            let ghost rest = all.skip(w as int);
            assert(rest[0] == self.list@[w as int]@);
            assert(rest.skip(1) =~= all.skip(w + 1));
            let t = find_tab(&self.list[w].tabs, id);
            if t < self.list[w].tabs.len() {
                return Some((w, t));
            }
            w += 1;
        }
        None
    }

    /// Split the active pane: a fresh pane beside it, which gets the focus.
    pub fn split_active(&mut self, direction: Direction) -> (id: PaneId)
        requires
            old(self).wf(),
            old(self).next_pane_id < u64::MAX,
            leaves(
                old(self)@.list[old(self)@.active].tabs[old(self)@.list[old(
                    self,
                )@.active].active_tab].tree,
            ).len() < WHOLE,
        ensures
            final(self).wf(),
            final(self)@ == active_split(old(self)@, direction),
            id == active_pane(final(self)@),
    {
        let ghost before = self@;
        proof {
            lemma_active_split_ok(before, direction);
            assert(ws_ok(before.list[before.active]));
        }
        let id = self.next_pane_id;
        self.next_pane_id = id + 1;
        let w = self.active_ws;
        let ghost ws = self.list@[w as int]@;
        let t = self.list[w].active_tab;
        let ghost tab = ws.tabs[t as int];
        proof {
            assert(tab_ok(tab));
            lemma_in_order_parallel(tab.tree);
        }
        let mut moved = TabState { layout: Node::leaf(id), active: id };
        std::mem::swap(&mut moved, &mut self.list[w].tabs[t]);
        assert(moved@ == tab);
        let target = moved.active;
        moved.layout.split(&target, direction, id);
        moved.active = id;
        let ghost new_tab = moved@;
        let wk = &mut self.list[w];
        wk.tabs.set(t, moved);
        proof {
            let after = active_split(before, direction);
            assert(self@.list[w as int].tabs =~= ws.tabs.update(t as int, new_tab));
            assert(self@.list =~= after.list);
        }
        id
    }

    /// Close a pane wherever it lives, cascading upward: the last pane closes
    /// its tab, the last tab closes its workspace. Returns `None` only when
    /// this was the last pane of the last tab of the last workspace: the
    /// caller decides whether that closes the window.
    pub fn close_pane(&mut self, id: PaneId) -> (r: Option<Closing>)
        requires
            old(self).wf(),
            old(self).next_pane_id < u64::MAX,
            old(self).next_ws_number < u64::MAX,
        ensures
            final(self).wf(),
            match (r, pane_closed(old(self)@, id)) {
                (None, None) => *final(self) == *old(self),
                (Some(c), Some(turn)) => final(self)@ == turn.model && c.gone@ == turn.gone
                    && c.focus == turn.focus,
                _ => false,
            },
    {
        let ghost before = self@;
        let (w, t) = match self.locate_pane(id) {
            None => {
                let gone: Vec<PaneId> = Vec::new();
                assert(gone@ =~= Seq::empty());
                return Some(Closing { gone, focus: None });
            },
            Some(p) => p,
        };
        let ghost ws = before.list[w as int];
        let ghost tab = ws.tabs[t as int];
        proof {
            lemma_tab_with(ws.tabs, id);
            assert(ws_ok(ws));
            assert(self.list@[w as int].tabs@[t as int]@ == tab);
        }
        if self.list[w].tabs[t].layout.len() > 1 {
            proof {
                lemma_without_pane(before, w as int, t as int, id);
            }
            let order = self.list[w].tabs[t].layout.leaves();
            let mut moved = TabState { layout: Node::leaf(id), active: id };
            std::mem::swap(&mut moved, &mut self.list[w].tabs[t]);
            assert(moved@ == tab);
            moved.layout.remove(&id);
            if moved.active == id {
                proof {
                    assert forall|i: int, j: int|
                        0 <= i < order@.len() && 0 <= j < order@.len() && order@[i] == id
                            && order@[j] == id implies i == j by {
                        assert(has_pane(before.list, w as int, t as int, i));
                        assert(has_pane(before.list, w as int, t as int, j));
                    }
                }
                let at = index_in(&order, id);
                let rest = moved.layout.leaves();
                assert(rest@ == leaves(without_pane(tab, id).tree));
                moved.active = rest[if at < rest.len() {
                    at
                } else {
                    rest.len() - 1
                }];
            }
            let ghost new_tab = moved@;
            assert(new_tab == without_pane(tab, id));
            let wk = &mut self.list[w];
            wk.tabs.set(t, moved);
            proof {
                assert(self@.list[w as int].tabs =~= ws.tabs.update(t as int, new_tab));
                assert(self@.list =~= before.list.update(
                    w as int,
                    with_tab(ws, t as int, new_tab),
                ));
            }
            let mut gone: Vec<PaneId> = Vec::new();
            gone.push(id);
            assert(gone@ =~= seq![id]);
            let focus = if w == self.active_ws && t == self.list[w].active_tab {
                Some(self.active_id())
            } else {
                None
            };
            return Some(Closing { gone, focus });
        }
        // Last pane in its tab: the tab goes with it.
        if self.list[w].tabs.len() > 1 {
            return Some(self.close_tab_at(w, t));
        }
        // Last tab too: the workspace goes with it.
        if self.list.len() > 1 {
            return Some(self.remove_workspace_at(w));
        }
        None
    }

    /// Remove a whole tab (all its panes). The workspace keeps at least one
    /// tab.
    pub fn close_tab_at(&mut self, w: usize, t: usize) -> (r: Closing)
        requires
            old(self).wf(),
            w < old(self)@.list.len(),
            t < old(self)@.list[w as int].tabs.len(),
            old(self)@.list[w as int].tabs.len() > 1,
        ensures
            final(self).wf(),
            ({
                let turn = tab_closed(old(self)@, w as int, t as int);
                final(self)@ == turn.model && r.gone@ == turn.gone && r.focus == turn.focus
            }),
    {
        let ghost before = self@;
        let ghost ws = before.list[w as int];
        proof {
            lemma_tab_closed_ok(before, w as int, t as int);
            assert(ws_ok(ws));
        }
        let was_active = w == self.active_ws && t == self.list[w].active_tab;
        let wk = &mut self.list[w];
        let tab = wk.tabs.remove(t);
        if wk.active_tab >= wk.tabs.len() {
            wk.active_tab = wk.tabs.len() - 1;
        } else if t < wk.active_tab {
            wk.active_tab = wk.active_tab - 1;
        }
        let gone = tab.layout.leaves();
        proof {
            assert(tab@ == ws.tabs[t as int]);
            assert(self@.list[w as int].tabs =~= ws.tabs.remove(t as int));
            assert(self@.list =~= before.list.update(w as int, without_tab(ws, t as int)));
        }
        let focus = if was_active {
            Some(self.active_id())
        } else {
            None
        };
        Closing { gone, focus }
    }

    /// Remove a workspace and everything in it. Deleting the only workspace
    /// swaps in a fresh default so the window never ends up empty.
    pub fn remove_workspace_at(&mut self, w: usize) -> (r: Closing)
        requires
            old(self).wf(),
            w < old(self)@.list.len(),
            old(self).next_pane_id < u64::MAX,
            old(self).next_ws_number < u64::MAX,
        ensures
            final(self).wf(),
            ({
                let turn = ws_removed(old(self)@, w as int);
                final(self)@ == turn.model && r.gone@ == turn.gone && r.focus == turn.focus
            }),
    {
        let ghost before = self@;
        proof {
            lemma_ws_removed_ok(before, w as int);
        }
        let was_active = w == self.active_ws;
        if self.list.len() == 1 {
            let id = self.next_pane_id;
            self.next_pane_id = id + 1;
            let name = self.next_ws_name();
            let old_ws = self.list.remove(0);
            assert(old_ws@ == before.list[0]);
            self.list.push(fresh_workspace(name, id));
            self.active_ws = 0;
            self.ws_selected = 0;
            assert(self@.list =~= seq![fresh_ws(numbered_name(before.next_number), id)]);
            return Closing { gone: panes_of(&old_ws.tabs), focus: Some(id) };
        }
        let old_ws = self.list.remove(w);
        assert(old_ws@ == before.list[w as int]);
        if self.active_ws >= self.list.len() {
            self.active_ws = self.list.len() - 1;
        } else if w < self.active_ws {
            self.active_ws = self.active_ws - 1;
        }
        if self.ws_selected >= self.list.len() {
            self.ws_selected = self.list.len() - 1;
        }
        assert(self@.list =~= before.list.remove(w as int));
        let focus = if was_active {
            Some(self.active_id())
        } else {
            None
        };
        Closing { gone: panes_of(&old_ws.tabs), focus }
    }

    /// A new tab in the active workspace, with the focus.
    pub fn new_tab(&mut self) -> (id: PaneId)
        requires
            old(self).wf(),
            old(self).next_pane_id < u64::MAX,
        ensures
            final(self).wf(),
            final(self)@ == tab_added(old(self)@),
            id == active_pane(final(self)@),
    {
        let ghost before = self@;
        proof {
            lemma_tab_added_ok(before);
        }
        let id = self.next_pane_id;
        self.next_pane_id = id + 1;
        let w = self.active_ws;
        let ghost ws = before.list[w as int];
        let wk = &mut self.list[w];
        wk.tabs.push(TabState { layout: Node::leaf(id), active: id });
        wk.active_tab = wk.tabs.len() - 1;
        proof {
            assert(self@.list[w as int].tabs =~= ws.tabs.push(
                Tab { tree: Tree::Leaf(id), active: id },
            ));
            assert(self@.list =~= tab_added(before).list);
        }
        id
    }

    /// Bring a tab of the active workspace to the front: the pane to focus,
    /// or `None` where there is no such tab.
    pub fn select_tab(&mut self, t: usize) -> (r: Option<PaneId>)
        requires
            old(self).wf(),
        ensures
            final(self).wf(),
            t >= old(self)@.list[old(self)@.active].tabs.len() ==> r is None && *final(self)
                == *old(self),
            t < old(self)@.list[old(self)@.active].tabs.len() ==> final(self)@ == tab_selected(
                old(self)@,
                t as int,
            ) && r == Some(active_pane(final(self)@)),
    {
        let ghost before = self@;
        let w = self.active_ws;
        assert(ws_ok(before.list[w as int]));
        if t >= self.list[w].tabs.len() {
            return None;
        }
        let wk = &mut self.list[w];
        wk.active_tab = t;
        proof {
            assert(self@.list =~= tab_selected(before, t as int).list);
            lemma_tab_selected_ok(before, t as int);
        }
        Some(self.active_id())
    }

    /// Move to the next (`1`) or previous (`-1`) tab in the active workspace.
    pub fn cycle_tab(&mut self, delta: i64) -> (r: Option<PaneId>)
        requires
            old(self).wf(),
            -1 <= delta <= 1,
        ensures
            final(self).wf(),
            ({
                let ws = old(self)@.list[old(self)@.active];
                if ws.tabs.len() < 2 {
                    r is None && *final(self) == *old(self)
                } else {
                    final(self)@ == tab_selected(
                        old(self)@,
                        round(ws.active_tab, delta as int, ws.tabs.len() as int),
                    ) && r == Some(active_pane(final(self)@))
                }
            }),
    {
        let w = self.active_ws;
        assert(ws_ok(self@.list[w as int]));
        let n = self.list[w].tabs.len();
        if n < 2 {
            return None;
        }
        let at = self.list[w].active_tab;
        let t = step_round(at, delta, n);
        self.select_tab(t)
    }

    /// A new workspace. It is a fresh context, not a continuation of the
    /// current one. Returns its pane, which gets the focus.
    pub fn new_workspace(&mut self) -> (id: PaneId)
        requires
            old(self).wf(),
            old(self).next_pane_id < u64::MAX,
            old(self).next_ws_number < u64::MAX,
        ensures
            final(self).wf(),
            final(self)@ == ws_added(old(self)@),
            id == active_pane(final(self)@),
    {
        proof {
            lemma_ws_added_ok(self@);
        }
        self.push_fresh()
    }

    /// Switch to a workspace: the pane to focus, or `None` where there is no
    /// such workspace.
    pub fn select_workspace(&mut self, w: usize) -> (r: Option<PaneId>)
        requires
            old(self).wf(),
        ensures
            final(self).wf(),
            w >= old(self)@.list.len() ==> r is None && *final(self) == *old(self),
            w < old(self)@.list.len() ==> final(self)@ == (Model {
                active: w as int,
                selected: w as int,
                ..old(self)@
            }) && r == Some(active_pane(final(self)@)),
    {
        if w >= self.list.len() {
            return None;
        }
        self.active_ws = w;
        self.ws_selected = w;
        Some(self.active_id())
    }

    /// Focus can move without going through an action, clicking a pane being
    /// the common case, so whatever pane of the active tab is actually
    /// focused is adopted. Returns whether that changed anything.
    pub fn adopt_focus(&mut self, id: PaneId) -> (r: bool)
        requires
            old(self).wf(),
        ensures
            final(self).wf(),
            ({
                let m = old(self)@;
                let ws = m.list[m.active];
                let tab = ws.tabs[ws.active_tab];
                if leaves(tab.tree).contains(id) && tab.active != id {
                    r && final(self)@ == with_ws(
                        m,
                        m.active,
                        with_tab(ws, ws.active_tab, Tab { active: id, ..tab }),
                    )
                } else {
                    !r && *final(self) == *old(self)
                }
            }),
    {
        let ghost before = self@;
        let w = self.active_ws;
        let ghost ws = before.list[w as int];
        assert(ws_ok(ws));
        let t = self.list[w].active_tab;
        let ghost tab = ws.tabs[t as int];
        let order = self.list[w].tabs[t].layout.leaves();
        if !holds(&order, id) || self.list[w].tabs[t].active == id {
            return false;
        }
        let mut moved = TabState { layout: Node::leaf(id), active: id };
        std::mem::swap(&mut moved, &mut self.list[w].tabs[t]);
        moved.active = id;
        let ghost new_tab = moved@;
        let wk = &mut self.list[w];
        wk.tabs.set(t, moved);
        proof {
            assert(new_tab == (Tab { active: id, ..tab }));
            assert(self@.list[w as int].tabs =~= ws.tabs.update(t as int, new_tab));
            assert(self@.list =~= before.list.update(w as int, with_tab(ws, t as int, new_tab)));
            lemma_adopted_ok(before, id);
        }
        true
    }

    /// The cursor in the workspaces panel goes down, not past the last one.
    pub fn ws_down(&mut self)
        requires
            old(self).wf(),
        ensures
            final(self).wf(),
            final(self)@ == (Model {
                selected: if old(self)@.selected + 1 < old(self)@.list.len() {
                    old(self)@.selected + 1
                } else {
                    old(self)@.list.len() - 1
                },
                ..old(self)@
            }),
    {
        if self.list.len() - self.ws_selected > 1 {
            self.ws_selected = self.ws_selected + 1;
        }
    }

    /// The cursor in the workspaces panel goes up, not past the first one.
    pub fn ws_up(&mut self)
        requires
            old(self).wf(),
        ensures
            final(self).wf(),
            final(self)@ == (Model {
                selected: if old(self)@.selected > 0 {
                    old(self)@.selected - 1
                } else {
                    0
                },
                ..old(self)@
            }),
    {
        if self.ws_selected > 0 {
            self.ws_selected = self.ws_selected - 1;
        }
    }

    /// The cursor of the workspaces panel goes to the active one.
    pub fn select_active(&mut self)
        requires
            old(self).wf(),
        ensures
            final(self).wf(),
            final(self)@ == (Model { selected: old(self)@.active, ..old(self)@ }),
    {
        self.ws_selected = self.active_ws;
    }

    /// Pin or unpin a workspace. Returns whether there is one.
    pub fn toggle_persist(&mut self, w: usize) -> (r: bool)
        requires
            old(self).wf(),
        ensures
            final(self).wf(),
            r == (w < old(self)@.list.len()),
            !r ==> *final(self) == *old(self),
            r ==> final(self)@ == with_ws(
                old(self)@,
                w as int,
                Ws { persist: !old(self)@.list[w as int].persist, ..old(self)@.list[w as int] },
            ),
    {
        let ghost before = self@;
        if w >= self.list.len() {
            return false;
        }
        let wk = &mut self.list[w];
        wk.persist = !wk.persist;
        proof {
            let ws = before.list[w as int];
            let after = Ws { persist: !ws.persist, ..ws };
            assert(self@.list =~= before.list.update(w as int, after));
            lemma_relabelled_ok(before, w as int, after);
        }
        true
    }

    /// Rename a workspace. Returns whether there is one.
    pub fn rename(&mut self, w: usize, name: String) -> (r: bool)
        requires
            old(self).wf(),
        ensures
            final(self).wf(),
            r == (w < old(self)@.list.len()),
            !r ==> *final(self) == *old(self),
            r ==> final(self)@ == with_ws(
                old(self)@,
                w as int,
                Ws { name: name@, ..old(self)@.list[w as int] },
            ),
    {
        let ghost before = self@;
        if w >= self.list.len() {
            return false;
        }
        let wk = &mut self.list[w];
        wk.name = name;
        proof {
            let after = Ws { name: name@, ..before.list[w as int] };
            assert(self@.list =~= before.list.update(w as int, after));
            lemma_relabelled_ok(before, w as int, after);
        }
        true
    }
}

proof fn lemma_tab_selected_ok(m: Model, t: int)
    requires
        model_ok(m),
        0 <= t < m.list[m.active].tabs.len(),
    ensures
        model_ok(tab_selected(m, t)),
{
    let after = Ws { active_tab: t, ..m.list[m.active] };
    assert(ws_ok(m.list[m.active]));
    lemma_relabelled_ok(m, m.active, after);
}

/// Names, pins and the choice of tab say nothing about panes.
proof fn lemma_relabelled_ok(m: Model, w: int, after: Ws)
    requires
        model_ok(m),
        0 <= w < m.list.len(),
        after.tabs == m.list[w].tabs,
        0 <= after.active_tab < after.tabs.len() || after.active_tab == m.list[w].active_tab,
    ensures
        model_ok(with_ws(m, w, after)),
{
    let next = with_ws(m, w, after);
    assert(ws_ok(m.list[w]));
    assert(ws_ok(after));
    assert forall|v: int| 0 <= v < next.list.len() implies ws_ok(#[trigger] next.list[v]) by {
        if v != w {
            assert(next.list[v] == m.list[v]);
        }
    }
    let fw = |v: int, u: int, i: int| v;
    let ft = |v: int, u: int, i: int| u;
    let fi = |v: int, u: int, i: int| i;
    lemma_embedded(m.list, next.list, m.next_pane, fw, ft, fi);
}

proof fn lemma_adopted_ok(m: Model, id: PaneId)
    requires
        model_ok(m),
        leaves(m.list[m.active].tabs[m.list[m.active].active_tab].tree).contains(id),
    ensures
        ({
            let ws = m.list[m.active];
            let tab = ws.tabs[ws.active_tab];
            model_ok(
                with_ws(
                    m,
                    m.active,
                    with_tab(ws, ws.active_tab, Tab { active: id, ..tab }),
                ),
            )
        }),
{
    let w = m.active;
    let ws = m.list[w];
    assert(ws_ok(ws));
    let t = ws.active_tab;
    let tab = Tab { active: id, ..ws.tabs[t] };
    let after = with_tab(ws, t, tab);
    let next = with_ws(m, w, after);
    assert(tab_ok(ws.tabs[t]));
    assert forall|u: int| 0 <= u < after.tabs.len() implies tab_ok(#[trigger] after.tabs[u]) by {
        if u != t {
            assert(after.tabs[u] == ws.tabs[u]);
        }
    }
    assert forall|v: int| 0 <= v < next.list.len() implies ws_ok(#[trigger] next.list[v]) by {
        if v != w {
            assert(next.list[v] == m.list[v]);
        }
    }
    let fw = |v: int, u: int, i: int| v;
    let ft = |v: int, u: int, i: int| u;
    let fi = |v: int, u: int, i: int| i;
    assert forall|v: int, u: int, i: int| #[trigger] has_pane(next.list, v, u, i) implies has_pane(
        m.list,
        fw(v, u, i),
        ft(v, u, i),
        fi(v, u, i),
    ) && pane(m.list, fw(v, u, i), ft(v, u, i), fi(v, u, i)) == pane(next.list, v, u, i) by {
        if v != w {
            assert(next.list[v] == m.list[v]);
        } else if u != t {
            assert(next.list[v].tabs[u] == m.list[v].tabs[u]);
        }
    }
    lemma_embedded(m.list, next.list, m.next_pane, fw, ft, fi);
}

pub(crate) fn fresh_workspace(name: String, id: PaneId) -> (r: Workspace)
    ensures
        r@ == fresh_ws(name@, id),
{
    let mut tabs: Vec<TabState> = Vec::new();
    tabs.push(TabState { layout: Node::leaf(id), active: id });
    let r = Workspace { name, persist: false, tabs, active_tab: 0 };
    assert(r@.tabs =~= fresh_ws(name@, id).tabs);
    r
}

fn holds(order: &Vec<PaneId>, id: PaneId) -> (r: bool)
    ensures
        r == order@.contains(id),
{
    let mut i: usize = 0;
    while i < order.len()
        invariant
            i <= order.len(),
            forall|k: int| 0 <= k < i ==> order@[k] != id,
        decreases order.len() - i,
    {
        if order[i] == id {
            return true;
        }
        i += 1;
    }
    false
}

/// Where a pane stands in an order that holds it once.
pub fn index_in(order: &Vec<PaneId>, id: PaneId) -> (r: usize)
    requires
        order@.contains(id),
        forall|i: int, j: int|
            0 <= i < order@.len() && 0 <= j < order@.len() && order@[i] == id && order@[j] == id
                ==> i == j,
    ensures
        r == order@.index_of(id),
        r < order@.len(),
{
    let mut i: usize = 0;
    while i < order.len()
        invariant
            i <= order.len(),
            order@.contains(id),
            forall|i: int, j: int|
                0 <= i < order@.len() && 0 <= j < order@.len() && order@[i] == id && order@[j] == id
                    ==> i == j,
            forall|k: int| 0 <= k < i ==> order@[k] != id,
        decreases order.len() - i,
    {
        if order[i] == id {
            proof {
                let k = order@.index_of(id);
                assert(order@[k] == id);
            }
            return i;
        }
        i += 1;
    }
    proof {
        let k = choose|k: int| 0 <= k < order@.len() && order@[k] == id;
        assert(order@[k] == id);
    }
    0
}

fn find_tab(tabs: &Vec<TabState>, id: PaneId) -> (t: usize)
    ensures
        t == tab_with(tab_views(tabs@), id),
        t <= tabs@.len(),
{
    let ghost all = tab_views(tabs@);
    let mut t: usize = 0;
    assert(all.skip(0) =~= all);
    while t < tabs.len()
        invariant
            t <= tabs.len(),
            all == tab_views(tabs@),
            tab_with(all, id) == t + tab_with(all.skip(t as int), id),
        decreases tabs.len() - t,
    {
        let ghost rest = all.skip(t as int);
        assert(rest[0] == tabs@[t as int]@);
        assert(rest.skip(1) =~= all.skip(t + 1));
        if holds(&tabs[t].layout.leaves(), id) {
            return t;
        }
        t += 1;
    }
    t
}

fn panes_of(tabs: &Vec<TabState>) -> (r: Vec<PaneId>)
    ensures
        r@ == tabs_panes(tab_views(tabs@)),
{
    let ghost all = tab_views(tabs@);
    let mut out: Vec<PaneId> = Vec::new();
    let mut t: usize = 0;
    assert(all.take(0) =~= Seq::empty());
    assert(out@ =~= Seq::empty());
    while t < tabs.len()
        invariant
            t <= tabs.len(),
            all == tab_views(tabs@),
            out@ == tabs_panes(all.take(t as int)),
        decreases tabs.len() - t,
    {
        assert(all.take(t + 1).drop_last() =~= all.take(t as int));
        assert(all.take(t + 1).last() == tabs@[t as int]@);
        let mut more = tabs[t].layout.leaves();
        out.append(&mut more);
        t += 1;
    }
    assert(all.take(t as int) =~= all);
    out
}

/// One step round `n` places.
pub fn step_round(at: usize, delta: i64, n: usize) -> (r: usize)
    requires
        at < n,
        -1 <= delta <= 1,
    ensures
        r == round(at as int, delta as int, n as int),
        r < n,
{
    if delta == 1 {
        if at + 1 == n {
            assert((at + 1) % (n as int) == 0) by (nonlinear_arith)
                requires
                    at + 1 == n,
                    n > 0,
            ;
            0
        } else {
            assert((at + 1) % (n as int) == at + 1) by (nonlinear_arith)
                requires
                    0 <= at + 1 < n,
            ;
            at + 1
        }
    } else if delta == -1 {
        if at == 0 {
            assert((0 - 1) % (n as int) == n - 1) by (nonlinear_arith)
                requires
                    n > 0,
            ;
            n - 1
        } else {
            assert((at - 1) % (n as int) == at - 1) by (nonlinear_arith)
                requires
                    0 <= at - 1 < n,
            ;
            at - 1
        }
    } else {
        assert((at + 0) % (n as int) == at) by (nonlinear_arith)
            requires
                0 <= at < n,
        ;
        at
    }
}

/// Going on to the next tab and back comes back to the same one.
pub proof fn lemma_round_trip(at: int, n: int)
    requires
        0 <= at < n,
    ensures
        round(round(at, 1, n), -1, n) == at,
        round(round(at, -1, n), 1, n) == at,
{
    if at + 1 == n {
        assert((at + 1) % n == 0) by (nonlinear_arith)
            requires
                at + 1 == n,
                n > 0,
        ;
        assert((0 - 1) % n == n - 1) by (nonlinear_arith)
            requires
                n > 0,
        ;
    } else {
        assert((at + 1) % n == at + 1) by (nonlinear_arith)
            requires
                0 <= at + 1 < n,
        ;
        assert(at % n == at) by (nonlinear_arith)
            requires
                0 <= at < n,
        ;
    }
    if at == 0 {
        assert((0 - 1) % n == n - 1) by (nonlinear_arith)
            requires
                n > 0,
        ;
        assert(n % n == 0) by (nonlinear_arith)
            requires
                n > 0,
        ;
    } else {
        assert((at - 1) % n == at - 1) by (nonlinear_arith)
            requires
                0 <= at - 1 < n,
        ;
        assert(at % n == at) by (nonlinear_arith)
            requires
                0 <= at < n,
        ;
    }
}

// --- What closing leaves ---

proof fn lemma_tabs_panes(tabs: Seq<Tab>, id: PaneId)
    ensures
        tabs_panes(tabs).contains(id) <==> exists|t: int|
            0 <= t < tabs.len() && leaves((#[trigger] tabs[t]).tree).contains(id),
    decreases tabs.len(),
{
    if tabs.len() > 0 {
        let rest = tabs.drop_last();
        let last = leaves(tabs.last().tree);
        let all = tabs_panes(tabs);
        lemma_tabs_panes(rest, id);
        if all.contains(id) {
            let k = all.index_of(id);
            if k < tabs_panes(rest).len() {
                assert(tabs_panes(rest)[k] == id);
                let t = choose|t: int|
                    0 <= t < rest.len() && leaves((#[trigger] rest[t]).tree).contains(id);
                assert(tabs[t] == rest[t]);
            } else {
                assert(last[k - tabs_panes(rest).len()] == id);
                assert(leaves(tabs[tabs.len() - 1].tree).contains(id));
            }
        }
        if exists|t: int| 0 <= t < tabs.len() && leaves((#[trigger] tabs[t]).tree).contains(id) {
            let t = choose|t: int|
                0 <= t < tabs.len() && leaves((#[trigger] tabs[t]).tree).contains(id);
            if t < rest.len() {
                assert(rest[t] == tabs[t]);
                let k = tabs_panes(rest).index_of(id);
                assert(tabs_panes(rest).contains(id));
                assert(all[k] == id);
            } else {
                let k = last.index_of(id);
                assert(last.contains(id));
                assert(all[tabs_panes(rest).len() + k] == id);
            }
        }
    }
}

proof fn lemma_tab_closed_panes(m: Model, w: int, t: int, id: PaneId)
    requires
        model_ok(m),
        0 <= w < m.list.len(),
        0 <= t < m.list[w].tabs.len(),
    ensures
        lives(tab_closed(m, w, t).model.list, id) <==> lives(m.list, id) && !leaves(
            m.list[w].tabs[t].tree,
        ).contains(id),
{
    let next = tab_closed(m, w, t).model.list;
    let order = leaves(m.list[w].tabs[t].tree);
    if lives(next, id) {
        let (v, u, i) = choose|v: int, u: int, i: int| #[trigger]
            has_pane(next, v, u, i) && pane(next, v, u, i) == id;
        let x = if v == w && u >= t {
            u + 1
        } else {
            u
        };
        assert(next[v].tabs[u] == m.list[v].tabs[x]);
        assert(has_pane(m.list, v, x, i) && pane(m.list, v, x, i) == id);
        if order.contains(id) {
            let j = order.index_of(id);
            assert(has_pane(m.list, w, t, j) && pane(m.list, w, t, j) == id);
        }
    }
    if lives(m.list, id) && !order.contains(id) {
        let (v, u, i) = choose|v: int, u: int, i: int| #[trigger]
            has_pane(m.list, v, u, i) && pane(m.list, v, u, i) == id;
        let x = if v == w && u > t {
            u - 1
        } else {
            u
        };
        assert(v != w || u != t);
        assert(next[v].tabs[x] == m.list[v].tabs[u]);
        assert(has_pane(next, v, x, i) && pane(next, v, x, i) == id);
    }
}

proof fn lemma_ws_removed_panes(m: Model, w: int, id: PaneId)
    requires
        model_ok(m),
        0 <= w < m.list.len(),
        m.list.len() > 1,
    ensures
        lives(ws_removed(m, w).model.list, id) <==> lives(m.list, id) && !tabs_panes(
            m.list[w].tabs,
        ).contains(id),
{
    let next = ws_removed(m, w).model.list;
    let tabs = m.list[w].tabs;
    lemma_tabs_panes(tabs, id);
    if lives(next, id) {
        let (v, u, i) = choose|v: int, u: int, i: int| #[trigger]
            has_pane(next, v, u, i) && pane(next, v, u, i) == id;
        let x = if v >= w {
            v + 1
        } else {
            v
        };
        assert(next[v] == m.list[x]);
        assert(has_pane(m.list, x, u, i) && pane(m.list, x, u, i) == id);
        if tabs_panes(tabs).contains(id) {
            let t = choose|t: int|
                0 <= t < tabs.len() && leaves((#[trigger] tabs[t]).tree).contains(id);
            let j = leaves(tabs[t].tree).index_of(id);
            assert(leaves(tabs[t].tree).contains(id));
            assert(has_pane(m.list, w, t, j) && pane(m.list, w, t, j) == id);
        }
    }
    if lives(m.list, id) && !tabs_panes(tabs).contains(id) {
        let (v, u, i) = choose|v: int, u: int, i: int| #[trigger]
            has_pane(m.list, v, u, i) && pane(m.list, v, u, i) == id;
        if v == w {
            assert(leaves(tabs[u].tree)[i] == id);
            assert(leaves(tabs[u].tree).contains(id));
        }
        let x = if v > w {
            v - 1
        } else {
            v
        };
        assert(next[x] == m.list[v]);
        assert(has_pane(next, x, u, i) && pane(next, x, u, i) == id);
    }
}

proof fn lemma_without_pane_panes(m: Model, w: int, t: int, gone: PaneId, id: PaneId)
    requires
        model_ok(m),
        0 <= w < m.list.len(),
        0 <= t < m.list[w].tabs.len(),
        leaves(m.list[w].tabs[t].tree).contains(gone),
        leaves(m.list[w].tabs[t].tree).len() > 1,
    ensures
        lives(
            with_ws(m, w, with_tab(m.list[w], t, without_pane(m.list[w].tabs[t], gone))).list,
            id,
        ) <==> lives(m.list, id) && id != gone,
{
    let ws = m.list[w];
    let tab = ws.tabs[t];
    let next = with_ws(m, w, with_tab(ws, t, without_pane(tab, gone))).list;
    lemma_without_pane(m, w, t, gone);
    let before = leaves(tab.tree);
    let k = lemma_remove_leaves(tab.tree, gone);
    let rest = leaves(without_pane(tab, gone).tree);
    assert(dropped(before, rest, k, gone));
    assert(has_pane(m.list, w, t, k) && pane(m.list, w, t, k) == gone);
    assert(next[w].tabs[t] == without_pane(tab, gone));
    if lives(next, id) {
        let (v, u, i) = choose|v: int, u: int, i: int| #[trigger]
            has_pane(next, v, u, i) && pane(next, v, u, i) == id;
        let x = if v == w && u == t && i >= k {
            i + 1
        } else {
            i
        };
        if v != w {
            assert(next[v] == m.list[v]);
        } else if u != t {
            assert(next[v].tabs[u] == m.list[v].tabs[u]);
        }
        assert(has_pane(m.list, v, u, x) && pane(m.list, v, u, x) == id);
    }
    if lives(m.list, id) && id != gone {
        let (v, u, i) = choose|v: int, u: int, i: int| #[trigger]
            has_pane(m.list, v, u, i) && pane(m.list, v, u, i) == id;
        let x = if v == w && u == t && i > k {
            i - 1
        } else {
            i
        };
        if v != w {
            assert(next[v] == m.list[v]);
        } else if u != t {
            assert(next[v].tabs[u] == m.list[v].tabs[u]);
        }
        assert(has_pane(next, v, u, x) && pane(next, v, u, x) == id);
    }
}

/// Closing a pane takes away that pane and no other: what lives afterwards
/// is what lived before, without what is reported gone, and the only pane
/// gone is the closed one.
pub proof fn lemma_close_takes_one(m: Model, closed: PaneId, id: PaneId)
    requires
        model_ok(m),
        pane_closed(m, closed) is Some,
    ensures
        lives(pane_closed(m, closed)->0.model.list, id) <==> lives(m.list, id) && id != closed,
        pane_closed(m, closed)->0.gone.contains(id) <==> id == closed && lives(m.list, closed),
{
    lemma_ws_with(m.list, closed);
    let w = ws_with(m.list, closed);
    let turn = pane_closed(m, closed)->0;
    if w >= m.list.len() {
        if lives(m.list, closed) {
            let (v, u, i) = choose|v: int, u: int, i: int| #[trigger]
                has_pane(m.list, v, u, i) && pane(m.list, v, u, i) == closed;
            lemma_located(m.list, v, u, i);
        }
    } else {
        let ws = m.list[w];
        let t = tab_with(ws.tabs, closed);
        lemma_tab_with(ws.tabs, closed);
        assert(ws_ok(ws));
        let order = leaves(ws.tabs[t].tree);
        let k = order.index_of(closed);
        assert(order[k] == closed);
        assert(has_pane(m.list, w, t, k) && pane(m.list, w, t, k) == closed);
        assert(lives(m.list, closed));
        if order.len() > 1 {
            lemma_without_pane_panes(m, w, t, closed, id);
            assert(turn.gone[0] == closed);
        } else {
            assert(k == 0);
            assert(order =~= seq![closed]);
            assert(order.contains(id) <==> id == closed) by {
                assert(order[0] == closed);
            }
            if ws.tabs.len() > 1 {
                lemma_tab_closed_panes(m, w, t, id);
            } else {
                assert(t == 0);
                lemma_ws_removed_panes(m, w, id);
                lemma_tabs_panes(ws.tabs, id);
                assert(leaves(ws.tabs[0].tree) == order);
                if order.contains(id) {
                    assert(leaves(ws.tabs[0].tree).contains(id));
                }
            }
        }
    }
}

/// The window closes only with its last pane: where closing a pane leaves
/// nothing, it was the only pane of the only tab of the only workspace.
pub proof fn lemma_last_pane(m: Model, closed: PaneId)
    requires
        model_ok(m),
    ensures
        pane_closed(m, closed) is None <==> m.list.len() == 1 && m.list[0].tabs.len() == 1
            && leaves(m.list[0].tabs[0].tree) == seq![closed],
{
    lemma_ws_with(m.list, closed);
    let w = ws_with(m.list, closed);
    if w < m.list.len() {
        let ws = m.list[w];
        lemma_tab_with(ws.tabs, closed);
        let t = tab_with(ws.tabs, closed);
        let order = leaves(ws.tabs[t].tree);
        let k = order.index_of(closed);
        assert(order[k] == closed);
        if order.len() <= 1 {
            assert(order =~= seq![closed]);
        }
    } else if m.list.len() == 1 && m.list[0].tabs.len() == 1 && leaves(m.list[0].tabs[0].tree)
        == seq![closed] {
        assert(has_pane(m.list, 0, 0, 0) && pane(m.list, 0, 0, 0) == closed);
        lemma_located(m.list, 0, 0, 0);
    }
}

/// Closing the pane of a tab that was just opened brings the tabs back.
pub proof fn lemma_close_undoes_new_tab(m: Model)
    requires
        model_ok(m),
        0 <= m.next_pane < u64::MAX,
    ensures
        ({
            let id = m.next_pane as PaneId;
            &&& pane_closed(tab_added(m), id) is Some
            &&& pane_closed(tab_added(m), id)->0.gone == seq![id]
            &&& pane_closed(tab_added(m), id)->0.model.list.len() == m.list.len()
            &&& forall|w: int|
                0 <= w < m.list.len() ==> (#[trigger] pane_closed(
                    tab_added(m),
                    id,
                )->0.model.list[w]).tabs == m.list[w].tabs
        }),
{
    let id = m.next_pane as PaneId;
    let w = m.active;
    let ws = m.list[w];
    assert(ws_ok(ws));
    let opened = tab_added(m);
    lemma_tab_added_ok(m);
    let t = ws.tabs.len() as int;
    assert(leaves(opened.list[w].tabs[t].tree) == seq![id]);
    assert(has_pane(opened.list, w, t, 0) && pane(opened.list, w, t, 0) == id);
    lemma_located(opened.list, w, t, 0);
    let turn = pane_closed(opened, id)->0;
    assert(turn == tab_closed(opened, w, t));
    assert(turn.model.list[w].tabs =~= ws.tabs);
}

/// A pane put into one tab lives there, and every other pane lives where it
/// lived.
proof fn lemma_inserted_lives(
    list: Seq<Ws>,
    next: Seq<Ws>,
    w: int,
    t: int,
    at: int,
    fresh: PaneId,
    id: PaneId,
)
    requires
        0 <= w < list.len() == next.len(),
        forall|v: int| 0 <= v < list.len() && v != w ==> #[trigger] next[v] == list[v],
        0 <= t < list[w].tabs.len() == next[w].tabs.len(),
        forall|u: int|
            0 <= u < list[w].tabs.len() && u != t ==> #[trigger] next[w].tabs[u]
                == list[w].tabs[u],
        0 <= at <= leaves(list[w].tabs[t].tree).len(),
        leaves(next[w].tabs[t].tree) == leaves(list[w].tabs[t].tree).insert(at, fresh),
    ensures
        lives(next, id) <==> lives(list, id) || id == fresh,
{
    assert(has_pane(next, w, t, at) && pane(next, w, t, at) == fresh);
    if lives(next, id) && id != fresh {
        let (v, u, i) = choose|v: int, u: int, i: int| #[trigger]
            has_pane(next, v, u, i) && pane(next, v, u, i) == id;
        let x = if v == w && u == t && i > at {
            i - 1
        } else {
            i
        };
        if v != w {
            assert(next[v] == list[v]);
        } else if u != t {
            assert(next[v].tabs[u] == list[v].tabs[u]);
        }
        assert(has_pane(list, v, u, x) && pane(list, v, u, x) == id);
    }
    if lives(list, id) {
        let (v, u, i) = choose|v: int, u: int, i: int| #[trigger]
            has_pane(list, v, u, i) && pane(list, v, u, i) == id;
        let x = if v == w && u == t && i >= at {
            i + 1
        } else {
            i
        };
        if v != w {
            assert(next[v] == list[v]);
        } else if u != t {
            assert(next[v].tabs[u] == list[v].tabs[u]);
        }
        assert(has_pane(next, v, u, x) && pane(next, v, u, x) == id);
    }
}

/// Splitting adds one pane, which has the focus, and takes none away.
pub proof fn lemma_split_adds_one(m: Model, direction: Direction, id: PaneId)
    requires
        model_ok(m),
        0 <= m.next_pane < u64::MAX,
        leaves(m.list[m.active].tabs[m.list[m.active].active_tab].tree).len() < WHOLE,
    ensures
        lives(active_split(m, direction).list, id) <==> lives(m.list, id) || id == m.next_pane,
        active_pane(active_split(m, direction)) == m.next_pane,
{
    let w = m.active;
    let ws = m.list[w];
    let t = ws.active_tab;
    assert(ws_ok(ws));
    let tab = ws.tabs[t];
    assert(tab_ok(tab));
    let fresh = m.next_pane as PaneId;
    let k = lemma_split_leaves(tab.tree, tab.active, direction, fresh);
    let at = if direction.before() {
        k
    } else {
        k + 1
    };
    lemma_active_split_ok(m, direction);
    let tree = split_tree(tab.tree, tab.active, direction, fresh)->0;
    assert(leaves(tree) == leaves(tab.tree).insert(at, fresh));
    lemma_inserted_lives(m.list, active_split(m, direction).list, w, t, at, fresh, id);
}

// --- The panel's footer ---

/// Input modes for the workspaces panel footer, mirroring the file tree's.
#[derive(Debug)]
pub enum WsInput {
    Add { buffer: String },
    Rename { buffer: String },
    ConfirmDelete,
}

/// What a key in the footer asks for.
#[derive(Debug)]
pub enum WsRequest {
    Nothing,
    /// A new workspace of this name.
    Create(String),
    /// This name for the selected one.
    Rename(String),
    /// The selected one removed.
    Delete,
}

/// The text after a key that is not one of the special ones.
pub open spec fn typed(buffer: Seq<char>, ks: Keystroke) -> Seq<char> {
    if ks.key@ == "backspace"@ {
        if buffer.len() == 0 {
            buffer
        } else {
            buffer.drop_last()
        }
    } else if !ks.modifiers.platform && !ks.modifiers.control && ks.key_char is Some {
        buffer + ks.key_char->0@
    } else {
        buffer
    }
}

fn type_key(buffer: &str, ks: &Keystroke) -> (r: String)
    ensures
        r@ == typed(buffer@, *ks),
{
    if same(ks.key.as_str(), "backspace") {
        let mut v = chars_of(buffer);
        let _ = v.pop();
        return string_of(v.as_slice());
    }
    let mut out = buffer.to_owned();
    if !ks.modifiers.platform && !ks.modifiers.control {
        if let Some(c) = &ks.key_char {
            out.push_str(c.as_str());
        }
    }
    out
}

/// Whether the footer's input is over with a key.
pub open spec fn input_over(input: WsInput, key: Seq<char>) -> bool {
    input is ConfirmDelete || key == "escape"@ || key == "enter"@
}

/// A key in the panel's footer: the input that is still open, and what is
/// asked for. Escape gives up; enter takes the trimmed name, unless it is
/// empty; of a deletion, anything but `y` cancels.
pub fn on_ws_key(input: WsInput, ks: &Keystroke) -> (r: (Option<WsInput>, WsRequest))
    ensures
        r.0 is None <==> input_over(input, ks.key@),
        !input_over(input, ks.key@) ==> r.1 is Nothing && match input {
            WsInput::Add { buffer } => r.0 matches Some(WsInput::Add { buffer: b }) && b@ == typed(
                buffer@,
                *ks,
            ),
            WsInput::Rename { buffer } => r.0 matches Some(WsInput::Rename { buffer: b }) && b@
                == typed(buffer@, *ks),
            WsInput::ConfirmDelete => false,
        },
        input_over(input, ks.key@) ==> match input {
            WsInput::Add { buffer } => if ks.key@ == "enter"@ && trim(buffer@).len() > 0 {
                r.1 matches WsRequest::Create(n) && n@ == trim(buffer@)
            } else {
                r.1 is Nothing
            },
            WsInput::Rename { buffer } => if ks.key@ == "enter"@ && trim(buffer@).len() > 0 {
                r.1 matches WsRequest::Rename(n) && n@ == trim(buffer@)
            } else {
                r.1 is Nothing
            },
            WsInput::ConfirmDelete => if ks.key@ == "y"@ {
                r.1 is Delete
            } else {
                r.1 is Nothing
            },
        },
{
    proof {
        reveal_strlit("escape");
        reveal_strlit("enter");
        assert("escape"@.len() != "enter"@.len());
    }
    let key = ks.key.as_str();
    match input {
        WsInput::Add { buffer } => {
            if same(key, "escape") {
                return (None, WsRequest::Nothing);
            }
            if same(key, "enter") {
                let name = trimmed(buffer.as_str());
                if chars_of(name.as_str()).len() > 0 {
                    return (None, WsRequest::Create(name));
                }
                return (None, WsRequest::Nothing);
            }
            (Some(WsInput::Add { buffer: type_key(buffer.as_str(), ks) }), WsRequest::Nothing)
        },
        WsInput::Rename { buffer } => {
            if same(key, "escape") {
                return (None, WsRequest::Nothing);
            }
            if same(key, "enter") {
                let name = trimmed(buffer.as_str());
                if chars_of(name.as_str()).len() > 0 {
                    return (None, WsRequest::Rename(name));
                }
                return (None, WsRequest::Nothing);
            }
            (Some(WsInput::Rename { buffer: type_key(buffer.as_str(), ks) }), WsRequest::Nothing)
        },
        WsInput::ConfirmDelete => {
            if same(key, "y") {
                (None, WsRequest::Delete)
            } else {
                (None, WsRequest::Nothing)
            }
        },
    }
}

impl Workspaces {
    /// A new workspace under a name of its own. Returns its pane, which gets
    /// the focus.
    pub fn new_named_workspace(&mut self, name: String) -> (id: PaneId)
        requires
            old(self).wf(),
            old(self).next_pane_id < u64::MAX,
            old(self).next_ws_number < u64::MAX,
        ensures
            final(self).wf(),
            final(self)@ == with_ws(
                ws_added(old(self)@),
                old(self)@.list.len() as int,
                fresh_ws(name@, old(self)@.next_pane as PaneId),
            ),
            id == active_pane(final(self)@),
    {
        let ghost before = self@;
        let id = self.new_workspace();
        let w = self.active_ws;
        assert(self@.list[w as int] == fresh_ws(numbered_name(before.next_number), id));
        let _ = self.rename(w, name);
        assert(self@.list =~= ws_added(before).list.update(w as int, fresh_ws(name@, id)));
        id
    }

    /// What the panel's footer shows while it takes input.
    pub fn ws_footer_text(&self, input: &Option<WsInput>) -> (r: Option<String>)
        requires
            self.wf(),
        ensures
            match *input {
                None => r is None,
                Some(i) => r matches Some(s) && s@ == footer(i, self@.list[self@.selected].name),
            },
    {
        match input {
            None => None,
            Some(WsInput::Add { buffer }) => {
                let mut s = "new: ".to_owned();
                s.push_str(buffer.as_str());
                s.push_str("▏");
                Some(s)
            },
            Some(WsInput::Rename { buffer }) => {
                let mut s = "rename: ".to_owned();
                s.push_str(buffer.as_str());
                s.push_str("▏");
                Some(s)
            },
            Some(WsInput::ConfirmDelete) => {
                let mut s = "delete ".to_owned();
                s.push_str(self.list[self.ws_selected].name.as_str());
                s.push_str("? (y/n)");
                Some(s)
            },
        }
    }
}

/// What the panel's footer shows while it takes input.
pub open spec fn footer(input: WsInput, selected: Seq<char>) -> Seq<char> {
    match input {
        WsInput::Add { buffer } => "new: "@ + buffer@ + "▏"@,
        WsInput::Rename { buffer } => "rename: "@ + buffer@ + "▏"@,
        WsInput::ConfirmDelete => "delete "@ + selected + "? (y/n)"@,
    }
}

// --- Resizing ---

/// The active tab's layout.
pub open spec fn active_layout(m: Model) -> Tree<PaneId> {
    m.list[m.active].tabs[m.list[m.active].active_tab].tree
}

/// The workspaces with another layout in the active tab.
pub open spec fn with_layout(m: Model, tree: Tree<PaneId>) -> Model {
    let ws = m.list[m.active];
    with_ws(m, m.active, with_tab(ws, ws.active_tab, Tab { tree, ..ws.tabs[ws.active_tab] }))
}

proof fn lemma_with_layout_ok(m: Model, tree: Tree<PaneId>)
    requires
        model_ok(m),
        in_order(tree),
        leaves(tree) == leaves(active_layout(m)),
    ensures
        model_ok(with_layout(m, tree)),
{
    let w = m.active;
    let ws = m.list[w];
    assert(ws_ok(ws));
    let t = ws.active_tab;
    let next = with_layout(m, tree);
    let after = next.list[w];
    assert(tab_ok(ws.tabs[t]));
    assert forall|u: int| 0 <= u < after.tabs.len() implies tab_ok(#[trigger] after.tabs[u]) by {
        if u != t {
            assert(after.tabs[u] == ws.tabs[u]);
        }
    }
    assert forall|v: int| 0 <= v < next.list.len() implies ws_ok(#[trigger] next.list[v]) by {
        if v != w {
            assert(next.list[v] == m.list[v]);
        }
    }
    let fw = |v: int, u: int, i: int| v;
    let ft = |v: int, u: int, i: int| u;
    let fi = |v: int, u: int, i: int| i;
    assert forall|v: int, u: int, i: int| #[trigger] has_pane(next.list, v, u, i) implies has_pane(
        m.list,
        fw(v, u, i),
        ft(v, u, i),
        fi(v, u, i),
    ) && pane(m.list, fw(v, u, i), ft(v, u, i), fi(v, u, i)) == pane(next.list, v, u, i) by {
        if v != w {
            assert(next.list[v] == m.list[v]);
        } else if u != t {
            assert(next.list[v].tabs[u] == m.list[v].tabs[u]);
        }
    }
    lemma_embedded(m.list, next.list, m.next_pane, fw, ft, fi);
}

/// Where a drag begins: the pane that the split is measured by, the share of
/// the child it stands in, and all the shares.
pub struct DragStart {
    pub leaf: PaneId,
    pub share: u32,
    pub shares: Vec<u32>,
}

/// Where a drag of a divider begins, in a layout.
pub open spec fn drag_from(t: Tree<PaneId>, path: Seq<usize>, divider: int) -> Option<
    (PaneId, u32, Seq<u32>),
> {
    match subtree(t, path) {
        Some(Tree::Split { axis, children, ratios }) => if divider + 1 < children.len() {
            Some((leaves(children[divider])[0], ratios[divider], ratios))
        } else {
            None
        },
        _ => None,
    }
}

impl Workspaces {
    /// The pane in the active tab's layout that a divider's split is measured
    /// by: one inside the child before the divider, which spans the split's
    /// full extent along the axis scaled by its share, since nested splits
    /// always alternate axes.
    pub fn start_divider_drag(&self, path: &[usize], divider: usize) -> (r: Option<DragStart>)
        requires
            self.wf(),
        ensures
            match r {
                None => drag_from(active_layout(self@), path@, divider as int) is None,
                Some(d) => drag_from(active_layout(self@), path@, divider as int) == Some(
                    (d.leaf, d.share, d.shares@),
                ) && positive(d.shares@) && total(d.shares@) == WHOLE,
            },
    {
        let w = self.active_ws;
        assert(ws_ok(self@.list[w as int]));
        let t = self.list[w].active_tab;
        let ghost layout = active_layout(self@);
        proof {
            assert(self.list@[w as int].tabs@[t as int]@.tree == layout);
            assert(tab_ok(self@.list[w as int].tabs[t as int]));
            lemma_subtree_in_order(layout, path@);
        }
        match self.list[w].tabs[t].layout.at_path(path) {
            Some(Node::Split { axis, children, ratios }) => {
                proof {
                    lemma_trees(children@);
                    lemma_all_in_order(trees(children@));
                }
                if divider >= children.len() || divider + 1 >= children.len() {
                    return None;
                }
                let inside = children[divider].leaves();
                proof {
                    assert(in_order(trees(children@)[divider as int]));
                    lemma_has_leaf(trees(children@)[divider as int]);
                }
                Some(
                    DragStart {
                        leaf: inside[0],
                        share: ratios[divider],
                        shares: copy_shares(ratios),
                    },
                )
            },
            _ => None,
        }
    }

    /// A divider of the active tab's layout dragged to `delta` parts from
    /// where it was when the shares were `start`.
    pub fn update_divider_drag(
        &mut self,
        path: &[usize],
        divider: usize,
        start: &Vec<u32>,
        delta: i128,
        min: u32,
    )
        requires
            old(self).wf(),
            positive(start@),
            total(start@) == WHOLE,
        ensures
            final(self).wf(),
            final(self)@ == with_layout(
                old(self)@,
                dragged(
                    active_layout(old(self)@),
                    path@,
                    divider as int,
                    start@,
                    delta as int,
                    min as int,
                ),
            ),
    {
        let ghost before = self@;
        let w = self.active_ws;
        let ghost ws = before.list[w as int];
        assert(ws_ok(ws));
        let t = self.list[w].active_tab;
        let ghost tab = ws.tabs[t as int];
        proof {
            assert(tab_ok(tab));
            lemma_drag_in_order(
                tab.tree,
                path@,
                divider as int,
                start@,
                delta as int,
                min as int,
            );
        }
        let mut moved = TabState { layout: Node::leaf(0), active: 0 };
        std::mem::swap(&mut moved, &mut self.list[w].tabs[t]);
        assert(moved@ == tab);
        moved.layout.drag_divider(path, divider, start, delta, min);
        let ghost new_tab = moved@;
        let wk = &mut self.list[w];
        wk.tabs.set(t, moved);
        proof {
            assert(self@.list[w as int].tabs =~= ws.tabs.update(t as int, new_tab));
            assert(self@.list =~= with_layout(before, new_tab.tree).list);
            lemma_with_layout_ok(before, new_tab.tree);
        }
    }

    /// The share of the focused pane in the split that a resize along `axis`
    /// applies to.
    pub fn active_share(&self, axis: Axis) -> (r: Option<u32>)
        requires
            self.wf(),
        ensures
            r == share_along(active_layout(self@), active_pane(self@), axis),
    {
        let w = self.active_ws;
        assert(ws_ok(self@.list[w as int]));
        let t = self.list[w].active_tab;
        assert(self.list@[w as int].tabs@[t as int]@.tree == active_layout(self@));
        let id = self.active_id();
        self.list[w].tabs[t].layout.share_of(&id, axis)
    }

    /// Grow or shrink the focused pane along `axis`. Returns whether anything
    /// moved.
    pub fn resize_active(&mut self, axis: Axis, delta: i64, min: u32) -> (r: bool)
        requires
            old(self).wf(),
        ensures
            final(self).wf(),
            match leaf_resized(
                active_layout(old(self)@),
                active_pane(old(self)@),
                axis,
                delta as int,
                min as int,
            ) {
                None => !r && final(self)@ == old(self)@,
                Some(t) => r && final(self)@ == with_layout(old(self)@, t),
            },
    {
        let ghost before = self@;
        let w = self.active_ws;
        let ghost ws = before.list[w as int];
        assert(ws_ok(ws));
        let t = self.list[w].active_tab;
        let ghost tab = ws.tabs[t as int];
        let id = self.active_id();
        proof {
            assert(tab_ok(tab));
            lemma_leaf_resize_in_order(tab.tree, id, axis, delta as int, min as int);
        }
        let mut moved = TabState { layout: Node::leaf(0), active: 0 };
        std::mem::swap(&mut moved, &mut self.list[w].tabs[t]);
        assert(moved@ == tab);
        let r = moved.layout.resize_leaf(&id, axis, delta, min);
        let ghost new_tab = moved@;
        let wk = &mut self.list[w];
        wk.tabs.set(t, moved);
        proof {
            assert(self@.list[w as int].tabs =~= ws.tabs.update(t as int, new_tab));
            assert(self@.list =~= with_layout(before, new_tab.tree).list);
            lemma_with_layout_ok(before, new_tab.tree);
            if !r {
                assert(ws.tabs.update(t as int, tab) =~= ws.tabs);
                assert(self@.list =~= before.list);
            }
        }
        r
    }

    /// Every split of the active tab back to even shares.
    pub fn equalize_splits(&mut self)
        requires
            old(self).wf(),
        ensures
            final(self).wf(),
            final(self)@ == with_layout(old(self)@, equal(active_layout(old(self)@))),
    {
        let ghost before = self@;
        let w = self.active_ws;
        let ghost ws = before.list[w as int];
        assert(ws_ok(ws));
        let t = self.list[w].active_tab;
        let ghost tab = ws.tabs[t as int];
        proof {
            assert(tab_ok(tab));
            lemma_in_order_branching(tab.tree);
            lemma_equalise(tab.tree);
        }
        let mut moved = TabState { layout: Node::leaf(0), active: 0 };
        std::mem::swap(&mut moved, &mut self.list[w].tabs[t]);
        assert(moved@ == tab);
        moved.layout.equalise();
        let ghost new_tab = moved@;
        let wk = &mut self.list[w];
        wk.tabs.set(t, moved);
        proof {
            assert(self@.list[w as int].tabs =~= ws.tabs.update(t as int, new_tab));
            assert(self@.list =~= with_layout(before, new_tab.tree).list);
            lemma_with_layout_ok(before, new_tab.tree);
        }
    }
}

// --- The mouse on tabs and workspaces ---

/// What the cross on a tab does, given a pane of that tab: the whole tab is
/// closed, with every pane in it, unless it is the workspace's only one, of
/// which just the pane is closed.
pub open spec fn tab_crossed(m: Model, id: PaneId) -> Option<Turn> {
    let w = ws_with(m.list, id);
    if w < m.list.len() && m.list[w].tabs.len() > 1 {
        Some(tab_closed(m, w, tab_with(m.list[w].tabs, id)))
    } else {
        pane_closed(m, id)
    }
}

impl Workspaces {
    /// The cross on the tab that holds a pane. `None` only where that closes
    /// the window.
    pub fn close_tab_of(&mut self, id: PaneId) -> (r: Option<Closing>)
        requires
            old(self).wf(),
            old(self).next_pane_id < u64::MAX,
            old(self).next_ws_number < u64::MAX,
        ensures
            final(self).wf(),
            match (r, tab_crossed(old(self)@, id)) {
                (None, None) => *final(self) == *old(self),
                (Some(c), Some(turn)) => final(self)@ == turn.model && c.gone@ == turn.gone
                    && c.focus == turn.focus,
                _ => false,
            },
    {
        if let Some((w, t)) = self.locate_pane(id) {
            if self.list[w].tabs.len() > 1 {
                return Some(self.close_tab_at(w, t));
            }
        }
        self.close_pane(id)
    }

    /// The footer's input for a new name of the selected workspace: it starts
    /// from the old one.
    pub fn rename_input(&self) -> (r: WsInput)
        requires
            self.wf(),
        ensures
            r matches WsInput::Rename { buffer } && buffer@ == self@.list[self@.selected].name,
    {
        WsInput::Rename { buffer: self.list[self.ws_selected].name.clone() }
    }

    /// What the context menu of a workspace calls pinning it, where there is
    /// such a workspace.
    pub fn pin_label(&self, w: usize) -> (r: Option<&'static str>)
        ensures
            w >= self@.list.len() ==> r is None,
            w < self@.list.len() ==> (r matches Some(s) && s@ == if self@.list[w as int].persist {
                "Unpin"@
            } else {
                "Pin"@
            }),
    {
        if w >= self.list.len() {
            return None;
        }
        assert(self@.list[w as int] == self.list@[w as int]@);
        if self.list[w].persist {
            Some("Unpin")
        } else {
            Some("Pin")
        }
    }
}

/// Where a menu that was asked for at `at` is drawn along one side of a
/// window, so that it stays on screen near an edge.
pub fn menu_place(at: i64, extent: u32, size: u32) -> (r: i64)
    ensures
        r == if at < extent - size - 8 {
            at as int
        } else {
            extent - size - 8
        },
{
    let most = extent as i64 - size as i64 - 8;
    if at < most {
        at
    } else {
        most
    }
}

// --- What stays in front ---

/// Closing a tab that is not in front leaves the one in front where it is:
/// the active tab of its workspace is the same tab as before, with the same
/// panes and the same one active, and so the focus stays where it was.
pub proof fn lemma_closing_another_tab(m: Model, w: int, t: int)
    requires
        model_ok(m),
        0 <= w < m.list.len(),
        0 <= t < m.list[w].tabs.len(),
        m.list[w].tabs.len() > 1,
        t != m.list[w].active_tab,
    ensures
        ({
            let turn = tab_closed(m, w, t);
            let before = m.list[w];
            let after = turn.model.list[w];
            &&& after.tabs[after.active_tab] == before.tabs[before.active_tab]
            &&& active_pane(turn.model) == active_pane(m)
            &&& turn.focus is None
        }),
{
    assert(ws_ok(m.list[w]));
    assert(ws_ok(m.list[m.active]));
}

/// Closing the tab in front brings the next one to the front, or the one
/// before it where it was the last; its active pane gets the focus if the
/// workspace is the active one.
pub proof fn lemma_closing_the_front_tab(m: Model, w: int, t: int)
    requires
        model_ok(m),
        0 <= w < m.list.len(),
        0 <= t < m.list[w].tabs.len(),
        m.list[w].tabs.len() > 1,
        t == m.list[w].active_tab,
    ensures
        ({
            let turn = tab_closed(m, w, t);
            let before = m.list[w];
            let after = turn.model.list[w];
            let next = before.tabs[if t + 1 < before.tabs.len() {
                t + 1
            } else {
                t - 1
            }];
            &&& after.tabs[after.active_tab] == next
            &&& w == m.active ==> turn.focus == Some(next.active)
            &&& w != m.active ==> turn.focus is None && active_pane(turn.model) == active_pane(m)
        }),
{
    assert(ws_ok(m.list[w]));
    assert(ws_ok(m.list[m.active]));
}

/// Closing a tab takes away that tab and nothing else: the panes that are
/// gone are its panes, the tabs before and behind it stay in order, and so do
/// the names and the other workspaces.
pub proof fn lemma_closing_a_tab_takes_one(m: Model, w: int, t: int)
    requires
        0 <= w < m.list.len(),
        0 <= t < m.list[w].tabs.len(),
    ensures
        ({
            let turn = tab_closed(m, w, t);
            let before = m.list[w];
            let after = turn.model.list[w];
            &&& turn.gone == leaves(before.tabs[t].tree)
            &&& after.tabs.len() + 1 == before.tabs.len()
            &&& forall|u: int| 0 <= u < t ==> #[trigger] after.tabs[u] == before.tabs[u]
            &&& forall|u: int| t <= u < after.tabs.len() ==> #[trigger] after.tabs[u]
                == before.tabs[u + 1]
            &&& after.name == before.name
            &&& after.persist == before.persist
            &&& turn.model.list.len() == m.list.len()
            &&& forall|v: int| 0 <= v < m.list.len() && v != w ==> #[trigger] turn.model.list[v]
                == m.list[v]
            &&& turn.model.active == m.active
            &&& turn.model.selected == m.selected
        }),
{
}

/// Closing a pane beside others leaves the focus where it is, unless it was
/// on the pane: then the pane that takes its place in the order gets it, or
/// the last one. Nothing outside its tab changes.
pub proof fn lemma_closing_one_of_several(m: Model, w: int, t: int, i: int)
    requires
        model_ok(m),
        has_pane(m.list, w, t, i),
        leaves(m.list[w].tabs[t].tree).len() > 1,
    ensures
        ({
            let id = pane(m.list, w, t, i);
            let turn = pane_closed(m, id)->0;
            let before = m.list[w].tabs[t];
            let after = turn.model.list[w].tabs[t];
            let order = leaves(before.tree);
            &&& pane_closed(m, id) is Some
            &&& turn.gone == seq![id]
            &&& leaves(after.tree) == order.remove(i)
            &&& before.active != id ==> after.active == before.active
            &&& before.active == id && i + 1 < order.len() ==> after.active == order[i + 1]
            &&& before.active == id && i + 1 == order.len() ==> after.active == order[i - 1]
            &&& active_pane(m) != id ==> active_pane(turn.model) == active_pane(m)
            &&& turn.model.active == m.active
            &&& turn.model.list.len() == m.list.len()
            &&& turn.model.list[w].active_tab == m.list[w].active_tab
            &&& turn.model.list[w].tabs.len() == m.list[w].tabs.len()
            &&& forall|v: int| 0 <= v < m.list.len() && v != w ==> #[trigger] turn.model.list[v]
                == m.list[v]
            &&& forall|u: int| 0 <= u < m.list[w].tabs.len() && u != t ==>
                #[trigger] turn.model.list[w].tabs[u] == m.list[w].tabs[u]
        }),
{
    let id = pane(m.list, w, t, i);
    lemma_located(m.list, w, t, i);
    let tab = m.list[w].tabs[t];
    let order = leaves(tab.tree);
    assert(order[i] == id);
    assert(order.contains(id));
    lemma_without_pane(m, w, t, id);
    let k = lemma_remove_leaves(tab.tree, id);
    let j = order.index_of(id);
    assert(order[j] == id);
    assert(has_pane(m.list, w, t, j) && has_pane(m.list, w, t, i) && has_pane(m.list, w, t, k));
    assert(pane(m.list, w, t, j) == id && pane(m.list, w, t, k) == id);
    assert(j == i && k == i);
    let rest = leaves(without_pane(tab, id).tree);
    assert(rest =~= order.remove(i));
    assert(ws_ok(m.list[m.active]));
    assert(ws_ok(m.list[w]));
}

/// Removing a workspace that is not the active one leaves the active one: the
/// same workspace stays active, and the focus where it was. Removing the
/// active one makes the next one active, or the one before it.
pub proof fn lemma_removing_a_workspace(m: Model, w: int)
    requires
        model_ok(m),
        0 <= w < m.list.len(),
        m.list.len() > 1,
    ensures
        ({
            let turn = ws_removed(m, w);
            let n = turn.model;
            &&& turn.gone == tabs_panes(m.list[w].tabs)
            &&& n.list == m.list.remove(w)
            &&& w != m.active ==> n.list[n.active] == m.list[m.active] && active_pane(n)
                == active_pane(m) && turn.focus is None
            &&& w == m.active ==> n.list[n.active] == m.list[if w + 1 < m.list.len() {
                w + 1
            } else {
                w - 1
            }] && turn.focus == Some(active_pane(n))
            &&& 0 <= n.selected < n.list.len()
            &&& m.selected < n.list.len() ==> n.selected == m.selected
        }),
{
}

/// A window is never empty: removing the only workspace leaves a fresh one
/// with a single new pane, which has the focus.
pub proof fn lemma_removing_the_only_workspace(m: Model)
    requires
        model_ok(m),
        m.list.len() == 1,
    ensures
        ({
            let turn = ws_removed(m, 0);
            let n = turn.model;
            &&& turn.gone == tabs_panes(m.list[0].tabs)
            &&& n.list.len() == 1
            &&& n.list[0].tabs.len() == 1
            &&& leaves(n.list[0].tabs[0].tree) == seq![m.next_pane as PaneId]
            &&& turn.focus == Some(m.next_pane as PaneId)
            &&& active_pane(n) == m.next_pane as PaneId
            &&& n.next_pane == m.next_pane + 1
            &&& n.next_number == m.next_number + 1
            &&& !n.list[0].persist
            &&& n.list[0].name == "workspace "@ + decimal(m.next_number as nat)
        }),
{
    lemma_fresh_ws_ok(numbered_name(m.next_number), m.next_pane as PaneId);
}

/// A new tab stands behind the others in the active workspace, holds one new
/// pane and has the focus; every other tab and workspace stays.
pub proof fn lemma_a_new_tab(m: Model)
    requires
        model_ok(m),
        0 <= m.next_pane < u64::MAX,
    ensures
        ({
            let n = tab_added(m);
            let before = m.list[m.active];
            let after = n.list[m.active];
            &&& n.active == m.active
            &&& after.tabs.len() == before.tabs.len() + 1
            &&& after.active_tab == before.tabs.len()
            &&& leaves(after.tabs.last().tree) == seq![m.next_pane as PaneId]
            &&& active_pane(n) == m.next_pane
            &&& !lives(m.list, m.next_pane as PaneId)
            &&& forall|u: int| 0 <= u < before.tabs.len() ==> #[trigger] after.tabs[u]
                == before.tabs[u]
            &&& forall|v: int| 0 <= v < m.list.len() && v != m.active ==> #[trigger] n.list[v]
                == m.list[v]
            &&& n.next_pane == m.next_pane + 1
        }),
{
    assert(ws_ok(m.list[m.active]));
    if lives(m.list, m.next_pane as PaneId) {
        let (w, t, i) = choose|w: int, t: int, i: int| #[trigger]
            has_pane(m.list, w, t, i) && pane(m.list, w, t, i) == m.next_pane as PaneId;
        assert(has_pane(m.list, w, t, i));
    }
}

/// A new workspace stands behind the others, holds one new pane, is active
/// and selected; every other workspace stays.
pub proof fn lemma_a_new_workspace(m: Model)
    requires
        model_ok(m),
        0 <= m.next_pane < u64::MAX,
    ensures
        ({
            let n = ws_added(m);
            &&& n.list.len() == m.list.len() + 1
            &&& n.active == m.list.len()
            &&& n.selected == m.list.len()
            &&& n.list.last().name == "workspace "@ + decimal(m.next_number as nat)
            &&& !n.list.last().persist
            &&& n.list.last().tabs.len() == 1
            &&& leaves(n.list.last().tabs[0].tree) == seq![m.next_pane as PaneId]
            &&& active_pane(n) == m.next_pane
            &&& forall|v: int| 0 <= v < m.list.len() ==> #[trigger] n.list[v] == m.list[v]
            &&& n.next_pane == m.next_pane + 1
            &&& n.next_number == m.next_number + 1
        }),
{
    lemma_fresh_ws_ok(numbered_name(m.next_number), m.next_pane as PaneId);
}

/// Bringing a tab to the front focuses the pane that was active in it, and
/// changes no tab.
pub proof fn lemma_selecting_a_tab(m: Model, t: int)
    requires
        model_ok(m),
        0 <= t < m.list[m.active].tabs.len(),
    ensures
        ({
            let n = tab_selected(m, t);
            &&& active_pane(n) == m.list[m.active].tabs[t].active
            &&& n.list[m.active].active_tab == t
            &&& n.list[m.active].tabs == m.list[m.active].tabs
            &&& n.active == m.active
            &&& forall|v: int| 0 <= v < m.list.len() && v != m.active ==> #[trigger] n.list[v]
                == m.list[v]
        }),
{
}

/// A cursor that goes round steps to the next place and from the last to the
/// first, and back the same way.
pub proof fn lemma_going_round(at: int, n: int)
    requires
        0 <= at < n,
    ensures
        round(at, 1, n) == if at + 1 < n {
            at + 1
        } else {
            0
        },
        round(at, -1, n) == if at > 0 {
            at - 1
        } else {
            n - 1
        },
        round(at, 0, n) == at,
{
    if at == 0 {
        vstd::arithmetic::div_mod::lemma_small_mod((n - 1) as nat, n as nat);
        vstd::arithmetic::div_mod::lemma_mod_add_multiples_vanish(-1, n);
        assert((n + -1) % n == (-1int) % n);
    } else {
        vstd::arithmetic::div_mod::lemma_small_mod((at - 1) as nat, n as nat);
    }
    if at + 1 < n {
        vstd::arithmetic::div_mod::lemma_small_mod((at + 1) as nat, n as nat);
    } else {
        vstd::arithmetic::div_mod::lemma_mod_self_0(n);
    }
    vstd::arithmetic::div_mod::lemma_small_mod(at as nat, n as nat);
}

/// Splitting puts the new pane right beside the focused one, before it to
/// the left or above and behind it to the right or below, and gives it the
/// focus; no other tab changes.
pub proof fn lemma_splitting_beside(m: Model, direction: Direction) -> (i: int)
    requires
        model_ok(m),
        0 <= m.next_pane < u64::MAX,
        leaves(m.list[m.active].tabs[m.list[m.active].active_tab].tree).len() < WHOLE,
    ensures
        ({
            let n = active_split(m, direction);
            let t = m.list[m.active].active_tab;
            let before = leaves(m.list[m.active].tabs[t].tree);
            let after = leaves(n.list[m.active].tabs[t].tree);
            &&& 0 <= i < before.len()
            &&& before[i] == active_pane(m)
            &&& after == before.insert(
                if direction == Direction::Left || direction == Direction::Up {
                    i
                } else {
                    i + 1
                },
                m.next_pane as PaneId,
            )
            &&& active_pane(n) == m.next_pane
            &&& n.list[m.active].active_tab == t
            &&& forall|u: int| 0 <= u < m.list[m.active].tabs.len() && u != t ==>
                #[trigger] n.list[m.active].tabs[u] == m.list[m.active].tabs[u]
            &&& forall|v: int| 0 <= v < m.list.len() && v != m.active ==> #[trigger] n.list[v]
                == m.list[v]
        }),
{
    assert(ws_ok(m.list[m.active]));
    let t = m.list[m.active].active_tab;
    let tab = m.list[m.active].tabs[t];
    assert(tab_ok(tab));
    lemma_active_split_ok(m, direction);
    lemma_split_leaves(tab.tree, tab.active, direction, m.next_pane as PaneId)
}

/// Closing cascades: the only pane of a tab takes the tab with it, and the
/// only tab of a workspace the workspace; only the very last pane is left for
/// the window to decide about.
pub proof fn lemma_closing_cascades(m: Model, w: int, t: int)
    requires
        model_ok(m),
        has_pane(m.list, w, t, 0),
        leaves(m.list[w].tabs[t].tree).len() == 1,
    ensures
        ({
            let closed = pane_closed(m, pane(m.list, w, t, 0));
            if m.list[w].tabs.len() > 1 {
                closed == Some(tab_closed(m, w, t))
            } else if m.list.len() > 1 {
                closed == Some(ws_removed(m, w))
            } else {
                closed is None
            }
        }),
{
    lemma_located(m.list, w, t, 0);
}

/// The cross on a tab closes the tab that holds the pane; where it is the
/// only one, it closes the pane.
pub proof fn lemma_the_cross(m: Model, id: PaneId)
    ensures
        ({
            let w = ws_with(m.list, id);
            &&& w < m.list.len() && m.list[w].tabs.len() > 1 ==> tab_crossed(m, id) == Some(
                tab_closed(m, w, tab_with(m.list[w].tabs, id)),
            )
            &&& w < m.list.len() && m.list[w].tabs.len() == 1 ==> tab_crossed(m, id) == pane_closed(
                m,
                id,
            )
        }),
{
}

/// The footer shows what is being typed, and asks before it deletes.
pub proof fn lemma_footers(buffer: String, selected: Seq<char>)
    ensures
        footer(WsInput::Add { buffer }, selected) == "new: "@ + buffer@ + "▏"@,
        footer(WsInput::Rename { buffer }, selected) == "rename: "@ + buffer@ + "▏"@,
        footer(WsInput::ConfirmDelete, selected) == "delete "@ + selected + "? (y/n)"@,
{
}

/// Enter takes the name that was typed, for a new workspace or the selected
/// one; escape gives up; only `y` deletes.
pub proof fn lemma_footer_keys(
    buffer: String,
    ks: Keystroke,
    r: (Option<WsInput>, WsRequest),
)
    ensures
        ks.key@ == "enter"@ && trim(buffer@).len() > 0 && call_ensures(
            on_ws_key,
            (WsInput::Add { buffer }, &ks),
            r,
        ) ==> r.0 is None && (r.1 matches WsRequest::Create(n) && n@ == trim(buffer@)),
        ks.key@ == "enter"@ && trim(buffer@).len() > 0 && call_ensures(
            on_ws_key,
            (WsInput::Rename { buffer }, &ks),
            r,
        ) ==> r.0 is None && (r.1 matches WsRequest::Rename(n) && n@ == trim(buffer@)),
        ks.key@ == "escape"@ && call_ensures(on_ws_key, (WsInput::Add { buffer }, &ks), r) ==> r.0
            is None && r.1 is Nothing,
        ks.key@ == "escape"@ && call_ensures(on_ws_key, (WsInput::Rename { buffer }, &ks), r)
            ==> r.0 is None && r.1 is Nothing,
        ks.key@ == "y"@ && call_ensures(on_ws_key, (WsInput::ConfirmDelete, &ks), r) ==> r.0 is None
            && r.1 is Delete,
        ks.key@ != "y"@ && call_ensures(on_ws_key, (WsInput::ConfirmDelete, &ks), r) ==> r.0 is None
            && r.1 is Nothing,
{
    reveal_strlit("enter");
    reveal_strlit("escape");
    assert("enter"@.len() != "escape"@.len());
}

} // verus!
