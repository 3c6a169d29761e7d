//! The built-in keybinding table, as data: keystrokes, action id, context.
//!
//! The `Terminal` context deliberately has no bare-key bindings: every key the
//! shell could want must fall through to the raw key handler. Everything
//! terminal-scoped is modifier-prefixed (`cmd-*`) or sequence-led (`ctrl-w`)
//! and bound at Root.
use vstd::prelude::*;

use crate::keymap::actions::{
    application_rows, window_rows, tabs_rows, panes_rows, terminal_rows, drawer_rows,
    workspaces_rows, file_tree_rows, overlay_navigation_rows, registry,
};
use crate::keymap::registry::{row_of, Row};
use crate::keymap::resolve::KeyCtx;

verus! {

/// A built-in binding.
#[derive(Debug, Clone, Copy)]
pub struct DefaultBinding {
    pub keys: &'static str,
    pub action: &'static str,
    pub ctx: KeyCtx,
}

/// The text of a built-in binding.
pub struct BindingRow {
    pub keys: Seq<char>,
    pub action: Seq<char>,
    pub ctx: KeyCtx,
}

impl View for DefaultBinding {
    type V = BindingRow;

    open spec fn view(&self) -> BindingRow {
        bound(self.keys@, self.action@, self.ctx)
    }
}

/// A built-in binding's text.
pub open spec fn bound(keys: Seq<char>, action: Seq<char>, ctx: KeyCtx) -> BindingRow {
    BindingRow { keys, action, ctx }
}

/// The text of a list of built-in bindings.
pub open spec fn binding_rows(v: Seq<DefaultBinding>) -> Seq<BindingRow> {
    v.map_values(|b: DefaultBinding| b@)
}

fn b(keys: &'static str, action: &'static str, ctx: KeyCtx) -> (r: DefaultBinding)
    ensures
        r@ == bound(keys@, action@, ctx),
{
    DefaultBinding { keys, action, ctx }
}

/// Bindings of the `Root` context.
pub open spec fn root_a_bindings() -> Seq<BindingRow> {
    seq![
        bound("cmd-q"@, "app::quit"@, KeyCtx::Root),
        bound("ctrl-w h"@, "pane::focus_left"@, KeyCtx::Root),
        bound("ctrl-w j"@, "pane::focus_down"@, KeyCtx::Root),
        bound("ctrl-w k"@, "pane::focus_up"@, KeyCtx::Root),
        bound("ctrl-w l"@, "pane::focus_right"@, KeyCtx::Root),
        bound("ctrl-w v"@, "pane::split_right"@, KeyCtx::Root),
        bound("ctrl-w s"@, "pane::split_down"@, KeyCtx::Root),
        bound("ctrl-w shift-v"@, "pane::split_left"@, KeyCtx::Root),
        bound("ctrl-w shift-s"@, "pane::split_up"@, KeyCtx::Root),
        bound("ctrl-w q"@, "pane::close"@, KeyCtx::Root),
        bound("ctrl-w w"@, "drawer::focus_toggle"@, KeyCtx::Root),
        bound("ctrl-w <"@, "pane::narrower"@, KeyCtx::Root),
        bound("ctrl-w >"@, "pane::wider"@, KeyCtx::Root),
        bound("ctrl-w -"@, "pane::shorter"@, KeyCtx::Root),
        bound("ctrl-w +"@, "pane::taller"@, KeyCtx::Root),
        bound("ctrl-w ="@, "pane::equalize"@, KeyCtx::Root),
    ]
}

fn root_a_list() -> (v: Vec<DefaultBinding>)
    ensures
        binding_rows(v@) == root_a_bindings(),
{
    let mut v: Vec<DefaultBinding> = Vec::new();
    v.push(b("cmd-q", "app::quit", KeyCtx::Root));
    v.push(b("ctrl-w h", "pane::focus_left", KeyCtx::Root));
    v.push(b("ctrl-w j", "pane::focus_down", KeyCtx::Root));
    v.push(b("ctrl-w k", "pane::focus_up", KeyCtx::Root));
    v.push(b("ctrl-w l", "pane::focus_right", KeyCtx::Root));
    v.push(b("ctrl-w v", "pane::split_right", KeyCtx::Root));
    v.push(b("ctrl-w s", "pane::split_down", KeyCtx::Root));
    v.push(b("ctrl-w shift-v", "pane::split_left", KeyCtx::Root));
    v.push(b("ctrl-w shift-s", "pane::split_up", KeyCtx::Root));
    v.push(b("ctrl-w q", "pane::close", KeyCtx::Root));
    v.push(b("ctrl-w w", "drawer::focus_toggle", KeyCtx::Root));
    v.push(b("ctrl-w <", "pane::narrower", KeyCtx::Root));
    v.push(b("ctrl-w >", "pane::wider", KeyCtx::Root));
    v.push(b("ctrl-w -", "pane::shorter", KeyCtx::Root));
    v.push(b("ctrl-w +", "pane::taller", KeyCtx::Root));
    v.push(b("ctrl-w =", "pane::equalize", KeyCtx::Root));
    assert(binding_rows(v@) =~= root_a_bindings());
    v
}

/// Bindings of the `Root` context.
pub open spec fn root_b_bindings() -> Seq<BindingRow> {
    seq![
        bound("ctrl-w t"@, "drawer::focus_tree"@, KeyCtx::Root),
        bound("cmd-shift-e"@, "drawer::focus_tree"@, KeyCtx::Root),
        bound("cmd-d"@, "pane::split_right"@, KeyCtx::Root),
        bound("cmd-shift-d"@, "pane::split_down"@, KeyCtx::Root),
        bound("cmd-alt-left"@, "pane::focus_left"@, KeyCtx::Root),
        bound("cmd-alt-right"@, "pane::focus_right"@, KeyCtx::Root),
        bound("cmd-alt-up"@, "pane::focus_up"@, KeyCtx::Root),
        bound("cmd-alt-down"@, "pane::focus_down"@, KeyCtx::Root),
        bound("cmd-b"@, "drawer::toggle"@, KeyCtx::Root),
        bound("cmd-v"@, "terminal::paste"@, KeyCtx::Root),
        bound("cmd-c"@, "terminal::copy"@, KeyCtx::Root),
        bound("cmd-="@, "terminal::font_increase"@, KeyCtx::Root),
        bound("cmd-+"@, "terminal::font_increase"@, KeyCtx::Root),
        bound("cmd--"@, "terminal::font_decrease"@, KeyCtx::Root),
        bound("cmd-0"@, "terminal::font_reset"@, KeyCtx::Root),
        bound("cmd-f"@, "terminal::search"@, KeyCtx::Root),
    ]
}

fn root_b_list() -> (v: Vec<DefaultBinding>)
    ensures
        binding_rows(v@) == root_b_bindings(),
{
    let mut v: Vec<DefaultBinding> = Vec::new();
    v.push(b("ctrl-w t", "drawer::focus_tree", KeyCtx::Root));
    v.push(b("cmd-shift-e", "drawer::focus_tree", KeyCtx::Root));
    v.push(b("cmd-d", "pane::split_right", KeyCtx::Root));
    v.push(b("cmd-shift-d", "pane::split_down", KeyCtx::Root));
    v.push(b("cmd-alt-left", "pane::focus_left", KeyCtx::Root));
    v.push(b("cmd-alt-right", "pane::focus_right", KeyCtx::Root));
    v.push(b("cmd-alt-up", "pane::focus_up", KeyCtx::Root));
    v.push(b("cmd-alt-down", "pane::focus_down", KeyCtx::Root));
    v.push(b("cmd-b", "drawer::toggle", KeyCtx::Root));
    v.push(b("cmd-v", "terminal::paste", KeyCtx::Root));
    v.push(b("cmd-c", "terminal::copy", KeyCtx::Root));
    v.push(b("cmd-=", "terminal::font_increase", KeyCtx::Root));
    v.push(b("cmd-+", "terminal::font_increase", KeyCtx::Root));
    v.push(b("cmd--", "terminal::font_decrease", KeyCtx::Root));
    v.push(b("cmd-0", "terminal::font_reset", KeyCtx::Root));
    v.push(b("cmd-f", "terminal::search", KeyCtx::Root));
    assert(binding_rows(v@) =~= root_b_bindings());
    v
}

/// Bindings of the `Root` context.
pub open spec fn root_c_bindings() -> Seq<BindingRow> {
    seq![
        bound("cmd-up"@, "terminal::prompt_up"@, KeyCtx::Root),
        bound("cmd-down"@, "terminal::prompt_down"@, KeyCtx::Root),
        bound("cmd-n"@, "window::new"@, KeyCtx::Root),
        bound("cmd-t"@, "tab::new"@, KeyCtx::Root),
        bound("ctrl-tab"@, "tab::next"@, KeyCtx::Root),
        bound("ctrl-shift-tab"@, "tab::previous"@, KeyCtx::Root),
        bound("shift-cmd-]"@, "tab::next"@, KeyCtx::Root),
        bound("shift-cmd-["@, "tab::previous"@, KeyCtx::Root),
        bound("cmd-}"@, "tab::next"@, KeyCtx::Root),
        bound("cmd-{"@, "tab::previous"@, KeyCtx::Root),
        bound("cmd-1"@, "tab::select_1"@, KeyCtx::Root),
        bound("cmd-2"@, "tab::select_2"@, KeyCtx::Root),
        bound("cmd-3"@, "tab::select_3"@, KeyCtx::Root),
        bound("cmd-4"@, "tab::select_4"@, KeyCtx::Root),
        bound("cmd-5"@, "tab::select_5"@, KeyCtx::Root),
        bound("cmd-6"@, "tab::select_6"@, KeyCtx::Root),
    ]
}

fn root_c_list() -> (v: Vec<DefaultBinding>)
    ensures
        binding_rows(v@) == root_c_bindings(),
{
    let mut v: Vec<DefaultBinding> = Vec::new();
    v.push(b("cmd-up", "terminal::prompt_up", KeyCtx::Root));
    v.push(b("cmd-down", "terminal::prompt_down", KeyCtx::Root));
    v.push(b("cmd-n", "window::new", KeyCtx::Root));
    v.push(b("cmd-t", "tab::new", KeyCtx::Root));
    v.push(b("ctrl-tab", "tab::next", KeyCtx::Root));
    v.push(b("ctrl-shift-tab", "tab::previous", KeyCtx::Root));
    v.push(b("shift-cmd-]", "tab::next", KeyCtx::Root));
    v.push(b("shift-cmd-[", "tab::previous", KeyCtx::Root));
    v.push(b("cmd-}", "tab::next", KeyCtx::Root));
    v.push(b("cmd-{", "tab::previous", KeyCtx::Root));
    v.push(b("cmd-1", "tab::select_1", KeyCtx::Root));
    v.push(b("cmd-2", "tab::select_2", KeyCtx::Root));
    v.push(b("cmd-3", "tab::select_3", KeyCtx::Root));
    v.push(b("cmd-4", "tab::select_4", KeyCtx::Root));
    v.push(b("cmd-5", "tab::select_5", KeyCtx::Root));
    v.push(b("cmd-6", "tab::select_6", KeyCtx::Root));
    assert(binding_rows(v@) =~= root_c_bindings());
    v
}

/// Bindings of the `Root` context.
pub open spec fn root_d_bindings() -> Seq<BindingRow> {
    seq![
        bound("cmd-7"@, "tab::select_7"@, KeyCtx::Root),
        bound("cmd-8"@, "tab::select_8"@, KeyCtx::Root),
        bound("cmd-9"@, "tab::select_9"@, KeyCtx::Root),
        bound("ctrl-w p"@, "drawer::focus_workspaces"@, KeyCtx::Root),
        bound("cmd-w"@, "window::close"@, KeyCtx::Root),
        bound("cmd-a"@, "terminal::select_all"@, KeyCtx::Root),
        bound("cmd-m"@, "window::minimize"@, KeyCtx::Root),
        bound("ctrl-cmd-f"@, "window::toggle_fullscreen"@, KeyCtx::Root),
        bound("cmd-h"@, "app::hide"@, KeyCtx::Root),
        bound("alt-cmd-h"@, "app::hide_others"@, KeyCtx::Root),
        bound("cmd-k cmd-t"@, "app::select_theme"@, KeyCtx::Root),
        bound("cmd-shift-p"@, "app::palette"@, KeyCtx::Root),
        bound("cmd-k cmd-p"@, "app::palette"@, KeyCtx::Root),
        bound("cmd-,"@, "app::settings"@, KeyCtx::Root),
    ]
}

fn root_d_list() -> (v: Vec<DefaultBinding>)
    ensures
        binding_rows(v@) == root_d_bindings(),
{
    let mut v: Vec<DefaultBinding> = Vec::new();
    v.push(b("cmd-7", "tab::select_7", KeyCtx::Root));
    v.push(b("cmd-8", "tab::select_8", KeyCtx::Root));
    v.push(b("cmd-9", "tab::select_9", KeyCtx::Root));
    v.push(b("ctrl-w p", "drawer::focus_workspaces", KeyCtx::Root));
    v.push(b("cmd-w", "window::close", KeyCtx::Root));
    v.push(b("cmd-a", "terminal::select_all", KeyCtx::Root));
    v.push(b("cmd-m", "window::minimize", KeyCtx::Root));
    v.push(b("ctrl-cmd-f", "window::toggle_fullscreen", KeyCtx::Root));
    v.push(b("cmd-h", "app::hide", KeyCtx::Root));
    v.push(b("alt-cmd-h", "app::hide_others", KeyCtx::Root));
    v.push(b("cmd-k cmd-t", "app::select_theme", KeyCtx::Root));
    v.push(b("cmd-shift-p", "app::palette", KeyCtx::Root));
    v.push(b("cmd-k cmd-p", "app::palette", KeyCtx::Root));
    v.push(b("cmd-,", "app::settings", KeyCtx::Root));
    assert(binding_rows(v@) =~= root_d_bindings());
    v
}

/// Bindings of the `Overlay` context.
pub open spec fn overlay_bindings() -> Seq<BindingRow> {
    seq![
        bound("down"@, "overlay::next"@, KeyCtx::Overlay),
        bound("ctrl-n"@, "overlay::next"@, KeyCtx::Overlay),
        bound("up"@, "overlay::prev"@, KeyCtx::Overlay),
        bound("ctrl-p"@, "overlay::prev"@, KeyCtx::Overlay),
        bound("enter"@, "overlay::confirm"@, KeyCtx::Overlay),
        bound("escape"@, "overlay::cancel"@, KeyCtx::Overlay),
    ]
}

fn overlay_list() -> (v: Vec<DefaultBinding>)
    ensures
        binding_rows(v@) == overlay_bindings(),
{
    let mut v: Vec<DefaultBinding> = Vec::new();
    v.push(b("down", "overlay::next", KeyCtx::Overlay));
    v.push(b("ctrl-n", "overlay::next", KeyCtx::Overlay));
    v.push(b("up", "overlay::prev", KeyCtx::Overlay));
    v.push(b("ctrl-p", "overlay::prev", KeyCtx::Overlay));
    v.push(b("enter", "overlay::confirm", KeyCtx::Overlay));
    v.push(b("escape", "overlay::cancel", KeyCtx::Overlay));
    assert(binding_rows(v@) =~= overlay_bindings());
    v
}

/// Bindings of the `OverlayList` context.
pub open spec fn overlay_list_bindings() -> Seq<BindingRow> {
    seq![
        bound("j"@, "overlay::next"@, KeyCtx::OverlayList),
        bound("k"@, "overlay::prev"@, KeyCtx::OverlayList),
    ]
}

fn overlay_list_list() -> (v: Vec<DefaultBinding>)
    ensures
        binding_rows(v@) == overlay_list_bindings(),
{
    let mut v: Vec<DefaultBinding> = Vec::new();
    v.push(b("j", "overlay::next", KeyCtx::OverlayList));
    v.push(b("k", "overlay::prev", KeyCtx::OverlayList));
    assert(binding_rows(v@) =~= overlay_list_bindings());
    v
}

/// Bindings of the `FileTree` context.
pub open spec fn file_tree_a_bindings() -> Seq<BindingRow> {
    seq![
        bound("j"@, "tree::down"@, KeyCtx::FileTree),
        bound("down"@, "tree::down"@, KeyCtx::FileTree),
        bound("k"@, "tree::up"@, KeyCtx::FileTree),
        bound("up"@, "tree::up"@, KeyCtx::FileTree),
        bound("g g"@, "tree::top"@, KeyCtx::FileTree),
        bound("shift-g"@, "tree::bottom"@, KeyCtx::FileTree),
        bound("ctrl-d"@, "tree::half_page_down"@, KeyCtx::FileTree),
        bound("ctrl-u"@, "tree::half_page_up"@, KeyCtx::FileTree),
        bound("l"@, "tree::expand"@, KeyCtx::FileTree),
        bound("right"@, "tree::expand"@, KeyCtx::FileTree),
        bound("h"@, "tree::collapse"@, KeyCtx::FileTree),
        bound("left"@, "tree::collapse"@, KeyCtx::FileTree),
        bound("enter"@, "tree::open"@, KeyCtx::FileTree),
        bound("o"@, "tree::open"@, KeyCtx::FileTree),
        bound("p"@, "tree::parent"@, KeyCtx::FileTree),
        bound("c"@, "tree::set_root"@, KeyCtx::FileTree),
    ]
}

fn file_tree_a_list() -> (v: Vec<DefaultBinding>)
    ensures
        binding_rows(v@) == file_tree_a_bindings(),
{
    let mut v: Vec<DefaultBinding> = Vec::new();
    v.push(b("j", "tree::down", KeyCtx::FileTree));
    v.push(b("down", "tree::down", KeyCtx::FileTree));
    v.push(b("k", "tree::up", KeyCtx::FileTree));
    v.push(b("up", "tree::up", KeyCtx::FileTree));
    v.push(b("g g", "tree::top", KeyCtx::FileTree));
    v.push(b("shift-g", "tree::bottom", KeyCtx::FileTree));
    v.push(b("ctrl-d", "tree::half_page_down", KeyCtx::FileTree));
    v.push(b("ctrl-u", "tree::half_page_up", KeyCtx::FileTree));
    v.push(b("l", "tree::expand", KeyCtx::FileTree));
    v.push(b("right", "tree::expand", KeyCtx::FileTree));
    v.push(b("h", "tree::collapse", KeyCtx::FileTree));
    v.push(b("left", "tree::collapse", KeyCtx::FileTree));
    v.push(b("enter", "tree::open", KeyCtx::FileTree));
    v.push(b("o", "tree::open", KeyCtx::FileTree));
    v.push(b("p", "tree::parent", KeyCtx::FileTree));
    v.push(b("c", "tree::set_root", KeyCtx::FileTree));
    assert(binding_rows(v@) =~= file_tree_a_bindings());
    v
}

/// Bindings of the `FileTree` context.
pub open spec fn file_tree_b_bindings() -> Seq<BindingRow> {
    seq![
        bound("-"@, "tree::root_up"@, KeyCtx::FileTree),
        bound("shift-i"@, "tree::toggle_hidden"@, KeyCtx::FileTree),
        bound("shift-r"@, "tree::refresh"@, KeyCtx::FileTree),
        bound("/"@, "tree::filter"@, KeyCtx::FileTree),
        bound("a"@, "tree::add"@, KeyCtx::FileTree),
        bound("r"@, "tree::rename"@, KeyCtx::FileTree),
        bound("d"@, "tree::delete"@, KeyCtx::FileTree),
        bound("escape"@, "tree::escape"@, KeyCtx::FileTree),
        bound("tab"@, "drawer::focus_workspaces"@, KeyCtx::FileTree),
    ]
}

fn file_tree_b_list() -> (v: Vec<DefaultBinding>)
    ensures
        binding_rows(v@) == file_tree_b_bindings(),
{
    let mut v: Vec<DefaultBinding> = Vec::new();
    v.push(b("-", "tree::root_up", KeyCtx::FileTree));
    v.push(b("shift-i", "tree::toggle_hidden", KeyCtx::FileTree));
    v.push(b("shift-r", "tree::refresh", KeyCtx::FileTree));
    v.push(b("/", "tree::filter", KeyCtx::FileTree));
    v.push(b("a", "tree::add", KeyCtx::FileTree));
    v.push(b("r", "tree::rename", KeyCtx::FileTree));
    v.push(b("d", "tree::delete", KeyCtx::FileTree));
    v.push(b("escape", "tree::escape", KeyCtx::FileTree));
    v.push(b("tab", "drawer::focus_workspaces", KeyCtx::FileTree));
    assert(binding_rows(v@) =~= file_tree_b_bindings());
    v
}

/// Bindings of the `Workspaces` context.
pub open spec fn workspaces_bindings() -> Seq<BindingRow> {
    seq![
        bound("j"@, "workspace::down"@, KeyCtx::Workspaces),
        bound("down"@, "workspace::down"@, KeyCtx::Workspaces),
        bound("k"@, "workspace::up"@, KeyCtx::Workspaces),
        bound("up"@, "workspace::up"@, KeyCtx::Workspaces),
        bound("enter"@, "workspace::open"@, KeyCtx::Workspaces),
        bound("o"@, "workspace::open"@, KeyCtx::Workspaces),
        bound("a"@, "workspace::add"@, KeyCtx::Workspaces),
        bound("d"@, "workspace::delete"@, KeyCtx::Workspaces),
        bound("r"@, "workspace::rename"@, KeyCtx::Workspaces),
        bound("p"@, "workspace::toggle_persist"@, KeyCtx::Workspaces),
        bound("escape"@, "workspace::escape"@, KeyCtx::Workspaces),
        bound("tab"@, "drawer::focus_tree"@, KeyCtx::Workspaces),
    ]
}

fn workspaces_list() -> (v: Vec<DefaultBinding>)
    ensures
        binding_rows(v@) == workspaces_bindings(),
{
    let mut v: Vec<DefaultBinding> = Vec::new();
    v.push(b("j", "workspace::down", KeyCtx::Workspaces));
    v.push(b("down", "workspace::down", KeyCtx::Workspaces));
    v.push(b("k", "workspace::up", KeyCtx::Workspaces));
    v.push(b("up", "workspace::up", KeyCtx::Workspaces));
    v.push(b("enter", "workspace::open", KeyCtx::Workspaces));
    v.push(b("o", "workspace::open", KeyCtx::Workspaces));
    v.push(b("a", "workspace::add", KeyCtx::Workspaces));
    v.push(b("d", "workspace::delete", KeyCtx::Workspaces));
    v.push(b("r", "workspace::rename", KeyCtx::Workspaces));
    v.push(b("p", "workspace::toggle_persist", KeyCtx::Workspaces));
    v.push(b("escape", "workspace::escape", KeyCtx::Workspaces));
    v.push(b("tab", "drawer::focus_tree", KeyCtx::Workspaces));
    assert(binding_rows(v@) =~= workspaces_bindings());
    v
}

/// The built-in bindings, in the order they are declared.
pub open spec fn default_bindings() -> Seq<BindingRow> {
    root_a_bindings() + root_b_bindings() + root_c_bindings() + root_d_bindings() + overlay_bindings() + overlay_list_bindings() + file_tree_a_bindings() + file_tree_b_bindings() + workspaces_bindings()
}

/// The built-in bindings, in the order they are declared.
pub fn defaults() -> (v: Vec<DefaultBinding>)
    ensures
        binding_rows(v@) == default_bindings(),
{
    let mut v = root_a_list();
    let mut next = root_b_list();
    proof {
        lemma_rows_concat(v@, next@);
    }
    v.append(&mut next);
    let mut next = root_c_list();
    proof {
        lemma_rows_concat(v@, next@);
    }
    v.append(&mut next);
    let mut next = root_d_list();
    proof {
        lemma_rows_concat(v@, next@);
    }
    v.append(&mut next);
    let mut next = overlay_list();
    proof {
        lemma_rows_concat(v@, next@);
    }
    v.append(&mut next);
    let mut next = overlay_list_list();
    proof {
        lemma_rows_concat(v@, next@);
    }
    v.append(&mut next);
    let mut next = file_tree_a_list();
    proof {
        lemma_rows_concat(v@, next@);
    }
    v.append(&mut next);
    let mut next = file_tree_b_list();
    proof {
        lemma_rows_concat(v@, next@);
    }
    v.append(&mut next);
    let mut next = workspaces_list();
    proof {
        lemma_rows_concat(v@, next@);
    }
    v.append(&mut next);
    v
}

proof fn lemma_rows_concat(a: Seq<DefaultBinding>, b: Seq<DefaultBinding>)
    ensures
        binding_rows(a + b) == binding_rows(a) + binding_rows(b),
{
    assert(binding_rows(a + b) =~= binding_rows(a) + binding_rows(b));
}

/// Whether an action is registered under an id.
pub open spec fn registered(id: Seq<char>) -> bool {
    exists|k: int| 0 <= k < registry().len() && (#[trigger] registry()[k]).id == id
}

/// A registered id is found.
pub proof fn lemma_registered(id: Seq<char>, table: Seq<Row>)
    requires
        exists|k: int| 0 <= k < table.len() && (#[trigger] table[k]).id == id,
    ensures
        row_of(id, table) is Some,
    decreases table.len(),
{
    let k = choose|k: int| 0 <= k < table.len() && (#[trigger] table[k]).id == id;
    if k > 0 {
        assert(table.skip(1)[k - 1] == table[k]);
        lemma_registered(id, table.skip(1));
    }
}

proof fn lemma_application_registered()
    ensures
        forall|j: int|
            0 <= j < application_rows().len() ==> registered((#[trigger] application_rows()[j]).id),
{
    assert forall|j: int| 0 <= j < application_rows().len() implies registered(
        (#[trigger] application_rows()[j]).id,
    ) by {
        assert(registry()[0 + j] == application_rows()[j]);
    }
}

proof fn lemma_window_registered()
    ensures
        forall|j: int|
            0 <= j < window_rows().len() ==> registered((#[trigger] window_rows()[j]).id),
{
    assert forall|j: int| 0 <= j < window_rows().len() implies registered(
        (#[trigger] window_rows()[j]).id,
    ) by {
        assert(registry()[14 + j] == window_rows()[j]);
    }
}

proof fn lemma_tabs_registered()
    ensures
        forall|j: int|
            0 <= j < tabs_rows().len() ==> registered((#[trigger] tabs_rows()[j]).id),
{
    assert forall|j: int| 0 <= j < tabs_rows().len() implies registered(
        (#[trigger] tabs_rows()[j]).id,
    ) by {
        assert(registry()[19 + j] == tabs_rows()[j]);
    }
}

proof fn lemma_panes_registered()
    ensures
        forall|j: int|
            0 <= j < panes_rows().len() ==> registered((#[trigger] panes_rows()[j]).id),
{
    assert forall|j: int| 0 <= j < panes_rows().len() implies registered(
        (#[trigger] panes_rows()[j]).id,
    ) by {
        assert(registry()[35 + j] == panes_rows()[j]);
    }
}

proof fn lemma_terminal_registered()
    ensures
        forall|j: int|
            0 <= j < terminal_rows().len() ==> registered((#[trigger] terminal_rows()[j]).id),
{
    assert forall|j: int| 0 <= j < terminal_rows().len() implies registered(
        (#[trigger] terminal_rows()[j]).id,
    ) by {
        assert(registry()[54 + j] == terminal_rows()[j]);
    }
}

proof fn lemma_drawer_registered()
    ensures
        forall|j: int|
            0 <= j < drawer_rows().len() ==> registered((#[trigger] drawer_rows()[j]).id),
{
    assert forall|j: int| 0 <= j < drawer_rows().len() implies registered(
        (#[trigger] drawer_rows()[j]).id,
    ) by {
        assert(registry()[72 + j] == drawer_rows()[j]);
    }
}

proof fn lemma_workspaces_registered()
    ensures
        forall|j: int|
            0 <= j < workspaces_rows().len() ==> registered((#[trigger] workspaces_rows()[j]).id),
{
    assert forall|j: int| 0 <= j < workspaces_rows().len() implies registered(
        (#[trigger] workspaces_rows()[j]).id,
    ) by {
        assert(registry()[77 + j] == workspaces_rows()[j]);
    }
}

proof fn lemma_file_tree_registered()
    ensures
        forall|j: int|
            0 <= j < file_tree_rows().len() ==> registered((#[trigger] file_tree_rows()[j]).id),
{
    assert forall|j: int| 0 <= j < file_tree_rows().len() implies registered(
        (#[trigger] file_tree_rows()[j]).id,
    ) by {
        assert(registry()[86 + j] == file_tree_rows()[j]);
    }
}

proof fn lemma_overlay_navigation_registered()
    ensures
        forall|j: int|
            0 <= j < overlay_navigation_rows().len() ==> registered((#[trigger] overlay_navigation_rows()[j]).id),
{
    assert forall|j: int| 0 <= j < overlay_navigation_rows().len() implies registered(
        (#[trigger] overlay_navigation_rows()[j]).id,
    ) by {
        assert(registry()[105 + j] == overlay_navigation_rows()[j]);
    }
}

proof fn lemma_root_a_named()
    ensures
        forall|i: int|
            0 <= i < root_a_bindings().len() ==> registered(
                (#[trigger] root_a_bindings()[i]).action,
            ),
{
    lemma_application_registered();
    lemma_panes_registered();
    lemma_drawer_registered();
    let s = root_a_bindings();
    assert(s[0].action == application_rows()[0].id);
    assert(s[1].action == panes_rows()[4].id);
    assert(s[2].action == panes_rows()[7].id);
    assert(s[3].action == panes_rows()[6].id);
    assert(s[4].action == panes_rows()[5].id);
    assert(s[5].action == panes_rows()[0].id);
    assert(s[6].action == panes_rows()[3].id);
    assert(s[7].action == panes_rows()[1].id);
    assert(s[8].action == panes_rows()[2].id);
    assert(s[9].action == panes_rows()[8].id);
    assert(s[10].action == drawer_rows()[3].id);
    assert(s[11].action == panes_rows()[10].id);
    assert(s[12].action == panes_rows()[9].id);
    assert(s[13].action == panes_rows()[12].id);
    assert(s[14].action == panes_rows()[11].id);
    assert(s[15].action == panes_rows()[13].id);
    assert(s.len() == 16);
}

proof fn lemma_root_b_named()
    ensures
        forall|i: int|
            0 <= i < root_b_bindings().len() ==> registered(
                (#[trigger] root_b_bindings()[i]).action,
            ),
{
    lemma_drawer_registered();
    lemma_panes_registered();
    lemma_terminal_registered();
    let s = root_b_bindings();
    assert(s[0].action == drawer_rows()[1].id);
    assert(s[1].action == drawer_rows()[1].id);
    assert(s[2].action == panes_rows()[0].id);
    assert(s[3].action == panes_rows()[3].id);
    assert(s[4].action == panes_rows()[4].id);
    assert(s[5].action == panes_rows()[5].id);
    assert(s[6].action == panes_rows()[6].id);
    assert(s[7].action == panes_rows()[7].id);
    assert(s[8].action == drawer_rows()[0].id);
    assert(s[9].action == terminal_rows()[1].id);
    assert(s[10].action == terminal_rows()[0].id);
    assert(s[11].action == terminal_rows()[7].id);
    assert(s[12].action == terminal_rows()[7].id);
    assert(s[13].action == terminal_rows()[8].id);
    assert(s[14].action == terminal_rows()[9].id);
    assert(s[15].action == terminal_rows()[4].id);
    assert(s.len() == 16);
}

proof fn lemma_root_c_named()
    ensures
        forall|i: int|
            0 <= i < root_c_bindings().len() ==> registered(
                (#[trigger] root_c_bindings()[i]).action,
            ),
{
    lemma_terminal_registered();
    lemma_window_registered();
    lemma_tabs_registered();
    let s = root_c_bindings();
    assert(s[0].action == terminal_rows()[5].id);
    assert(s[1].action == terminal_rows()[6].id);
    assert(s[2].action == window_rows()[0].id);
    assert(s[3].action == tabs_rows()[0].id);
    assert(s[4].action == tabs_rows()[1].id);
    assert(s[5].action == tabs_rows()[2].id);
    assert(s[6].action == tabs_rows()[1].id);
    assert(s[7].action == tabs_rows()[2].id);
    assert(s[8].action == tabs_rows()[1].id);
    assert(s[9].action == tabs_rows()[2].id);
    assert(s[10].action == tabs_rows()[3].id);
    assert(s[11].action == tabs_rows()[4].id);
    assert(s[12].action == tabs_rows()[5].id);
    assert(s[13].action == tabs_rows()[6].id);
    assert(s[14].action == tabs_rows()[7].id);
    assert(s[15].action == tabs_rows()[8].id);
    assert(s.len() == 16);
}

proof fn lemma_root_d_named()
    ensures
        forall|i: int|
            0 <= i < root_d_bindings().len() ==> registered(
                (#[trigger] root_d_bindings()[i]).action,
            ),
{
    lemma_tabs_registered();
    lemma_drawer_registered();
    lemma_window_registered();
    lemma_terminal_registered();
    lemma_application_registered();
    let s = root_d_bindings();
    assert(s[0].action == tabs_rows()[9].id);
    assert(s[1].action == tabs_rows()[10].id);
    assert(s[2].action == tabs_rows()[11].id);
    assert(s[3].action == drawer_rows()[4].id);
    assert(s[4].action == window_rows()[1].id);
    assert(s[5].action == terminal_rows()[2].id);
    assert(s[6].action == window_rows()[2].id);
    assert(s[7].action == window_rows()[4].id);
    assert(s[8].action == application_rows()[5].id);
    assert(s[9].action == application_rows()[6].id);
    assert(s[10].action == application_rows()[3].id);
    assert(s[11].action == application_rows()[4].id);
    assert(s[12].action == application_rows()[4].id);
    assert(s[13].action == application_rows()[2].id);
    assert(s.len() == 14);
}

proof fn lemma_overlay_named()
    ensures
        forall|i: int|
            0 <= i < overlay_bindings().len() ==> registered(
                (#[trigger] overlay_bindings()[i]).action,
            ),
{
    lemma_overlay_navigation_registered();
    let s = overlay_bindings();
    assert(s[0].action == overlay_navigation_rows()[0].id);
    assert(s[1].action == overlay_navigation_rows()[0].id);
    assert(s[2].action == overlay_navigation_rows()[1].id);
    assert(s[3].action == overlay_navigation_rows()[1].id);
    assert(s[4].action == overlay_navigation_rows()[2].id);
    assert(s[5].action == overlay_navigation_rows()[4].id);
    assert(s.len() == 6);
}

proof fn lemma_overlay_list_named()
    ensures
        forall|i: int|
            0 <= i < overlay_list_bindings().len() ==> registered(
                (#[trigger] overlay_list_bindings()[i]).action,
            ),
{
    lemma_overlay_navigation_registered();
    let s = overlay_list_bindings();
    assert(s[0].action == overlay_navigation_rows()[0].id);
    assert(s[1].action == overlay_navigation_rows()[1].id);
    assert(s.len() == 2);
}

proof fn lemma_file_tree_a_named()
    ensures
        forall|i: int|
            0 <= i < file_tree_a_bindings().len() ==> registered(
                (#[trigger] file_tree_a_bindings()[i]).action,
            ),
{
    lemma_file_tree_registered();
    let s = file_tree_a_bindings();
    assert(s[0].action == file_tree_rows()[0].id);
    assert(s[1].action == file_tree_rows()[0].id);
    assert(s[2].action == file_tree_rows()[1].id);
    assert(s[3].action == file_tree_rows()[1].id);
    assert(s[4].action == file_tree_rows()[2].id);
    assert(s[5].action == file_tree_rows()[3].id);
    assert(s[6].action == file_tree_rows()[4].id);
    assert(s[7].action == file_tree_rows()[5].id);
    assert(s[8].action == file_tree_rows()[6].id);
    assert(s[9].action == file_tree_rows()[6].id);
    assert(s[10].action == file_tree_rows()[7].id);
    assert(s[11].action == file_tree_rows()[7].id);
    assert(s[12].action == file_tree_rows()[8].id);
    assert(s[13].action == file_tree_rows()[8].id);
    assert(s[14].action == file_tree_rows()[9].id);
    assert(s[15].action == file_tree_rows()[10].id);
    assert(s.len() == 16);
}

proof fn lemma_file_tree_b_named()
    ensures
        forall|i: int|
            0 <= i < file_tree_b_bindings().len() ==> registered(
                (#[trigger] file_tree_b_bindings()[i]).action,
            ),
{
    lemma_file_tree_registered();
    lemma_drawer_registered();
    let s = file_tree_b_bindings();
    assert(s[0].action == file_tree_rows()[11].id);
    assert(s[1].action == file_tree_rows()[12].id);
    assert(s[2].action == file_tree_rows()[13].id);
    assert(s[3].action == file_tree_rows()[14].id);
    assert(s[4].action == file_tree_rows()[15].id);
    assert(s[5].action == file_tree_rows()[16].id);
    assert(s[6].action == file_tree_rows()[17].id);
    assert(s[7].action == file_tree_rows()[18].id);
    assert(s[8].action == drawer_rows()[4].id);
    assert(s.len() == 9);
}

proof fn lemma_workspaces_named()
    ensures
        forall|i: int|
            0 <= i < workspaces_bindings().len() ==> registered(
                (#[trigger] workspaces_bindings()[i]).action,
            ),
{
    lemma_workspaces_registered();
    lemma_drawer_registered();
    let s = workspaces_bindings();
    assert(s[0].action == workspaces_rows()[1].id);
    assert(s[1].action == workspaces_rows()[1].id);
    assert(s[2].action == workspaces_rows()[2].id);
    assert(s[3].action == workspaces_rows()[2].id);
    assert(s[4].action == workspaces_rows()[3].id);
    assert(s[5].action == workspaces_rows()[3].id);
    assert(s[6].action == workspaces_rows()[4].id);
    assert(s[7].action == workspaces_rows()[5].id);
    assert(s[8].action == workspaces_rows()[6].id);
    assert(s[9].action == workspaces_rows()[7].id);
    assert(s[10].action == workspaces_rows()[8].id);
    assert(s[11].action == drawer_rows()[1].id);
    assert(s.len() == 12);
}

/// Every built-in binding names an action that exists.
pub proof fn lemma_defaults_registered(i: int)
    requires
        0 <= i < default_bindings().len(),
    ensures
        row_of(default_bindings()[i].action, registry()) is Some,
{
    lemma_root_a_named();
    lemma_root_b_named();
    lemma_root_c_named();
    lemma_root_d_named();
    lemma_overlay_named();
    lemma_overlay_list_named();
    lemma_file_tree_a_named();
    lemma_file_tree_b_named();
    lemma_workspaces_named();
    let a = root_a_bindings() + root_b_bindings() + root_c_bindings() + root_d_bindings();
    let b = overlay_bindings() + overlay_list_bindings() + file_tree_a_bindings()
        + file_tree_b_bindings() + workspaces_bindings();
    assert(default_bindings() =~= a + b);
    let action = default_bindings()[i].action;
    assert(registered(action));
    lemma_registered(action, registry());
}

// --- What the keys do ---

/// Whether some keys are bound to an action from the start.
pub open spec fn bound_by_default(keys: Seq<char>, action: Seq<char>, ctx: KeyCtx) -> bool {
    default_bindings().contains(bound(keys, action, ctx))
}

/// Left, down, up and right are the arrows and the letters `h`, `j`, `k` and
/// `l`, in each panel alike.
pub proof fn lemma_keys_of_directions()
    ensures
        bound_by_default("ctrl-w h"@, "pane::focus_left"@, KeyCtx::Root),
        bound_by_default("ctrl-w j"@, "pane::focus_down"@, KeyCtx::Root),
        bound_by_default("ctrl-w k"@, "pane::focus_up"@, KeyCtx::Root),
        bound_by_default("ctrl-w l"@, "pane::focus_right"@, KeyCtx::Root),
        bound_by_default("cmd-alt-left"@, "pane::focus_left"@, KeyCtx::Root),
        bound_by_default("cmd-alt-down"@, "pane::focus_down"@, KeyCtx::Root),
        bound_by_default("cmd-alt-up"@, "pane::focus_up"@, KeyCtx::Root),
        bound_by_default("cmd-alt-right"@, "pane::focus_right"@, KeyCtx::Root),
        bound_by_default("cmd-up"@, "terminal::prompt_up"@, KeyCtx::Root),
        bound_by_default("cmd-down"@, "terminal::prompt_down"@, KeyCtx::Root),
        bound_by_default("j"@, "tree::down"@, KeyCtx::FileTree),
        bound_by_default("down"@, "tree::down"@, KeyCtx::FileTree),
        bound_by_default("k"@, "tree::up"@, KeyCtx::FileTree),
        bound_by_default("up"@, "tree::up"@, KeyCtx::FileTree),
        bound_by_default("h"@, "tree::collapse"@, KeyCtx::FileTree),
        bound_by_default("left"@, "tree::collapse"@, KeyCtx::FileTree),
        bound_by_default("l"@, "tree::expand"@, KeyCtx::FileTree),
        bound_by_default("right"@, "tree::expand"@, KeyCtx::FileTree),
        bound_by_default("j"@, "workspace::down"@, KeyCtx::Workspaces),
        bound_by_default("down"@, "workspace::down"@, KeyCtx::Workspaces),
        bound_by_default("k"@, "workspace::up"@, KeyCtx::Workspaces),
        bound_by_default("up"@, "workspace::up"@, KeyCtx::Workspaces),
        bound_by_default("j"@, "overlay::next"@, KeyCtx::OverlayList),
        bound_by_default("k"@, "overlay::prev"@, KeyCtx::OverlayList),
        bound_by_default("down"@, "overlay::next"@, KeyCtx::Overlay),
        bound_by_default("up"@, "overlay::prev"@, KeyCtx::Overlay),
        bound_by_default("ctrl-n"@, "overlay::next"@, KeyCtx::Overlay),
        bound_by_default("ctrl-p"@, "overlay::prev"@, KeyCtx::Overlay),
{
    assert(default_bindings()[1] == root_a_bindings()[1]);
    assert(default_bindings()[2] == root_a_bindings()[2]);
    assert(default_bindings()[3] == root_a_bindings()[3]);
    assert(default_bindings()[4] == root_a_bindings()[4]);
    assert(default_bindings()[20] == root_b_bindings()[4]);
    assert(default_bindings()[23] == root_b_bindings()[7]);
    assert(default_bindings()[22] == root_b_bindings()[6]);
    assert(default_bindings()[21] == root_b_bindings()[5]);
    assert(default_bindings()[32] == root_c_bindings()[0]);
    assert(default_bindings()[33] == root_c_bindings()[1]);
    assert(default_bindings()[70] == file_tree_a_bindings()[0]);
    assert(default_bindings()[71] == file_tree_a_bindings()[1]);
    assert(default_bindings()[72] == file_tree_a_bindings()[2]);
    assert(default_bindings()[73] == file_tree_a_bindings()[3]);
    assert(default_bindings()[80] == file_tree_a_bindings()[10]);
    assert(default_bindings()[81] == file_tree_a_bindings()[11]);
    assert(default_bindings()[78] == file_tree_a_bindings()[8]);
    assert(default_bindings()[79] == file_tree_a_bindings()[9]);
    assert(default_bindings()[95] == workspaces_bindings()[0]);
    assert(default_bindings()[96] == workspaces_bindings()[1]);
    assert(default_bindings()[97] == workspaces_bindings()[2]);
    assert(default_bindings()[98] == workspaces_bindings()[3]);
    assert(default_bindings()[68] == overlay_list_bindings()[0]);
    assert(default_bindings()[69] == overlay_list_bindings()[1]);
    assert(default_bindings()[62] == overlay_bindings()[0]);
    assert(default_bindings()[64] == overlay_bindings()[2]);
    assert(default_bindings()[63] == overlay_bindings()[1]);
    assert(default_bindings()[65] == overlay_bindings()[3]);
}

/// Panes are split, resized and closed behind `ctrl-w`; the most common splits
/// have a key of their own.
pub proof fn lemma_keys_of_panes()
    ensures
        bound_by_default("ctrl-w v"@, "pane::split_right"@, KeyCtx::Root),
        bound_by_default("ctrl-w s"@, "pane::split_down"@, KeyCtx::Root),
        bound_by_default("ctrl-w shift-v"@, "pane::split_left"@, KeyCtx::Root),
        bound_by_default("ctrl-w shift-s"@, "pane::split_up"@, KeyCtx::Root),
        bound_by_default("cmd-d"@, "pane::split_right"@, KeyCtx::Root),
        bound_by_default("cmd-shift-d"@, "pane::split_down"@, KeyCtx::Root),
        bound_by_default("ctrl-w q"@, "pane::close"@, KeyCtx::Root),
        bound_by_default("ctrl-w <"@, "pane::narrower"@, KeyCtx::Root),
        bound_by_default("ctrl-w >"@, "pane::wider"@, KeyCtx::Root),
        bound_by_default("ctrl-w -"@, "pane::shorter"@, KeyCtx::Root),
        bound_by_default("ctrl-w +"@, "pane::taller"@, KeyCtx::Root),
        bound_by_default("ctrl-w ="@, "pane::equalize"@, KeyCtx::Root),
{
    assert(default_bindings()[5] == root_a_bindings()[5]);
    assert(default_bindings()[6] == root_a_bindings()[6]);
    assert(default_bindings()[7] == root_a_bindings()[7]);
    assert(default_bindings()[8] == root_a_bindings()[8]);
    assert(default_bindings()[18] == root_b_bindings()[2]);
    assert(default_bindings()[19] == root_b_bindings()[3]);
    assert(default_bindings()[9] == root_a_bindings()[9]);
    assert(default_bindings()[11] == root_a_bindings()[11]);
    assert(default_bindings()[12] == root_a_bindings()[12]);
    assert(default_bindings()[13] == root_a_bindings()[13]);
    assert(default_bindings()[14] == root_a_bindings()[14]);
    assert(default_bindings()[15] == root_a_bindings()[15]);
}

/// A tab is opened, gone to by its number, and left for the next or the one
/// before.
pub proof fn lemma_keys_of_tabs()
    ensures
        bound_by_default("cmd-t"@, "tab::new"@, KeyCtx::Root),
        bound_by_default("cmd-1"@, "tab::select_1"@, KeyCtx::Root),
        bound_by_default("cmd-2"@, "tab::select_2"@, KeyCtx::Root),
        bound_by_default("cmd-3"@, "tab::select_3"@, KeyCtx::Root),
        bound_by_default("cmd-4"@, "tab::select_4"@, KeyCtx::Root),
        bound_by_default("cmd-5"@, "tab::select_5"@, KeyCtx::Root),
        bound_by_default("cmd-6"@, "tab::select_6"@, KeyCtx::Root),
        bound_by_default("cmd-7"@, "tab::select_7"@, KeyCtx::Root),
        bound_by_default("cmd-8"@, "tab::select_8"@, KeyCtx::Root),
        bound_by_default("cmd-9"@, "tab::select_9"@, KeyCtx::Root),
        bound_by_default("ctrl-tab"@, "tab::next"@, KeyCtx::Root),
        bound_by_default("ctrl-shift-tab"@, "tab::previous"@, KeyCtx::Root),
        bound_by_default("shift-cmd-]"@, "tab::next"@, KeyCtx::Root),
        bound_by_default("shift-cmd-["@, "tab::previous"@, KeyCtx::Root),
        bound_by_default("cmd-}"@, "tab::next"@, KeyCtx::Root),
        bound_by_default("cmd-{"@, "tab::previous"@, KeyCtx::Root),
{
    assert(default_bindings()[35] == root_c_bindings()[3]);
    assert(default_bindings()[42] == root_c_bindings()[10]);
    assert(default_bindings()[43] == root_c_bindings()[11]);
    assert(default_bindings()[44] == root_c_bindings()[12]);
    assert(default_bindings()[45] == root_c_bindings()[13]);
    assert(default_bindings()[46] == root_c_bindings()[14]);
    assert(default_bindings()[47] == root_c_bindings()[15]);
    assert(default_bindings()[48] == root_d_bindings()[0]);
    assert(default_bindings()[49] == root_d_bindings()[1]);
    assert(default_bindings()[50] == root_d_bindings()[2]);
    assert(default_bindings()[36] == root_c_bindings()[4]);
    assert(default_bindings()[37] == root_c_bindings()[5]);
    assert(default_bindings()[38] == root_c_bindings()[6]);
    assert(default_bindings()[39] == root_c_bindings()[7]);
    assert(default_bindings()[40] == root_c_bindings()[8]);
    assert(default_bindings()[41] == root_c_bindings()[9]);
}

/// Copy, paste, find, select and the font size.
pub proof fn lemma_keys_of_the_terminal()
    ensures
        bound_by_default("cmd-c"@, "terminal::copy"@, KeyCtx::Root),
        bound_by_default("cmd-v"@, "terminal::paste"@, KeyCtx::Root),
        bound_by_default("cmd-f"@, "terminal::search"@, KeyCtx::Root),
        bound_by_default("cmd-a"@, "terminal::select_all"@, KeyCtx::Root),
        bound_by_default("cmd-="@, "terminal::font_increase"@, KeyCtx::Root),
        bound_by_default("cmd-+"@, "terminal::font_increase"@, KeyCtx::Root),
        bound_by_default("cmd--"@, "terminal::font_decrease"@, KeyCtx::Root),
        bound_by_default("cmd-0"@, "terminal::font_reset"@, KeyCtx::Root),
{
    assert(default_bindings()[26] == root_b_bindings()[10]);
    assert(default_bindings()[25] == root_b_bindings()[9]);
    assert(default_bindings()[31] == root_b_bindings()[15]);
    assert(default_bindings()[53] == root_d_bindings()[5]);
    assert(default_bindings()[27] == root_b_bindings()[11]);
    assert(default_bindings()[28] == root_b_bindings()[12]);
    assert(default_bindings()[29] == root_b_bindings()[13]);
    assert(default_bindings()[30] == root_b_bindings()[14]);
}

/// The window and the application.
pub proof fn lemma_keys_of_the_application()
    ensures
        bound_by_default("cmd-q"@, "app::quit"@, KeyCtx::Root),
        bound_by_default("cmd-n"@, "window::new"@, KeyCtx::Root),
        bound_by_default("cmd-w"@, "window::close"@, KeyCtx::Root),
        bound_by_default("cmd-m"@, "window::minimize"@, KeyCtx::Root),
        bound_by_default("ctrl-cmd-f"@, "window::toggle_fullscreen"@, KeyCtx::Root),
        bound_by_default("cmd-h"@, "app::hide"@, KeyCtx::Root),
        bound_by_default("alt-cmd-h"@, "app::hide_others"@, KeyCtx::Root),
        bound_by_default("cmd-k cmd-t"@, "app::select_theme"@, KeyCtx::Root),
        bound_by_default("cmd-shift-p"@, "app::palette"@, KeyCtx::Root),
        bound_by_default("cmd-k cmd-p"@, "app::palette"@, KeyCtx::Root),
        bound_by_default("cmd-,"@, "app::settings"@, KeyCtx::Root),
        bound_by_default("cmd-b"@, "drawer::toggle"@, KeyCtx::Root),
        bound_by_default("ctrl-w t"@, "drawer::focus_tree"@, KeyCtx::Root),
        bound_by_default("cmd-shift-e"@, "drawer::focus_tree"@, KeyCtx::Root),
        bound_by_default("ctrl-w w"@, "drawer::focus_toggle"@, KeyCtx::Root),
        bound_by_default("ctrl-w p"@, "drawer::focus_workspaces"@, KeyCtx::Root),
{
    assert(default_bindings()[0] == root_a_bindings()[0]);
    assert(default_bindings()[34] == root_c_bindings()[2]);
    assert(default_bindings()[52] == root_d_bindings()[4]);
    assert(default_bindings()[54] == root_d_bindings()[6]);
    assert(default_bindings()[55] == root_d_bindings()[7]);
    assert(default_bindings()[56] == root_d_bindings()[8]);
    assert(default_bindings()[57] == root_d_bindings()[9]);
    assert(default_bindings()[58] == root_d_bindings()[10]);
    assert(default_bindings()[59] == root_d_bindings()[11]);
    assert(default_bindings()[60] == root_d_bindings()[12]);
    assert(default_bindings()[61] == root_d_bindings()[13]);
    assert(default_bindings()[24] == root_b_bindings()[8]);
    assert(default_bindings()[16] == root_b_bindings()[0]);
    assert(default_bindings()[17] == root_b_bindings()[1]);
    assert(default_bindings()[10] == root_a_bindings()[10]);
    assert(default_bindings()[51] == root_d_bindings()[3]);
}

/// What a list does with the other keys.
pub proof fn lemma_keys_of_lists()
    ensures
        bound_by_default("enter"@, "overlay::confirm"@, KeyCtx::Overlay),
        bound_by_default("escape"@, "overlay::cancel"@, KeyCtx::Overlay),
        bound_by_default("g g"@, "tree::top"@, KeyCtx::FileTree),
        bound_by_default("shift-g"@, "tree::bottom"@, KeyCtx::FileTree),
        bound_by_default("ctrl-d"@, "tree::half_page_down"@, KeyCtx::FileTree),
        bound_by_default("ctrl-u"@, "tree::half_page_up"@, KeyCtx::FileTree),
        bound_by_default("enter"@, "tree::open"@, KeyCtx::FileTree),
        bound_by_default("o"@, "tree::open"@, KeyCtx::FileTree),
        bound_by_default("p"@, "tree::parent"@, KeyCtx::FileTree),
        bound_by_default("c"@, "tree::set_root"@, KeyCtx::FileTree),
        bound_by_default("-"@, "tree::root_up"@, KeyCtx::FileTree),
        bound_by_default("shift-i"@, "tree::toggle_hidden"@, KeyCtx::FileTree),
        bound_by_default("shift-r"@, "tree::refresh"@, KeyCtx::FileTree),
        bound_by_default("/"@, "tree::filter"@, KeyCtx::FileTree),
        bound_by_default("a"@, "tree::add"@, KeyCtx::FileTree),
        bound_by_default("r"@, "tree::rename"@, KeyCtx::FileTree),
        bound_by_default("d"@, "tree::delete"@, KeyCtx::FileTree),
        bound_by_default("escape"@, "tree::escape"@, KeyCtx::FileTree),
        bound_by_default("tab"@, "drawer::focus_workspaces"@, KeyCtx::FileTree),
        bound_by_default("enter"@, "workspace::open"@, KeyCtx::Workspaces),
        bound_by_default("o"@, "workspace::open"@, KeyCtx::Workspaces),
        bound_by_default("a"@, "workspace::add"@, KeyCtx::Workspaces),
        bound_by_default("d"@, "workspace::delete"@, KeyCtx::Workspaces),
        bound_by_default("r"@, "workspace::rename"@, KeyCtx::Workspaces),
        bound_by_default("p"@, "workspace::toggle_persist"@, KeyCtx::Workspaces),
        bound_by_default("escape"@, "workspace::escape"@, KeyCtx::Workspaces),
        bound_by_default("tab"@, "drawer::focus_tree"@, KeyCtx::Workspaces),
{
    assert(default_bindings()[66] == overlay_bindings()[4]);
    assert(default_bindings()[67] == overlay_bindings()[5]);
    assert(default_bindings()[74] == file_tree_a_bindings()[4]);
    assert(default_bindings()[75] == file_tree_a_bindings()[5]);
    assert(default_bindings()[76] == file_tree_a_bindings()[6]);
    assert(default_bindings()[77] == file_tree_a_bindings()[7]);
    assert(default_bindings()[82] == file_tree_a_bindings()[12]);
    assert(default_bindings()[83] == file_tree_a_bindings()[13]);
    assert(default_bindings()[84] == file_tree_a_bindings()[14]);
    assert(default_bindings()[85] == file_tree_a_bindings()[15]);
    assert(default_bindings()[86] == file_tree_b_bindings()[0]);
    assert(default_bindings()[87] == file_tree_b_bindings()[1]);
    assert(default_bindings()[88] == file_tree_b_bindings()[2]);
    assert(default_bindings()[89] == file_tree_b_bindings()[3]);
    assert(default_bindings()[90] == file_tree_b_bindings()[4]);
    assert(default_bindings()[91] == file_tree_b_bindings()[5]);
    assert(default_bindings()[92] == file_tree_b_bindings()[6]);
    assert(default_bindings()[93] == file_tree_b_bindings()[7]);
    assert(default_bindings()[94] == file_tree_b_bindings()[8]);
    assert(default_bindings()[99] == workspaces_bindings()[4]);
    assert(default_bindings()[100] == workspaces_bindings()[5]);
    assert(default_bindings()[101] == workspaces_bindings()[6]);
    assert(default_bindings()[102] == workspaces_bindings()[7]);
    assert(default_bindings()[103] == workspaces_bindings()[8]);
    assert(default_bindings()[104] == workspaces_bindings()[9]);
    assert(default_bindings()[105] == workspaces_bindings()[10]);
    assert(default_bindings()[106] == workspaces_bindings()[11]);
}

} // verus!
