//! The application menus. macOS installs them in the menu bar; Linux has no
//! menu bar, so the same list backs the ☰ popover in the window's top-left
//! corner, minus the entries that only AppKit can honour.
use vstd::prelude::*;

use crate::keymap::actions::{
    application_rows, window_rows, tabs_rows, panes_rows, terminal_rows, drawer_rows,
    workspaces_rows, file_tree_rows, overlay_navigation_rows, registry, Action,
};

verus! {

/// An entry of a menu.
#[derive(Debug, Clone, Copy)]
pub enum MenuItem {
    Action { title: &'static str, action: Action },
    Separator,
    /// A submenu that the operating system fills.
    SystemMenu { title: &'static str },
}

/// A menu: its name and its entries.
#[derive(Debug)]
pub struct Menu {
    pub name: &'static str,
    pub items: Vec<MenuItem>,
}

/// An entry of a menu, as plain values.
pub ghost enum MenuRow {
    Action { title: Seq<char>, action: Action },
    Separator,
    System { title: Seq<char> },
}

/// A menu, as plain values.
pub ghost struct MenuView {
    pub name: Seq<char>,
    pub items: Seq<MenuRow>,
}

impl View for MenuItem {
    type V = MenuRow;

    open spec fn view(&self) -> MenuRow {
        match self {
            MenuItem::Action { title, action } => MenuRow::Action { title: title@, action: *action },
            MenuItem::Separator => MenuRow::Separator,
            MenuItem::SystemMenu { title } => MenuRow::System { title: title@ },
        }
    }
}

pub open spec fn item_rows(v: Seq<MenuItem>) -> Seq<MenuRow> {
    v.map_values(|i: MenuItem| i@)
}

impl View for Menu {
    type V = MenuView;

    open spec fn view(&self) -> MenuView {
        MenuView { name: self.name@, items: item_rows(self.items@) }
    }
}

pub open spec fn menu_views(v: Seq<Menu>) -> Seq<MenuView> {
    v.map_values(|m: Menu| m@)
}

/// An entry that performs an action.
pub open spec fn action(title: Seq<char>, action: Action) -> MenuRow {
    MenuRow::Action { title, action }
}

/// The start of the first menu.
pub open spec fn first_rows() -> Seq<MenuRow> {
    seq![
        action("About Oxide"@, Action::About),
        action("Check for Updates…"@, Action::CheckForUpdates),
        MenuRow::Separator,
        action("Settings…"@, Action::OpenSettings),
        action("Select Theme…"@, Action::SelectTheme),
    ]
}

fn first_items() -> (v: Vec<MenuItem>)
    ensures
        item_rows(v@) == first_rows(),
{
    let v = vec![
        MenuItem::Action { title: "About Oxide", action: Action::About },
        MenuItem::Action { title: "Check for Updates…", action: Action::CheckForUpdates },
        MenuItem::Separator,
        MenuItem::Action { title: "Settings…", action: Action::OpenSettings },
        MenuItem::Action { title: "Select Theme…", action: Action::SelectTheme },
    ];
    assert(item_rows(v@) =~= first_rows());
    v
}

/// Services and app hiding are AppKit concepts with no Wayland/X11
/// equivalent; a tiling WM has nowhere to hide a window to.
pub open spec fn appkit_rows() -> Seq<MenuRow> {
    seq![
        MenuRow::Separator,
        MenuRow::System { title: "Services"@ },
        MenuRow::Separator,
        action("Hide Oxide"@, Action::Hide),
        action("Hide Others"@, Action::HideOthers),
    ]
}

fn appkit_items() -> (v: Vec<MenuItem>)
    ensures
        item_rows(v@) == appkit_rows(),
{
    let v = vec![
        MenuItem::Separator,
        MenuItem::SystemMenu { title: "Services" },
        MenuItem::Separator,
        MenuItem::Action { title: "Hide Oxide", action: Action::Hide },
        MenuItem::Action { title: "Hide Others", action: Action::HideOthers },
    ];
    assert(item_rows(v@) =~= appkit_rows());
    v
}

/// The end of the first menu.
pub open spec fn last_rows() -> Seq<MenuRow> {
    seq![
        MenuRow::Separator,
        action("Quit Oxide"@, Action::Quit),
    ]
}

fn last_items() -> (v: Vec<MenuItem>)
    ensures
        item_rows(v@) == last_rows(),
{
    let v = vec![
        MenuItem::Separator,
        MenuItem::Action { title: "Quit Oxide", action: Action::Quit },
    ];
    assert(item_rows(v@) =~= last_rows());
    v
}

/// The entries of the File menu.
pub open spec fn file_rows() -> Seq<MenuRow> {
    seq![
        action("New Tab"@, Action::NewTab),
        action("New Workspace"@, Action::NewWorkspace),
        action("New Window"@, Action::NewWindow),
        MenuRow::Separator,
        action("Rename Tab…"@, Action::RenameTab),
        action("Reopen Closed Tab"@, Action::ReopenClosedTab),
        action("Set Startup Command…"@, Action::SetStartupCommand),
        MenuRow::Separator,
        action("Split Right"@, Action::SplitRight),
        action("Split Down"@, Action::SplitDown),
        action("Split Left"@, Action::SplitLeft),
        action("Split Up"@, Action::SplitUp),
        MenuRow::Separator,
        action("Close Pane"@, Action::ClosePane),
        action("Close Other Panes"@, Action::PaneOnly),
        action("Close Window"@, Action::CloseWindow),
    ]
}

fn file_items() -> (v: Vec<MenuItem>)
    ensures
        item_rows(v@) == file_rows(),
{
    let v = vec![
        MenuItem::Action { title: "New Tab", action: Action::NewTab },
        MenuItem::Action { title: "New Workspace", action: Action::NewWorkspace },
        MenuItem::Action { title: "New Window", action: Action::NewWindow },
        MenuItem::Separator,
        MenuItem::Action { title: "Rename Tab…", action: Action::RenameTab },
        MenuItem::Action { title: "Reopen Closed Tab", action: Action::ReopenClosedTab },
        MenuItem::Action { title: "Set Startup Command…", action: Action::SetStartupCommand },
        MenuItem::Separator,
        MenuItem::Action { title: "Split Right", action: Action::SplitRight },
        MenuItem::Action { title: "Split Down", action: Action::SplitDown },
        MenuItem::Action { title: "Split Left", action: Action::SplitLeft },
        MenuItem::Action { title: "Split Up", action: Action::SplitUp },
        MenuItem::Separator,
        MenuItem::Action { title: "Close Pane", action: Action::ClosePane },
        MenuItem::Action { title: "Close Other Panes", action: Action::PaneOnly },
        MenuItem::Action { title: "Close Window", action: Action::CloseWindow },
    ];
    assert(item_rows(v@) =~= file_rows());
    v
}

/// The entries of the Edit menu.
pub open spec fn edit_rows() -> Seq<MenuRow> {
    seq![
        action("Copy"@, Action::Copy),
        action("Paste"@, Action::Paste),
        MenuRow::Separator,
        action("Select All"@, Action::SelectAll),
        MenuRow::Separator,
        action("Copy Last Command's Output"@, Action::CopyLastOutput),
        action("Copy Last Command"@, Action::CopyLastCommand),
        action("Copy Last Command and Output"@, Action::CopyLastBlock),
        MenuRow::Separator,
        action("Find"@, Action::Search),
        action("Copy Mode"@, Action::CopyMode),
        action("Command History…"@, Action::CommandHistory),
    ]
}

fn edit_items() -> (v: Vec<MenuItem>)
    ensures
        item_rows(v@) == edit_rows(),
{
    let v = vec![
        MenuItem::Action { title: "Copy", action: Action::Copy },
        MenuItem::Action { title: "Paste", action: Action::Paste },
        MenuItem::Separator,
        MenuItem::Action { title: "Select All", action: Action::SelectAll },
        MenuItem::Separator,
        MenuItem::Action { title: "Copy Last Command's Output", action: Action::CopyLastOutput },
        MenuItem::Action { title: "Copy Last Command", action: Action::CopyLastCommand },
        MenuItem::Action { title: "Copy Last Command and Output", action: Action::CopyLastBlock },
        MenuItem::Separator,
        MenuItem::Action { title: "Find", action: Action::Search },
        MenuItem::Action { title: "Copy Mode", action: Action::CopyMode },
        MenuItem::Action { title: "Command History…", action: Action::CommandHistory },
    ];
    assert(item_rows(v@) =~= edit_rows());
    v
}

/// The entries of the View menu.
pub open spec fn view_rows() -> Seq<MenuRow> {
    seq![
        action("Command Palette…"@, Action::CommandPalette),
        MenuRow::Separator,
        action("Toggle File Tree"@, Action::ToggleDrawer),
        action("Focus File Tree"@, Action::FocusTree),
        action("Toggle Status Bar"@, Action::ToggleStatusBar),
        action("Toggle Tab Bar"@, Action::ToggleTabBar),
        MenuRow::Separator,
        action("Increase Font Size"@, Action::FontIncrease),
        action("Decrease Font Size"@, Action::FontDecrease),
        action("Reset Font Size"@, Action::FontReset),
        MenuRow::Separator,
        action("Clear Scrollback"@, Action::ClearScrollback),
        MenuRow::Separator,
        action("Enter Full Screen"@, Action::ToggleFullscreen),
    ]
}

fn view_items() -> (v: Vec<MenuItem>)
    ensures
        item_rows(v@) == view_rows(),
{
    let v = vec![
        MenuItem::Action { title: "Command Palette…", action: Action::CommandPalette },
        MenuItem::Separator,
        MenuItem::Action { title: "Toggle File Tree", action: Action::ToggleDrawer },
        MenuItem::Action { title: "Focus File Tree", action: Action::FocusTree },
        MenuItem::Action { title: "Toggle Status Bar", action: Action::ToggleStatusBar },
        MenuItem::Action { title: "Toggle Tab Bar", action: Action::ToggleTabBar },
        MenuItem::Separator,
        MenuItem::Action { title: "Increase Font Size", action: Action::FontIncrease },
        MenuItem::Action { title: "Decrease Font Size", action: Action::FontDecrease },
        MenuItem::Action { title: "Reset Font Size", action: Action::FontReset },
        MenuItem::Separator,
        MenuItem::Action { title: "Clear Scrollback", action: Action::ClearScrollback },
        MenuItem::Separator,
        MenuItem::Action { title: "Enter Full Screen", action: Action::ToggleFullscreen },
    ];
    assert(item_rows(v@) =~= view_rows());
    v
}

/// The entries of the Window menu.
pub open spec fn window_menu_rows() -> Seq<MenuRow> {
    seq![
        action("Minimize"@, Action::Minimize),
        action("Zoom"@, Action::Zoom),
        MenuRow::Separator,
        action("Equalize Splits"@, Action::PaneEqualize),
        action("Zoom Pane"@, Action::PaneZoom),
        action("Swap Pane with Neighbour"@, Action::PaneSwap),
        action("Broadcast Input to All Panes"@, Action::PaneBroadcast),
        MenuRow::Separator,
        action("Show Next Tab"@, Action::SelectNextTab),
        action("Show Previous Tab"@, Action::SelectPreviousTab),
        action("Move Tab Left"@, Action::MoveTabLeft),
        action("Move Tab Right"@, Action::MoveTabRight),
    ]
}

fn window_items() -> (v: Vec<MenuItem>)
    ensures
        item_rows(v@) == window_menu_rows(),
{
    let v = vec![
        MenuItem::Action { title: "Minimize", action: Action::Minimize },
        MenuItem::Action { title: "Zoom", action: Action::Zoom },
        MenuItem::Separator,
        MenuItem::Action { title: "Equalize Splits", action: Action::PaneEqualize },
        MenuItem::Action { title: "Zoom Pane", action: Action::PaneZoom },
        MenuItem::Action { title: "Swap Pane with Neighbour", action: Action::PaneSwap },
        MenuItem::Action { title: "Broadcast Input to All Panes", action: Action::PaneBroadcast },
        MenuItem::Separator,
        MenuItem::Action { title: "Show Next Tab", action: Action::SelectNextTab },
        MenuItem::Action { title: "Show Previous Tab", action: Action::SelectPreviousTab },
        MenuItem::Action { title: "Move Tab Left", action: Action::MoveTabLeft },
        MenuItem::Action { title: "Move Tab Right", action: Action::MoveTabRight },
    ];
    assert(item_rows(v@) =~= window_menu_rows());
    v
}

/// The entries of the Help menu.
pub open spec fn help_rows() -> Seq<MenuRow> {
    seq![
        action("Oxide Help"@, Action::OpenHelp),
        action("What's New"@, Action::ShowChangelog),
        action("Report an Issue"@, Action::ReportIssue),
    ]
}

fn help_items() -> (v: Vec<MenuItem>)
    ensures
        item_rows(v@) == help_rows(),
{
    let v = vec![
        MenuItem::Action { title: "Oxide Help", action: Action::OpenHelp },
        MenuItem::Action { title: "What's New", action: Action::ShowChangelog },
        MenuItem::Action { title: "Report an Issue", action: Action::ReportIssue },
    ];
    assert(item_rows(v@) =~= help_rows());
    v
}

/// The entries of the first menu.
pub open spec fn oxide_rows(macos: bool) -> Seq<MenuRow> {
    first_rows() + (if macos {
        appkit_rows()
    } else {
        Seq::empty()
    }) + last_rows()
}

/// The menus, from left to right.
pub open spec fn menu_list(macos: bool) -> Seq<MenuView> {
    seq![
        MenuView { name: "Oxide"@, items: oxide_rows(macos) },
        MenuView { name: "File"@, items: file_rows() },
        MenuView { name: "Edit"@, items: edit_rows() },
        MenuView { name: "View"@, items: view_rows() },
        MenuView { name: "Window"@, items: window_menu_rows() },
        MenuView { name: "Help"@, items: help_rows() },
    ]
}

/// The application menus.
pub fn menus(macos: bool) -> (r: Vec<Menu>)
    ensures
        menu_views(r@) == menu_list(macos),
{
    let mut oxide = first_items();
    let ghost a = oxide@;
    if macos {
        let mut more = appkit_items();
        oxide.append(&mut more);
        assert(item_rows(oxide@) =~= first_rows() + appkit_rows());
    } else {
        assert(item_rows(oxide@) =~= first_rows() + Seq::<MenuRow>::empty());
    }
    let ghost b = item_rows(oxide@);
    let mut end = last_items();
    oxide.append(&mut end);
    assert(item_rows(oxide@) =~= b + last_rows());
    let mut r: Vec<Menu> = Vec::new();
    // The first menu takes the app's name in the menu bar.
    r.push(Menu { name: "Oxide", items: oxide });
    r.push(Menu { name: "File", items: file_items() });
    r.push(Menu { name: "Edit", items: edit_items() });
    r.push(Menu { name: "View", items: view_items() });
    r.push(Menu { name: "Window", items: window_items() });
    r.push(Menu { name: "Help", items: help_items() });
    assert(menu_views(r@) =~= menu_list(macos));
    r
}

/// Whether an action has a row in the registry.
pub open spec fn has_row(action: Action) -> bool {
    exists|i: int| 0 <= i < registry().len() && (#[trigger] registry()[i]).action == action
}

/// Where the rows of each group stand in the registry.
proof fn lemma_groups()
    ensures
        registry().len() == 110,
        forall|i: int| 0 <= i < 14 ==> registry()[0 + i] == #[trigger] application_rows()[i],
        forall|i: int| 0 <= i < 5 ==> registry()[14 + i] == #[trigger] window_rows()[i],
        forall|i: int| 0 <= i < 16 ==> registry()[19 + i] == #[trigger] tabs_rows()[i],
        forall|i: int| 0 <= i < 19 ==> registry()[35 + i] == #[trigger] panes_rows()[i],
        forall|i: int| 0 <= i < 18 ==> registry()[54 + i] == #[trigger] terminal_rows()[i],
        forall|i: int| 0 <= i < 5 ==> registry()[72 + i] == #[trigger] drawer_rows()[i],
        forall|i: int| 0 <= i < 9 ==> registry()[77 + i] == #[trigger] workspaces_rows()[i],
        forall|i: int| 0 <= i < 19 ==> registry()[86 + i] == #[trigger] file_tree_rows()[i],
        forall|i: int| 0 <= i < 5 ==> registry()[105 + i] == #[trigger] overlay_navigation_rows()[i],
{
}

proof fn lemma_application_listed(i: int)
    requires
        0 <= i < 14,
    ensures
        has_row(application_rows()[i].action),
{
    lemma_groups();
    assert(registry()[0 + i].action == application_rows()[i].action);
}

proof fn lemma_window_listed(i: int)
    requires
        0 <= i < 5,
    ensures
        has_row(window_rows()[i].action),
{
    lemma_groups();
    assert(registry()[14 + i].action == window_rows()[i].action);
}

proof fn lemma_tabs_listed(i: int)
    requires
        0 <= i < 16,
    ensures
        has_row(tabs_rows()[i].action),
{
    lemma_groups();
    assert(registry()[19 + i].action == tabs_rows()[i].action);
}

proof fn lemma_panes_listed(i: int)
    requires
        0 <= i < 19,
    ensures
        has_row(panes_rows()[i].action),
{
    lemma_groups();
    assert(registry()[35 + i].action == panes_rows()[i].action);
}

proof fn lemma_terminal_listed(i: int)
    requires
        0 <= i < 18,
    ensures
        has_row(terminal_rows()[i].action),
{
    lemma_groups();
    assert(registry()[54 + i].action == terminal_rows()[i].action);
}

proof fn lemma_drawer_listed(i: int)
    requires
        0 <= i < 5,
    ensures
        has_row(drawer_rows()[i].action),
{
    lemma_groups();
    assert(registry()[72 + i].action == drawer_rows()[i].action);
}

proof fn lemma_workspaces_listed(i: int)
    requires
        0 <= i < 9,
    ensures
        has_row(workspaces_rows()[i].action),
{
    lemma_groups();
    assert(registry()[77 + i].action == workspaces_rows()[i].action);
}

proof fn lemma_first_have_rows()
    ensures
        forall|i: int|
            0 <= i < first_rows().len() ==> (#[trigger] first_rows()[i] matches MenuRow::Action { action, .. }
                ==> has_row(action)),
{
    lemma_application_listed(1);
    assert(application_rows()[1].action == Action::About);
    lemma_application_listed(9);
    assert(application_rows()[9].action == Action::CheckForUpdates);
    lemma_application_listed(2);
    assert(application_rows()[2].action == Action::OpenSettings);
    lemma_application_listed(3);
    assert(application_rows()[3].action == Action::SelectTheme);
    assert forall|i: int| 0 <= i < first_rows().len() implies (#[trigger] first_rows()[i] matches MenuRow::Action { action, .. }
        ==> has_row(action)) by {}
}

proof fn lemma_appkit_have_rows()
    ensures
        forall|i: int|
            0 <= i < appkit_rows().len() ==> (#[trigger] appkit_rows()[i] matches MenuRow::Action { action, .. }
                ==> has_row(action)),
{
    lemma_application_listed(5);
    assert(application_rows()[5].action == Action::Hide);
    lemma_application_listed(6);
    assert(application_rows()[6].action == Action::HideOthers);
    assert forall|i: int| 0 <= i < appkit_rows().len() implies (#[trigger] appkit_rows()[i] matches MenuRow::Action { action, .. }
        ==> has_row(action)) by {}
}

proof fn lemma_last_have_rows()
    ensures
        forall|i: int|
            0 <= i < last_rows().len() ==> (#[trigger] last_rows()[i] matches MenuRow::Action { action, .. }
                ==> has_row(action)),
{
    lemma_application_listed(0);
    assert(application_rows()[0].action == Action::Quit);
    assert forall|i: int| 0 <= i < last_rows().len() implies (#[trigger] last_rows()[i] matches MenuRow::Action { action, .. }
        ==> has_row(action)) by {}
}

proof fn lemma_file_have_rows()
    ensures
        forall|i: int|
            0 <= i < file_rows().len() ==> (#[trigger] file_rows()[i] matches MenuRow::Action { action, .. }
                ==> has_row(action)),
{
    lemma_tabs_listed(0);
    assert(tabs_rows()[0].action == Action::NewTab);
    lemma_workspaces_listed(0);
    assert(workspaces_rows()[0].action == Action::NewWorkspace);
    lemma_window_listed(0);
    assert(window_rows()[0].action == Action::NewWindow);
    lemma_tabs_listed(12);
    assert(tabs_rows()[12].action == Action::RenameTab);
    lemma_tabs_listed(13);
    assert(tabs_rows()[13].action == Action::ReopenClosedTab);
    lemma_panes_listed(18);
    assert(panes_rows()[18].action == Action::SetStartupCommand);
    lemma_panes_listed(0);
    assert(panes_rows()[0].action == Action::SplitRight);
    lemma_panes_listed(3);
    assert(panes_rows()[3].action == Action::SplitDown);
    lemma_panes_listed(1);
    assert(panes_rows()[1].action == Action::SplitLeft);
    lemma_panes_listed(2);
    assert(panes_rows()[2].action == Action::SplitUp);
    lemma_panes_listed(8);
    assert(panes_rows()[8].action == Action::ClosePane);
    lemma_panes_listed(14);
    assert(panes_rows()[14].action == Action::PaneOnly);
    lemma_window_listed(1);
    assert(window_rows()[1].action == Action::CloseWindow);
    assert forall|i: int| 0 <= i < file_rows().len() implies (#[trigger] file_rows()[i] matches MenuRow::Action { action, .. }
        ==> has_row(action)) by {}
}

proof fn lemma_edit_have_rows()
    ensures
        forall|i: int|
            0 <= i < edit_rows().len() ==> (#[trigger] edit_rows()[i] matches MenuRow::Action { action, .. }
                ==> has_row(action)),
{
    lemma_terminal_listed(0);
    assert(terminal_rows()[0].action == Action::Copy);
    lemma_terminal_listed(1);
    assert(terminal_rows()[1].action == Action::Paste);
    lemma_terminal_listed(2);
    assert(terminal_rows()[2].action == Action::SelectAll);
    lemma_terminal_listed(11);
    assert(terminal_rows()[11].action == Action::CopyLastOutput);
    lemma_terminal_listed(12);
    assert(terminal_rows()[12].action == Action::CopyLastCommand);
    lemma_terminal_listed(13);
    assert(terminal_rows()[13].action == Action::CopyLastBlock);
    lemma_terminal_listed(4);
    assert(terminal_rows()[4].action == Action::Search);
    lemma_terminal_listed(14);
    assert(terminal_rows()[14].action == Action::CopyMode);
    lemma_terminal_listed(10);
    assert(terminal_rows()[10].action == Action::CommandHistory);
    assert forall|i: int| 0 <= i < edit_rows().len() implies (#[trigger] edit_rows()[i] matches MenuRow::Action { action, .. }
        ==> has_row(action)) by {}
}

proof fn lemma_view_have_rows()
    ensures
        forall|i: int|
            0 <= i < view_rows().len() ==> (#[trigger] view_rows()[i] matches MenuRow::Action { action, .. }
                ==> has_row(action)),
{
    lemma_application_listed(4);
    assert(application_rows()[4].action == Action::CommandPalette);
    lemma_drawer_listed(0);
    assert(drawer_rows()[0].action == Action::ToggleDrawer);
    lemma_drawer_listed(1);
    assert(drawer_rows()[1].action == Action::FocusTree);
    lemma_application_listed(11);
    assert(application_rows()[11].action == Action::ToggleStatusBar);
    lemma_application_listed(12);
    assert(application_rows()[12].action == Action::ToggleTabBar);
    lemma_terminal_listed(7);
    assert(terminal_rows()[7].action == Action::FontIncrease);
    lemma_terminal_listed(8);
    assert(terminal_rows()[8].action == Action::FontDecrease);
    lemma_terminal_listed(9);
    assert(terminal_rows()[9].action == Action::FontReset);
    lemma_terminal_listed(3);
    assert(terminal_rows()[3].action == Action::ClearScrollback);
    lemma_window_listed(4);
    assert(window_rows()[4].action == Action::ToggleFullscreen);
    assert forall|i: int| 0 <= i < view_rows().len() implies (#[trigger] view_rows()[i] matches MenuRow::Action { action, .. }
        ==> has_row(action)) by {}
}

proof fn lemma_window_have_rows()
    ensures
        forall|i: int|
            0 <= i < window_menu_rows().len() ==> (#[trigger] window_menu_rows()[i] matches MenuRow::Action { action, .. }
                ==> has_row(action)),
{
    lemma_window_listed(2);
    assert(window_rows()[2].action == Action::Minimize);
    lemma_window_listed(3);
    assert(window_rows()[3].action == Action::Zoom);
    lemma_panes_listed(13);
    assert(panes_rows()[13].action == Action::PaneEqualize);
    lemma_panes_listed(15);
    assert(panes_rows()[15].action == Action::PaneZoom);
    lemma_panes_listed(16);
    assert(panes_rows()[16].action == Action::PaneSwap);
    lemma_panes_listed(17);
    assert(panes_rows()[17].action == Action::PaneBroadcast);
    lemma_tabs_listed(1);
    assert(tabs_rows()[1].action == Action::SelectNextTab);
    lemma_tabs_listed(2);
    assert(tabs_rows()[2].action == Action::SelectPreviousTab);
    lemma_tabs_listed(14);
    assert(tabs_rows()[14].action == Action::MoveTabLeft);
    lemma_tabs_listed(15);
    assert(tabs_rows()[15].action == Action::MoveTabRight);
    assert forall|i: int| 0 <= i < window_menu_rows().len() implies (#[trigger] window_menu_rows()[i] matches MenuRow::Action { action, .. }
        ==> has_row(action)) by {}
}

proof fn lemma_help_have_rows()
    ensures
        forall|i: int|
            0 <= i < help_rows().len() ==> (#[trigger] help_rows()[i] matches MenuRow::Action { action, .. }
                ==> has_row(action)),
{
    lemma_application_listed(7);
    assert(application_rows()[7].action == Action::OpenHelp);
    lemma_application_listed(13);
    assert(application_rows()[13].action == Action::ShowChangelog);
    lemma_application_listed(8);
    assert(application_rows()[8].action == Action::ReportIssue);
    assert forall|i: int| 0 <= i < help_rows().len() implies (#[trigger] help_rows()[i] matches MenuRow::Action { action, .. }
        ==> has_row(action)) by {}
}

/// Every menu entry resolves to a registry row: the Linux ☰ menu looks
/// bindings up that way, and the palette lists the same actions.
pub proof fn lemma_menu_actions_have_rows(macos: bool, m: int, i: int)
    requires
        0 <= m < menu_list(macos).len(),
        0 <= i < menu_list(macos)[m].items.len(),
    ensures
        menu_list(macos)[m].items[i] matches MenuRow::Action { action, .. } ==> has_row(action),
{
    lemma_first_have_rows();
    lemma_appkit_have_rows();
    lemma_last_have_rows();
    lemma_file_have_rows();
    lemma_edit_have_rows();
    lemma_view_have_rows();
    lemma_window_have_rows();
    lemma_help_have_rows();
    if m == 0 {
        let mid = if macos {
            appkit_rows()
        } else {
            Seq::empty()
        };
        let items = first_rows() + mid + last_rows();
        assert(menu_list(macos)[0].items == items);
        let a = first_rows().len();
        if i < a {
            assert(items[i] == first_rows()[i]);
        } else if i < a + mid.len() {
            assert(items[i] == appkit_rows()[i - a]);
        } else {
            assert(items[i] == last_rows()[i - a - mid.len()]);
        }
    }
}

/// Whether only AppKit can honour an entry.
pub open spec fn appkit_only(row: MenuRow) -> bool {
    row is System || (row matches MenuRow::Action { action, .. } && (action == Action::Hide
        || action == Action::HideOthers))
}

/// Elsewhere than on macOS, no menu has an entry that only AppKit can honour.
pub proof fn lemma_no_appkit_elsewhere(m: int, i: int)
    requires
        0 <= m < menu_list(false).len(),
        0 <= i < menu_list(false)[m].items.len(),
    ensures
        !appkit_only(menu_list(false)[m].items[i]),
{
    if m == 0 {
        let items = first_rows() + Seq::<MenuRow>::empty() + last_rows();
        assert(menu_list(false)[0].items == items);
        let a = first_rows().len();
        if i < a {
            assert(items[i] == first_rows()[i]);
        } else {
            assert(items[i] == last_rows()[i - a]);
        }
    }
}

/// Whether a menu has an item with this title for this action.
pub open spec fn offers(macos: bool, menu: Seq<char>, title: Seq<char>, act: Action) -> bool {
    exists|m: int, i: int|
        0 <= m < menu_list(macos).len() && 0 <= i < menu_list(macos)[m].items.len()
            && menu_list(macos)[m].name == menu && #[trigger] menu_list(macos)[m].items[i]
            == action(title, act)
}

/// What the items of the File menu do.
pub proof fn lemma_file_menu(macos: bool)
    ensures
        offers(macos, "File"@, "New Tab"@, Action::NewTab),
        offers(macos, "File"@, "New Workspace"@, Action::NewWorkspace),
        offers(macos, "File"@, "New Window"@, Action::NewWindow),
        offers(macos, "File"@, "Rename Tab…"@, Action::RenameTab),
        offers(macos, "File"@, "Reopen Closed Tab"@, Action::ReopenClosedTab),
        offers(macos, "File"@, "Set Startup Command…"@, Action::SetStartupCommand),
        offers(macos, "File"@, "Split Right"@, Action::SplitRight),
        offers(macos, "File"@, "Split Down"@, Action::SplitDown),
        offers(macos, "File"@, "Split Left"@, Action::SplitLeft),
        offers(macos, "File"@, "Split Up"@, Action::SplitUp),
        offers(macos, "File"@, "Close Pane"@, Action::ClosePane),
        offers(macos, "File"@, "Close Other Panes"@, Action::PaneOnly),
        offers(macos, "File"@, "Close Window"@, Action::CloseWindow),
{
    let items = menu_list(macos)[1].items;
    assert(items[0] == action("New Tab"@, Action::NewTab));
    assert(items[1] == action("New Workspace"@, Action::NewWorkspace));
    assert(items[2] == action("New Window"@, Action::NewWindow));
    assert(items[4] == action("Rename Tab…"@, Action::RenameTab));
    assert(items[5] == action("Reopen Closed Tab"@, Action::ReopenClosedTab));
    assert(items[6] == action("Set Startup Command…"@, Action::SetStartupCommand));
    assert(items[8] == action("Split Right"@, Action::SplitRight));
    assert(items[9] == action("Split Down"@, Action::SplitDown));
    assert(items[10] == action("Split Left"@, Action::SplitLeft));
    assert(items[11] == action("Split Up"@, Action::SplitUp));
    assert(items[13] == action("Close Pane"@, Action::ClosePane));
    assert(items[14] == action("Close Other Panes"@, Action::PaneOnly));
    assert(items[15] == action("Close Window"@, Action::CloseWindow));
}

/// What the items of the Edit menu do.
pub proof fn lemma_edit_menu(macos: bool)
    ensures
        offers(macos, "Edit"@, "Copy"@, Action::Copy),
        offers(macos, "Edit"@, "Paste"@, Action::Paste),
        offers(macos, "Edit"@, "Select All"@, Action::SelectAll),
        offers(macos, "Edit"@, "Copy Last Command's Output"@, Action::CopyLastOutput),
        offers(macos, "Edit"@, "Copy Last Command"@, Action::CopyLastCommand),
        offers(macos, "Edit"@, "Copy Last Command and Output"@, Action::CopyLastBlock),
        offers(macos, "Edit"@, "Find"@, Action::Search),
        offers(macos, "Edit"@, "Copy Mode"@, Action::CopyMode),
        offers(macos, "Edit"@, "Command History…"@, Action::CommandHistory),
{
    let items = menu_list(macos)[2].items;
    assert(items[0] == action("Copy"@, Action::Copy));
    assert(items[1] == action("Paste"@, Action::Paste));
    assert(items[3] == action("Select All"@, Action::SelectAll));
    assert(items[5] == action("Copy Last Command's Output"@, Action::CopyLastOutput));
    assert(items[6] == action("Copy Last Command"@, Action::CopyLastCommand));
    assert(items[7] == action("Copy Last Command and Output"@, Action::CopyLastBlock));
    assert(items[9] == action("Find"@, Action::Search));
    assert(items[10] == action("Copy Mode"@, Action::CopyMode));
    assert(items[11] == action("Command History…"@, Action::CommandHistory));
}

/// What the items of the View menu do.
pub proof fn lemma_view_menu(macos: bool)
    ensures
        offers(macos, "View"@, "Command Palette…"@, Action::CommandPalette),
        offers(macos, "View"@, "Toggle File Tree"@, Action::ToggleDrawer),
        offers(macos, "View"@, "Focus File Tree"@, Action::FocusTree),
        offers(macos, "View"@, "Toggle Status Bar"@, Action::ToggleStatusBar),
        offers(macos, "View"@, "Toggle Tab Bar"@, Action::ToggleTabBar),
        offers(macos, "View"@, "Increase Font Size"@, Action::FontIncrease),
        offers(macos, "View"@, "Decrease Font Size"@, Action::FontDecrease),
        offers(macos, "View"@, "Reset Font Size"@, Action::FontReset),
        offers(macos, "View"@, "Clear Scrollback"@, Action::ClearScrollback),
        offers(macos, "View"@, "Enter Full Screen"@, Action::ToggleFullscreen),
{
    let items = menu_list(macos)[3].items;
    assert(items[0] == action("Command Palette…"@, Action::CommandPalette));
    assert(items[2] == action("Toggle File Tree"@, Action::ToggleDrawer));
    assert(items[3] == action("Focus File Tree"@, Action::FocusTree));
    assert(items[4] == action("Toggle Status Bar"@, Action::ToggleStatusBar));
    assert(items[5] == action("Toggle Tab Bar"@, Action::ToggleTabBar));
    assert(items[7] == action("Increase Font Size"@, Action::FontIncrease));
    assert(items[8] == action("Decrease Font Size"@, Action::FontDecrease));
    assert(items[9] == action("Reset Font Size"@, Action::FontReset));
    assert(items[11] == action("Clear Scrollback"@, Action::ClearScrollback));
    assert(items[13] == action("Enter Full Screen"@, Action::ToggleFullscreen));
}

/// What the items of the Window menu do.
pub proof fn lemma_window_menu(macos: bool)
    ensures
        offers(macos, "Window"@, "Minimize"@, Action::Minimize),
        offers(macos, "Window"@, "Zoom"@, Action::Zoom),
        offers(macos, "Window"@, "Equalize Splits"@, Action::PaneEqualize),
        offers(macos, "Window"@, "Zoom Pane"@, Action::PaneZoom),
        offers(macos, "Window"@, "Swap Pane with Neighbour"@, Action::PaneSwap),
        offers(macos, "Window"@, "Broadcast Input to All Panes"@, Action::PaneBroadcast),
        offers(macos, "Window"@, "Show Next Tab"@, Action::SelectNextTab),
        offers(macos, "Window"@, "Show Previous Tab"@, Action::SelectPreviousTab),
        offers(macos, "Window"@, "Move Tab Left"@, Action::MoveTabLeft),
        offers(macos, "Window"@, "Move Tab Right"@, Action::MoveTabRight),
{
    let items = menu_list(macos)[4].items;
    assert(items[0] == action("Minimize"@, Action::Minimize));
    assert(items[1] == action("Zoom"@, Action::Zoom));
    assert(items[3] == action("Equalize Splits"@, Action::PaneEqualize));
    assert(items[4] == action("Zoom Pane"@, Action::PaneZoom));
    assert(items[5] == action("Swap Pane with Neighbour"@, Action::PaneSwap));
    assert(items[6] == action("Broadcast Input to All Panes"@, Action::PaneBroadcast));
    assert(items[8] == action("Show Next Tab"@, Action::SelectNextTab));
    assert(items[9] == action("Show Previous Tab"@, Action::SelectPreviousTab));
    assert(items[10] == action("Move Tab Left"@, Action::MoveTabLeft));
    assert(items[11] == action("Move Tab Right"@, Action::MoveTabRight));
}

/// What the items of the Help menu do.
pub proof fn lemma_help_menu(macos: bool)
    ensures
        offers(macos, "Help"@, "Oxide Help"@, Action::OpenHelp),
        offers(macos, "Help"@, "What's New"@, Action::ShowChangelog),
        offers(macos, "Help"@, "Report an Issue"@, Action::ReportIssue),
{
    let items = menu_list(macos)[5].items;
    assert(items[0] == action("Oxide Help"@, Action::OpenHelp));
    assert(items[1] == action("What's New"@, Action::ShowChangelog));
    assert(items[2] == action("Report an Issue"@, Action::ReportIssue));
}

} // verus!
