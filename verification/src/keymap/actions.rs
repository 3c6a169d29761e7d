//! Every action Oxide can perform, with its registry row.
//!
//! The `id` is what users type on the right-hand side of a `[keymap]` entry:
//! it is a public name, so never rename one.
use vstd::prelude::*;

use crate::keymap::registry::{
    meta, none, one, row, rows, three, two, ActionContext, ActionMeta, Row,
};

verus! {

/// Everything that can be asked of the application.
#[derive(Debug, Clone, Copy, PartialEq, Eq, Structural)]
pub enum Action {
    Quit,
    About,
    OpenSettings,
    SelectTheme,
    CommandPalette,
    Hide,
    HideOthers,
    OpenHelp,
    ReportIssue,
    CheckForUpdates,
    InstallUpdate,
    ToggleStatusBar,
    ToggleTabBar,
    ShowChangelog,
    NewWindow,
    CloseWindow,
    Minimize,
    Zoom,
    ToggleFullscreen,
    NewTab,
    SelectNextTab,
    SelectPreviousTab,
    SelectTab1,
    SelectTab2,
    SelectTab3,
    SelectTab4,
    SelectTab5,
    SelectTab6,
    SelectTab7,
    SelectTab8,
    SelectTab9,
    RenameTab,
    ReopenClosedTab,
    MoveTabLeft,
    MoveTabRight,
    SplitRight,
    SplitLeft,
    SplitUp,
    SplitDown,
    FocusPaneLeft,
    FocusPaneRight,
    FocusPaneUp,
    FocusPaneDown,
    ClosePane,
    PaneWider,
    PaneNarrower,
    PaneTaller,
    PaneShorter,
    PaneEqualize,
    PaneOnly,
    PaneZoom,
    PaneSwap,
    PaneBroadcast,
    SetStartupCommand,
    Copy,
    Paste,
    SelectAll,
    ClearScrollback,
    Search,
    PromptUp,
    PromptDown,
    FontIncrease,
    FontDecrease,
    FontReset,
    CommandHistory,
    CopyLastOutput,
    CopyLastCommand,
    CopyLastBlock,
    CopyMode,
    SearchToggleRegex,
    SearchToggleCase,
    SearchToggleWord,
    ToggleDrawer,
    FocusTree,
    FocusTerminal,
    FocusToggle,
    FocusWorkspaces,
    NewWorkspace,
    WsDown,
    WsUp,
    WsOpen,
    WsAdd,
    WsDelete,
    WsRename,
    WsTogglePersist,
    WsEscape,
    TreeDown,
    TreeUp,
    TreeTop,
    TreeBottom,
    TreeHalfPageDown,
    TreeHalfPageUp,
    TreeExpand,
    TreeCollapse,
    TreeOpen,
    TreeParent,
    TreeSetRoot,
    TreeRootUp,
    TreeToggleHidden,
    TreeRefresh,
    TreeFilter,
    TreeAdd,
    TreeRename,
    TreeDelete,
    TreeEscape,
    PickerNext,
    PickerPrev,
    PickerConfirm,
    PickerConfirmAlt,
    PickerCancel,
}

/// The rows of the application actions.
pub open spec fn application_rows() -> Seq<Row> {
    seq![
        row(Action::Quit, "app::quit"@, "Quit Oxide"@, "Application"@, seq!["exit"@], ActionContext::Root),
        row(Action::About, "app::about"@, "About Oxide"@, "Application"@, Seq::empty(), ActionContext::Root),
        row(Action::OpenSettings, "app::settings"@, "Open Settings"@, "Application"@, seq!["config"@, "preferences"@], ActionContext::Root),
        row(Action::SelectTheme, "app::select_theme"@, "Select Theme"@, "Application"@, seq!["colors"@, "preset"@], ActionContext::Root),
        row(Action::CommandPalette, "app::palette"@, "Command Palette"@, "Application"@, seq!["commands"@], ActionContext::Root),
        row(Action::Hide, "app::hide"@, "Hide Oxide"@, "Application"@, Seq::empty(), ActionContext::Root),
        row(Action::HideOthers, "app::hide_others"@, "Hide Others"@, "Application"@, Seq::empty(), ActionContext::Root),
        row(Action::OpenHelp, "app::help"@, "Open Help"@, "Application"@, seq!["docs"@], ActionContext::Root),
        row(Action::ReportIssue, "app::report_issue"@, "Report an Issue"@, "Application"@, seq!["bug"@, "github"@], ActionContext::Root),
        row(Action::CheckForUpdates, "app::check_for_updates"@, "Check for Updates"@, "Application"@, seq!["upgrade"@], ActionContext::Root),
        row(Action::InstallUpdate, "app::install_update"@, "Install Downloaded Update"@, "Application"@, Seq::empty(), ActionContext::Root),
        row(Action::ToggleStatusBar, "app::toggle_status_bar"@, "Toggle Status Bar"@, "Application"@, Seq::empty(), ActionContext::Root),
        row(Action::ToggleTabBar, "app::toggle_tab_bar"@, "Toggle Tab Bar"@, "Application"@, Seq::empty(), ActionContext::Root),
        row(Action::ShowChangelog, "app::changelog"@, "What's New"@, "Application"@, seq!["release notes"@], ActionContext::Root),
    ]
}

fn application_metas() -> (v: Vec<ActionMeta>)
    ensures
        rows(v@) == application_rows(),
{
    let mut v: Vec<ActionMeta> = Vec::new();
    v.push(meta(Action::Quit, "app::quit", "Quit Oxide", "Application", one("exit"), ActionContext::Root));
    v.push(meta(Action::About, "app::about", "About Oxide", "Application", none(), ActionContext::Root));
    v.push(meta(Action::OpenSettings, "app::settings", "Open Settings", "Application", two("config", "preferences"), ActionContext::Root));
    v.push(meta(Action::SelectTheme, "app::select_theme", "Select Theme", "Application", two("colors", "preset"), ActionContext::Root));
    v.push(meta(Action::CommandPalette, "app::palette", "Command Palette", "Application", one("commands"), ActionContext::Root));
    v.push(meta(Action::Hide, "app::hide", "Hide Oxide", "Application", none(), ActionContext::Root));
    v.push(meta(Action::HideOthers, "app::hide_others", "Hide Others", "Application", none(), ActionContext::Root));
    v.push(meta(Action::OpenHelp, "app::help", "Open Help", "Application", one("docs"), ActionContext::Root));
    v.push(meta(Action::ReportIssue, "app::report_issue", "Report an Issue", "Application", two("bug", "github"), ActionContext::Root));
    v.push(meta(Action::CheckForUpdates, "app::check_for_updates", "Check for Updates", "Application", one("upgrade"), ActionContext::Root));
    v.push(meta(Action::InstallUpdate, "app::install_update", "Install Downloaded Update", "Application", none(), ActionContext::Root));
    v.push(meta(Action::ToggleStatusBar, "app::toggle_status_bar", "Toggle Status Bar", "Application", none(), ActionContext::Root));
    v.push(meta(Action::ToggleTabBar, "app::toggle_tab_bar", "Toggle Tab Bar", "Application", none(), ActionContext::Root));
    v.push(meta(Action::ShowChangelog, "app::changelog", "What's New", "Application", one("release notes"), ActionContext::Root));
    assert(rows(v@) =~= application_rows());
    v
}

/// The rows of the window actions.
pub open spec fn window_rows() -> Seq<Row> {
    seq![
        row(Action::NewWindow, "window::new"@, "New Window"@, "Window"@, Seq::empty(), ActionContext::Root),
        row(Action::CloseWindow, "window::close"@, "Close Pane or Window"@, "Window"@, seq!["cmd-w"@], ActionContext::Root),
        row(Action::Minimize, "window::minimize"@, "Minimize"@, "Window"@, Seq::empty(), ActionContext::Root),
        row(Action::Zoom, "window::zoom"@, "Zoom Window"@, "Window"@, seq!["maximize"@], ActionContext::Root),
        row(Action::ToggleFullscreen, "window::toggle_fullscreen"@, "Toggle Full Screen"@, "Window"@, Seq::empty(), ActionContext::Root),
    ]
}

fn window_metas() -> (v: Vec<ActionMeta>)
    ensures
        rows(v@) == window_rows(),
{
    let mut v: Vec<ActionMeta> = Vec::new();
    v.push(meta(Action::NewWindow, "window::new", "New Window", "Window", none(), ActionContext::Root));
    v.push(meta(Action::CloseWindow, "window::close", "Close Pane or Window", "Window", one("cmd-w"), ActionContext::Root));
    v.push(meta(Action::Minimize, "window::minimize", "Minimize", "Window", none(), ActionContext::Root));
    v.push(meta(Action::Zoom, "window::zoom", "Zoom Window", "Window", one("maximize"), ActionContext::Root));
    v.push(meta(Action::ToggleFullscreen, "window::toggle_fullscreen", "Toggle Full Screen", "Window", none(), ActionContext::Root));
    assert(rows(v@) =~= window_rows());
    v
}

/// The rows of the tabs actions.
pub open spec fn tabs_rows() -> Seq<Row> {
    seq![
        row(Action::NewTab, "tab::new"@, "New Tab"@, "Tab"@, Seq::empty(), ActionContext::Root),
        row(Action::SelectNextTab, "tab::next"@, "Next Tab"@, "Tab"@, Seq::empty(), ActionContext::Root),
        row(Action::SelectPreviousTab, "tab::previous"@, "Previous Tab"@, "Tab"@, seq!["prev"@], ActionContext::Root),
        row(Action::SelectTab1, "tab::select_1"@, "Go to Tab 1"@, "Tab"@, Seq::empty(), ActionContext::Root),
        row(Action::SelectTab2, "tab::select_2"@, "Go to Tab 2"@, "Tab"@, Seq::empty(), ActionContext::Root),
        row(Action::SelectTab3, "tab::select_3"@, "Go to Tab 3"@, "Tab"@, Seq::empty(), ActionContext::Root),
        row(Action::SelectTab4, "tab::select_4"@, "Go to Tab 4"@, "Tab"@, Seq::empty(), ActionContext::Root),
        row(Action::SelectTab5, "tab::select_5"@, "Go to Tab 5"@, "Tab"@, Seq::empty(), ActionContext::Root),
        row(Action::SelectTab6, "tab::select_6"@, "Go to Tab 6"@, "Tab"@, Seq::empty(), ActionContext::Root),
        row(Action::SelectTab7, "tab::select_7"@, "Go to Tab 7"@, "Tab"@, Seq::empty(), ActionContext::Root),
        row(Action::SelectTab8, "tab::select_8"@, "Go to Tab 8"@, "Tab"@, Seq::empty(), ActionContext::Root),
        row(Action::SelectTab9, "tab::select_9"@, "Go to Tab 9"@, "Tab"@, Seq::empty(), ActionContext::Root),
        row(Action::RenameTab, "tab::rename"@, "Rename Tab"@, "Tab"@, Seq::empty(), ActionContext::Root),
        row(Action::ReopenClosedTab, "tab::reopen_closed"@, "Reopen Closed Tab"@, "Tab"@, seq!["undo close"@], ActionContext::Root),
        row(Action::MoveTabLeft, "tab::move_left"@, "Move Tab Left"@, "Tab"@, Seq::empty(), ActionContext::Root),
        row(Action::MoveTabRight, "tab::move_right"@, "Move Tab Right"@, "Tab"@, Seq::empty(), ActionContext::Root),
    ]
}

fn tabs_metas() -> (v: Vec<ActionMeta>)
    ensures
        rows(v@) == tabs_rows(),
{
    let mut v: Vec<ActionMeta> = Vec::new();
    v.push(meta(Action::NewTab, "tab::new", "New Tab", "Tab", none(), ActionContext::Root));
    v.push(meta(Action::SelectNextTab, "tab::next", "Next Tab", "Tab", none(), ActionContext::Root));
    v.push(meta(Action::SelectPreviousTab, "tab::previous", "Previous Tab", "Tab", one("prev"), ActionContext::Root));
    v.push(meta(Action::SelectTab1, "tab::select_1", "Go to Tab 1", "Tab", none(), ActionContext::Root));
    v.push(meta(Action::SelectTab2, "tab::select_2", "Go to Tab 2", "Tab", none(), ActionContext::Root));
    v.push(meta(Action::SelectTab3, "tab::select_3", "Go to Tab 3", "Tab", none(), ActionContext::Root));
    v.push(meta(Action::SelectTab4, "tab::select_4", "Go to Tab 4", "Tab", none(), ActionContext::Root));
    v.push(meta(Action::SelectTab5, "tab::select_5", "Go to Tab 5", "Tab", none(), ActionContext::Root));
    v.push(meta(Action::SelectTab6, "tab::select_6", "Go to Tab 6", "Tab", none(), ActionContext::Root));
    v.push(meta(Action::SelectTab7, "tab::select_7", "Go to Tab 7", "Tab", none(), ActionContext::Root));
    v.push(meta(Action::SelectTab8, "tab::select_8", "Go to Tab 8", "Tab", none(), ActionContext::Root));
    v.push(meta(Action::SelectTab9, "tab::select_9", "Go to Tab 9", "Tab", none(), ActionContext::Root));
    v.push(meta(Action::RenameTab, "tab::rename", "Rename Tab", "Tab", none(), ActionContext::Root));
    v.push(meta(Action::ReopenClosedTab, "tab::reopen_closed", "Reopen Closed Tab", "Tab", one("undo close"), ActionContext::Root));
    v.push(meta(Action::MoveTabLeft, "tab::move_left", "Move Tab Left", "Tab", none(), ActionContext::Root));
    v.push(meta(Action::MoveTabRight, "tab::move_right", "Move Tab Right", "Tab", none(), ActionContext::Root));
    assert(rows(v@) =~= tabs_rows());
    v
}

/// The rows of the panes actions.
pub open spec fn panes_rows() -> Seq<Row> {
    seq![
        row(Action::SplitRight, "pane::split_right"@, "Split Right"@, "Pane"@, seq!["vsplit"@, "vertical"@], ActionContext::Root),
        row(Action::SplitLeft, "pane::split_left"@, "Split Left"@, "Pane"@, seq!["vsplit"@], ActionContext::Root),
        row(Action::SplitUp, "pane::split_up"@, "Split Up"@, "Pane"@, seq!["hsplit"@], ActionContext::Root),
        row(Action::SplitDown, "pane::split_down"@, "Split Down"@, "Pane"@, seq!["hsplit"@, "horizontal"@], ActionContext::Root),
        row(Action::FocusPaneLeft, "pane::focus_left"@, "Focus Pane Left"@, "Pane"@, Seq::empty(), ActionContext::Root),
        row(Action::FocusPaneRight, "pane::focus_right"@, "Focus Pane Right"@, "Pane"@, Seq::empty(), ActionContext::Root),
        row(Action::FocusPaneUp, "pane::focus_up"@, "Focus Pane Up"@, "Pane"@, Seq::empty(), ActionContext::Root),
        row(Action::FocusPaneDown, "pane::focus_down"@, "Focus Pane Down"@, "Pane"@, Seq::empty(), ActionContext::Root),
        row(Action::ClosePane, "pane::close"@, "Close Pane"@, "Pane"@, seq!["kill"@], ActionContext::Root),
        row(Action::PaneWider, "pane::wider"@, "Grow Pane Horizontally"@, "Pane"@, seq!["resize"@, "width"@], ActionContext::Root),
        row(Action::PaneNarrower, "pane::narrower"@, "Shrink Pane Horizontally"@, "Pane"@, seq!["resize"@, "width"@], ActionContext::Root),
        row(Action::PaneTaller, "pane::taller"@, "Grow Pane Vertically"@, "Pane"@, seq!["resize"@, "height"@], ActionContext::Root),
        row(Action::PaneShorter, "pane::shorter"@, "Shrink Pane Vertically"@, "Pane"@, seq!["resize"@, "height"@], ActionContext::Root),
        row(Action::PaneEqualize, "pane::equalize"@, "Equalize Splits"@, "Pane"@, seq!["resize"@, "even"@, "balance"@], ActionContext::Root),
        row(Action::PaneOnly, "pane::only"@, "Close Other Panes"@, "Pane"@, Seq::empty(), ActionContext::Root),
        row(Action::PaneZoom, "pane::zoom"@, "Zoom Pane"@, "Pane"@, seq!["maximize"@], ActionContext::Root),
        row(Action::PaneSwap, "pane::swap"@, "Swap Pane with Neighbour"@, "Pane"@, Seq::empty(), ActionContext::Root),
        row(Action::PaneBroadcast, "pane::broadcast"@, "Broadcast Input to All Panes"@, "Pane"@, Seq::empty(), ActionContext::Root),
        row(Action::SetStartupCommand, "pane::set_startup_command"@, "Set Startup Command"@, "Pane"@, Seq::empty(), ActionContext::Root),
    ]
}

fn panes_metas() -> (v: Vec<ActionMeta>)
    ensures
        rows(v@) == panes_rows(),
{
    let mut v: Vec<ActionMeta> = Vec::new();
    v.push(meta(Action::SplitRight, "pane::split_right", "Split Right", "Pane", two("vsplit", "vertical"), ActionContext::Root));
    v.push(meta(Action::SplitLeft, "pane::split_left", "Split Left", "Pane", one("vsplit"), ActionContext::Root));
    v.push(meta(Action::SplitUp, "pane::split_up", "Split Up", "Pane", one("hsplit"), ActionContext::Root));
    v.push(meta(Action::SplitDown, "pane::split_down", "Split Down", "Pane", two("hsplit", "horizontal"), ActionContext::Root));
    v.push(meta(Action::FocusPaneLeft, "pane::focus_left", "Focus Pane Left", "Pane", none(), ActionContext::Root));
    v.push(meta(Action::FocusPaneRight, "pane::focus_right", "Focus Pane Right", "Pane", none(), ActionContext::Root));
    v.push(meta(Action::FocusPaneUp, "pane::focus_up", "Focus Pane Up", "Pane", none(), ActionContext::Root));
    v.push(meta(Action::FocusPaneDown, "pane::focus_down", "Focus Pane Down", "Pane", none(), ActionContext::Root));
    v.push(meta(Action::ClosePane, "pane::close", "Close Pane", "Pane", one("kill"), ActionContext::Root));
    v.push(meta(Action::PaneWider, "pane::wider", "Grow Pane Horizontally", "Pane", two("resize", "width"), ActionContext::Root));
    v.push(meta(Action::PaneNarrower, "pane::narrower", "Shrink Pane Horizontally", "Pane", two("resize", "width"), ActionContext::Root));
    v.push(meta(Action::PaneTaller, "pane::taller", "Grow Pane Vertically", "Pane", two("resize", "height"), ActionContext::Root));
    v.push(meta(Action::PaneShorter, "pane::shorter", "Shrink Pane Vertically", "Pane", two("resize", "height"), ActionContext::Root));
    v.push(meta(Action::PaneEqualize, "pane::equalize", "Equalize Splits", "Pane", three("resize", "even", "balance"), ActionContext::Root));
    v.push(meta(Action::PaneOnly, "pane::only", "Close Other Panes", "Pane", none(), ActionContext::Root));
    v.push(meta(Action::PaneZoom, "pane::zoom", "Zoom Pane", "Pane", one("maximize"), ActionContext::Root));
    v.push(meta(Action::PaneSwap, "pane::swap", "Swap Pane with Neighbour", "Pane", none(), ActionContext::Root));
    v.push(meta(Action::PaneBroadcast, "pane::broadcast", "Broadcast Input to All Panes", "Pane", none(), ActionContext::Root));
    v.push(meta(Action::SetStartupCommand, "pane::set_startup_command", "Set Startup Command", "Pane", none(), ActionContext::Root));
    assert(rows(v@) =~= panes_rows());
    v
}

/// The rows of the terminal actions.
pub open spec fn terminal_rows() -> Seq<Row> {
    seq![
        row(Action::Copy, "terminal::copy"@, "Copy"@, "Terminal"@, Seq::empty(), ActionContext::Root),
        row(Action::Paste, "terminal::paste"@, "Paste"@, "Terminal"@, Seq::empty(), ActionContext::Root),
        row(Action::SelectAll, "terminal::select_all"@, "Select All"@, "Terminal"@, Seq::empty(), ActionContext::Root),
        row(Action::ClearScrollback, "terminal::clear_scrollback"@, "Clear Scrollback"@, "Terminal"@, seq!["clear"@, "history"@], ActionContext::Root),
        row(Action::Search, "terminal::search"@, "Search Scrollback"@, "Terminal"@, seq!["find"@], ActionContext::Root),
        row(Action::PromptUp, "terminal::prompt_up"@, "Jump to Previous Prompt"@, "Terminal"@, Seq::empty(), ActionContext::Root),
        row(Action::PromptDown, "terminal::prompt_down"@, "Jump to Next Prompt"@, "Terminal"@, Seq::empty(), ActionContext::Root),
        row(Action::FontIncrease, "terminal::font_increase"@, "Increase Font Size"@, "Terminal"@, seq!["zoom in"@, "bigger"@], ActionContext::Root),
        row(Action::FontDecrease, "terminal::font_decrease"@, "Decrease Font Size"@, "Terminal"@, seq!["zoom out"@, "smaller"@], ActionContext::Root),
        row(Action::FontReset, "terminal::font_reset"@, "Reset Font Size"@, "Terminal"@, Seq::empty(), ActionContext::Root),
        row(Action::CommandHistory, "terminal::history"@, "Command History"@, "Terminal"@, seq!["recent"@, "search commands"@], ActionContext::Root),
        row(Action::CopyLastOutput, "terminal::copy_last_output"@, "Copy Last Command's Output"@, "Terminal"@, seq!["clipboard"@], ActionContext::Root),
        row(Action::CopyLastCommand, "terminal::copy_last_command"@, "Copy Last Command"@, "Terminal"@, seq!["clipboard"@], ActionContext::Root),
        row(Action::CopyLastBlock, "terminal::copy_last_block"@, "Copy Last Command and Output"@, "Terminal"@, seq!["clipboard"@, "issue"@], ActionContext::Root),
        row(Action::CopyMode, "terminal::copy_mode"@, "Copy Mode"@, "Terminal"@, seq!["vi"@], ActionContext::Root),
        row(Action::SearchToggleRegex, "terminal::search_toggle_regex"@, "Search: Toggle Regex"@, "Terminal"@, Seq::empty(), ActionContext::Root),
        row(Action::SearchToggleCase, "terminal::search_toggle_case"@, "Search: Toggle Case"@, "Terminal"@, Seq::empty(), ActionContext::Root),
        row(Action::SearchToggleWord, "terminal::search_toggle_word"@, "Search: Toggle Whole Word"@, "Terminal"@, Seq::empty(), ActionContext::Root),
    ]
}

fn terminal_metas() -> (v: Vec<ActionMeta>)
    ensures
        rows(v@) == terminal_rows(),
{
    let mut v: Vec<ActionMeta> = Vec::new();
    v.push(meta(Action::Copy, "terminal::copy", "Copy", "Terminal", none(), ActionContext::Root));
    v.push(meta(Action::Paste, "terminal::paste", "Paste", "Terminal", none(), ActionContext::Root));
    v.push(meta(Action::SelectAll, "terminal::select_all", "Select All", "Terminal", none(), ActionContext::Root));
    v.push(meta(Action::ClearScrollback, "terminal::clear_scrollback", "Clear Scrollback", "Terminal", two("clear", "history"), ActionContext::Root));
    v.push(meta(Action::Search, "terminal::search", "Search Scrollback", "Terminal", one("find"), ActionContext::Root));
    v.push(meta(Action::PromptUp, "terminal::prompt_up", "Jump to Previous Prompt", "Terminal", none(), ActionContext::Root));
    v.push(meta(Action::PromptDown, "terminal::prompt_down", "Jump to Next Prompt", "Terminal", none(), ActionContext::Root));
    v.push(meta(Action::FontIncrease, "terminal::font_increase", "Increase Font Size", "Terminal", two("zoom in", "bigger"), ActionContext::Root));
    v.push(meta(Action::FontDecrease, "terminal::font_decrease", "Decrease Font Size", "Terminal", two("zoom out", "smaller"), ActionContext::Root));
    v.push(meta(Action::FontReset, "terminal::font_reset", "Reset Font Size", "Terminal", none(), ActionContext::Root));
    v.push(meta(Action::CommandHistory, "terminal::history", "Command History", "Terminal", two("recent", "search commands"), ActionContext::Root));
    v.push(meta(Action::CopyLastOutput, "terminal::copy_last_output", "Copy Last Command's Output", "Terminal", one("clipboard"), ActionContext::Root));
    v.push(meta(Action::CopyLastCommand, "terminal::copy_last_command", "Copy Last Command", "Terminal", one("clipboard"), ActionContext::Root));
    v.push(meta(Action::CopyLastBlock, "terminal::copy_last_block", "Copy Last Command and Output", "Terminal", two("clipboard", "issue"), ActionContext::Root));
    v.push(meta(Action::CopyMode, "terminal::copy_mode", "Copy Mode", "Terminal", one("vi"), ActionContext::Root));
    v.push(meta(Action::SearchToggleRegex, "terminal::search_toggle_regex", "Search: Toggle Regex", "Terminal", none(), ActionContext::Root));
    v.push(meta(Action::SearchToggleCase, "terminal::search_toggle_case", "Search: Toggle Case", "Terminal", none(), ActionContext::Root));
    v.push(meta(Action::SearchToggleWord, "terminal::search_toggle_word", "Search: Toggle Whole Word", "Terminal", none(), ActionContext::Root));
    assert(rows(v@) =~= terminal_rows());
    v
}

/// The rows of the drawer actions.
pub open spec fn drawer_rows() -> Seq<Row> {
    seq![
        row(Action::ToggleDrawer, "drawer::toggle"@, "Toggle Drawer"@, "Drawer"@, seq!["sidebar"@, "file tree"@], ActionContext::Root),
        row(Action::FocusTree, "drawer::focus_tree"@, "Focus File Tree"@, "Drawer"@, seq!["sidebar"@], ActionContext::Root),
        row(Action::FocusTerminal, "drawer::focus_terminal"@, "Focus Terminal"@, "Drawer"@, Seq::empty(), ActionContext::Root),
        row(Action::FocusToggle, "drawer::focus_toggle"@, "Toggle Focus: Drawer / Terminal"@, "Drawer"@, Seq::empty(), ActionContext::Root),
        row(Action::FocusWorkspaces, "drawer::focus_workspaces"@, "Focus Workspaces Panel"@, "Drawer"@, Seq::empty(), ActionContext::Root),
    ]
}

fn drawer_metas() -> (v: Vec<ActionMeta>)
    ensures
        rows(v@) == drawer_rows(),
{
    let mut v: Vec<ActionMeta> = Vec::new();
    v.push(meta(Action::ToggleDrawer, "drawer::toggle", "Toggle Drawer", "Drawer", two("sidebar", "file tree"), ActionContext::Root));
    v.push(meta(Action::FocusTree, "drawer::focus_tree", "Focus File Tree", "Drawer", one("sidebar"), ActionContext::Root));
    v.push(meta(Action::FocusTerminal, "drawer::focus_terminal", "Focus Terminal", "Drawer", none(), ActionContext::Root));
    v.push(meta(Action::FocusToggle, "drawer::focus_toggle", "Toggle Focus: Drawer / Terminal", "Drawer", none(), ActionContext::Root));
    v.push(meta(Action::FocusWorkspaces, "drawer::focus_workspaces", "Focus Workspaces Panel", "Drawer", none(), ActionContext::Root));
    assert(rows(v@) =~= drawer_rows());
    v
}

/// The rows of the workspaces actions.
pub open spec fn workspaces_rows() -> Seq<Row> {
    seq![
        row(Action::NewWorkspace, "workspace::new"@, "New Workspace"@, "Workspace"@, Seq::empty(), ActionContext::Root),
        row(Action::WsDown, "workspace::down"@, "Workspaces: Move Down"@, "Workspace"@, Seq::empty(), ActionContext::Workspaces),
        row(Action::WsUp, "workspace::up"@, "Workspaces: Move Up"@, "Workspace"@, Seq::empty(), ActionContext::Workspaces),
        row(Action::WsOpen, "workspace::open"@, "Workspaces: Switch to Selected"@, "Workspace"@, Seq::empty(), ActionContext::Workspaces),
        row(Action::WsAdd, "workspace::add"@, "Workspaces: Add Named"@, "Workspace"@, seq!["create"@], ActionContext::Workspaces),
        row(Action::WsDelete, "workspace::delete"@, "Workspaces: Delete Selected"@, "Workspace"@, seq!["remove"@], ActionContext::Workspaces),
        row(Action::WsRename, "workspace::rename"@, "Workspaces: Rename Selected"@, "Workspace"@, Seq::empty(), ActionContext::Workspaces),
        row(Action::WsTogglePersist, "workspace::toggle_persist"@, "Workspaces: Pin / Unpin"@, "Workspace"@, seq!["persist"@, "save"@], ActionContext::Workspaces),
        row(Action::WsEscape, "workspace::escape"@, "Workspaces: Dismiss"@, "Workspace"@, Seq::empty(), ActionContext::Workspaces),
    ]
}

fn workspaces_metas() -> (v: Vec<ActionMeta>)
    ensures
        rows(v@) == workspaces_rows(),
{
    let mut v: Vec<ActionMeta> = Vec::new();
    v.push(meta(Action::NewWorkspace, "workspace::new", "New Workspace", "Workspace", none(), ActionContext::Root));
    v.push(meta(Action::WsDown, "workspace::down", "Workspaces: Move Down", "Workspace", none(), ActionContext::Workspaces));
    v.push(meta(Action::WsUp, "workspace::up", "Workspaces: Move Up", "Workspace", none(), ActionContext::Workspaces));
    v.push(meta(Action::WsOpen, "workspace::open", "Workspaces: Switch to Selected", "Workspace", none(), ActionContext::Workspaces));
    v.push(meta(Action::WsAdd, "workspace::add", "Workspaces: Add Named", "Workspace", one("create"), ActionContext::Workspaces));
    v.push(meta(Action::WsDelete, "workspace::delete", "Workspaces: Delete Selected", "Workspace", one("remove"), ActionContext::Workspaces));
    v.push(meta(Action::WsRename, "workspace::rename", "Workspaces: Rename Selected", "Workspace", none(), ActionContext::Workspaces));
    v.push(meta(Action::WsTogglePersist, "workspace::toggle_persist", "Workspaces: Pin / Unpin", "Workspace", two("persist", "save"), ActionContext::Workspaces));
    v.push(meta(Action::WsEscape, "workspace::escape", "Workspaces: Dismiss", "Workspace", none(), ActionContext::Workspaces));
    assert(rows(v@) =~= workspaces_rows());
    v
}

/// The rows of the file tree actions.
pub open spec fn file_tree_rows() -> Seq<Row> {
    seq![
        row(Action::TreeDown, "tree::down"@, "Tree: Move Down"@, "File Tree"@, Seq::empty(), ActionContext::FileTree),
        row(Action::TreeUp, "tree::up"@, "Tree: Move Up"@, "File Tree"@, Seq::empty(), ActionContext::FileTree),
        row(Action::TreeTop, "tree::top"@, "Tree: Go to Top"@, "File Tree"@, seq!["first"@], ActionContext::FileTree),
        row(Action::TreeBottom, "tree::bottom"@, "Tree: Go to Bottom"@, "File Tree"@, seq!["last"@], ActionContext::FileTree),
        row(Action::TreeHalfPageDown, "tree::half_page_down"@, "Tree: Half Page Down"@, "File Tree"@, Seq::empty(), ActionContext::FileTree),
        row(Action::TreeHalfPageUp, "tree::half_page_up"@, "Tree: Half Page Up"@, "File Tree"@, Seq::empty(), ActionContext::FileTree),
        row(Action::TreeExpand, "tree::expand"@, "Tree: Expand"@, "File Tree"@, seq!["descend"@], ActionContext::FileTree),
        row(Action::TreeCollapse, "tree::collapse"@, "Tree: Collapse"@, "File Tree"@, seq!["ascend"@], ActionContext::FileTree),
        row(Action::TreeOpen, "tree::open"@, "Tree: Open"@, "File Tree"@, seq!["edit"@], ActionContext::FileTree),
        row(Action::TreeParent, "tree::parent"@, "Tree: Select Parent"@, "File Tree"@, Seq::empty(), ActionContext::FileTree),
        row(Action::TreeSetRoot, "tree::set_root"@, "Tree: Re-root at Selection"@, "File Tree"@, seq!["cd"@], ActionContext::FileTree),
        row(Action::TreeRootUp, "tree::root_up"@, "Tree: Re-root One Level Up"@, "File Tree"@, seq!["cd .."@], ActionContext::FileTree),
        row(Action::TreeToggleHidden, "tree::toggle_hidden"@, "Tree: Toggle Hidden Files"@, "File Tree"@, seq!["dotfiles"@], ActionContext::FileTree),
        row(Action::TreeRefresh, "tree::refresh"@, "Tree: Refresh"@, "File Tree"@, seq!["reload"@], ActionContext::FileTree),
        row(Action::TreeFilter, "tree::filter"@, "Tree: Filter"@, "File Tree"@, seq!["search"@], ActionContext::FileTree),
        row(Action::TreeAdd, "tree::add"@, "Tree: New File or Folder"@, "File Tree"@, seq!["create"@], ActionContext::FileTree),
        row(Action::TreeRename, "tree::rename"@, "Tree: Rename"@, "File Tree"@, Seq::empty(), ActionContext::FileTree),
        row(Action::TreeDelete, "tree::delete"@, "Tree: Delete to Trash"@, "File Tree"@, seq!["remove"@], ActionContext::FileTree),
        row(Action::TreeEscape, "tree::escape"@, "Tree: Dismiss"@, "File Tree"@, Seq::empty(), ActionContext::FileTree),
    ]
}

fn file_tree_metas() -> (v: Vec<ActionMeta>)
    ensures
        rows(v@) == file_tree_rows(),
{
    let mut v: Vec<ActionMeta> = Vec::new();
    v.push(meta(Action::TreeDown, "tree::down", "Tree: Move Down", "File Tree", none(), ActionContext::FileTree));
    v.push(meta(Action::TreeUp, "tree::up", "Tree: Move Up", "File Tree", none(), ActionContext::FileTree));
    v.push(meta(Action::TreeTop, "tree::top", "Tree: Go to Top", "File Tree", one("first"), ActionContext::FileTree));
    v.push(meta(Action::TreeBottom, "tree::bottom", "Tree: Go to Bottom", "File Tree", one("last"), ActionContext::FileTree));
    v.push(meta(Action::TreeHalfPageDown, "tree::half_page_down", "Tree: Half Page Down", "File Tree", none(), ActionContext::FileTree));
    v.push(meta(Action::TreeHalfPageUp, "tree::half_page_up", "Tree: Half Page Up", "File Tree", none(), ActionContext::FileTree));
    v.push(meta(Action::TreeExpand, "tree::expand", "Tree: Expand", "File Tree", one("descend"), ActionContext::FileTree));
    v.push(meta(Action::TreeCollapse, "tree::collapse", "Tree: Collapse", "File Tree", one("ascend"), ActionContext::FileTree));
    v.push(meta(Action::TreeOpen, "tree::open", "Tree: Open", "File Tree", one("edit"), ActionContext::FileTree));
    v.push(meta(Action::TreeParent, "tree::parent", "Tree: Select Parent", "File Tree", none(), ActionContext::FileTree));
    v.push(meta(Action::TreeSetRoot, "tree::set_root", "Tree: Re-root at Selection", "File Tree", one("cd"), ActionContext::FileTree));
    v.push(meta(Action::TreeRootUp, "tree::root_up", "Tree: Re-root One Level Up", "File Tree", one("cd .."), ActionContext::FileTree));
    v.push(meta(Action::TreeToggleHidden, "tree::toggle_hidden", "Tree: Toggle Hidden Files", "File Tree", one("dotfiles"), ActionContext::FileTree));
    v.push(meta(Action::TreeRefresh, "tree::refresh", "Tree: Refresh", "File Tree", one("reload"), ActionContext::FileTree));
    v.push(meta(Action::TreeFilter, "tree::filter", "Tree: Filter", "File Tree", one("search"), ActionContext::FileTree));
    v.push(meta(Action::TreeAdd, "tree::add", "Tree: New File or Folder", "File Tree", one("create"), ActionContext::FileTree));
    v.push(meta(Action::TreeRename, "tree::rename", "Tree: Rename", "File Tree", none(), ActionContext::FileTree));
    v.push(meta(Action::TreeDelete, "tree::delete", "Tree: Delete to Trash", "File Tree", one("remove"), ActionContext::FileTree));
    v.push(meta(Action::TreeEscape, "tree::escape", "Tree: Dismiss", "File Tree", none(), ActionContext::FileTree));
    assert(rows(v@) =~= file_tree_rows());
    v
}

/// The rows of the overlay navigation actions.
pub open spec fn overlay_navigation_rows() -> Seq<Row> {
    seq![
        row(Action::PickerNext, "overlay::next"@, "Overlay: Next Item"@, "Overlay"@, Seq::empty(), ActionContext::Overlay),
        row(Action::PickerPrev, "overlay::prev"@, "Overlay: Previous Item"@, "Overlay"@, Seq::empty(), ActionContext::Overlay),
        row(Action::PickerConfirm, "overlay::confirm"@, "Overlay: Confirm"@, "Overlay"@, Seq::empty(), ActionContext::Overlay),
        row(Action::PickerConfirmAlt, "overlay::confirm_alt"@, "Overlay: Confirm (alternate)"@, "Overlay"@, seq!["run"@], ActionContext::Overlay),
        row(Action::PickerCancel, "overlay::cancel"@, "Overlay: Cancel"@, "Overlay"@, Seq::empty(), ActionContext::Overlay),
    ]
}

fn overlay_navigation_metas() -> (v: Vec<ActionMeta>)
    ensures
        rows(v@) == overlay_navigation_rows(),
{
    let mut v: Vec<ActionMeta> = Vec::new();
    v.push(meta(Action::PickerNext, "overlay::next", "Overlay: Next Item", "Overlay", none(), ActionContext::Overlay));
    v.push(meta(Action::PickerPrev, "overlay::prev", "Overlay: Previous Item", "Overlay", none(), ActionContext::Overlay));
    v.push(meta(Action::PickerConfirm, "overlay::confirm", "Overlay: Confirm", "Overlay", none(), ActionContext::Overlay));
    v.push(meta(Action::PickerConfirmAlt, "overlay::confirm_alt", "Overlay: Confirm (alternate)", "Overlay", one("run"), ActionContext::Overlay));
    v.push(meta(Action::PickerCancel, "overlay::cancel", "Overlay: Cancel", "Overlay", none(), ActionContext::Overlay));
    assert(rows(v@) =~= overlay_navigation_rows());
    v
}

/// The whole registry, in the order the palette lists it.
pub open spec fn registry() -> Seq<Row> {
    application_rows() + window_rows() + tabs_rows() + panes_rows() + terminal_rows() + drawer_rows() + workspaces_rows() + file_tree_rows() + overlay_navigation_rows()
}

/// The whole registry, in the order the palette lists it.
pub fn registry_metas() -> (v: Vec<ActionMeta>)
    ensures
        rows(v@) == registry(),
{
    let mut v = application_metas();
    let mut next = window_metas();
    proof {
        lemma_rows_concat(v@, next@);
    }
    v.append(&mut next);
    let mut next = tabs_metas();
    proof {
        lemma_rows_concat(v@, next@);
    }
    v.append(&mut next);
    let mut next = panes_metas();
    proof {
        lemma_rows_concat(v@, next@);
    }
    v.append(&mut next);
    let mut next = terminal_metas();
    proof {
        lemma_rows_concat(v@, next@);
    }
    v.append(&mut next);
    let mut next = drawer_metas();
    proof {
        lemma_rows_concat(v@, next@);
    }
    v.append(&mut next);
    let mut next = workspaces_metas();
    proof {
        lemma_rows_concat(v@, next@);
    }
    v.append(&mut next);
    let mut next = file_tree_metas();
    proof {
        lemma_rows_concat(v@, next@);
    }
    v.append(&mut next);
    let mut next = overlay_navigation_metas();
    proof {
        lemma_rows_concat(v@, next@);
    }
    v.append(&mut next);
    v
}

proof fn lemma_rows_concat(a: Seq<ActionMeta>, b: Seq<ActionMeta>)
    ensures
        rows(a + b) == rows(a) + rows(b),
{
    assert(rows(a + b) =~= rows(a) + rows(b));
}

/// Whether a row's texts fit on a line of the palette.
pub open spec fn fits_a_line(r: Row) -> bool {
    &&& r.category.len() + 1 + r.title.len() <= 80
    &&& forall|i: int| 0 <= i < r.aliases.len() ==> (#[trigger] r.aliases[i]).len() <= 80
}

proof fn lemma_application_fit()
    ensures
        forall|i: int| 0 <= i < application_rows().len() ==> fits_a_line(#[trigger] application_rows()[i]),
{
    reveal_strlit("Quit Oxide");
    reveal_strlit("Application");
    reveal_strlit("exit");
    reveal_strlit("About Oxide");
    reveal_strlit("Open Settings");
    reveal_strlit("config");
    reveal_strlit("preferences");
    reveal_strlit("Select Theme");
    reveal_strlit("colors");
    reveal_strlit("preset");
    reveal_strlit("Command Palette");
    reveal_strlit("commands");
    reveal_strlit("Hide Oxide");
    reveal_strlit("Hide Others");
    reveal_strlit("Open Help");
    reveal_strlit("docs");
    reveal_strlit("Report an Issue");
    reveal_strlit("bug");
    reveal_strlit("github");
    reveal_strlit("Check for Updates");
    reveal_strlit("upgrade");
    reveal_strlit("Install Downloaded Update");
    reveal_strlit("Toggle Status Bar");
    reveal_strlit("Toggle Tab Bar");
    reveal_strlit("What's New");
    reveal_strlit("release notes");
    let s = application_rows();
    assert(fits_a_line(s[0]));
    assert(fits_a_line(s[1]));
    assert(fits_a_line(s[2]));
    assert(fits_a_line(s[3]));
    assert(fits_a_line(s[4]));
    assert(fits_a_line(s[5]));
    assert(fits_a_line(s[6]));
    assert(fits_a_line(s[7]));
    assert(fits_a_line(s[8]));
    assert(fits_a_line(s[9]));
    assert(fits_a_line(s[10]));
    assert(fits_a_line(s[11]));
    assert(fits_a_line(s[12]));
    assert(fits_a_line(s[13]));
    assert(s.len() == 14);
    assert forall|i: int| 0 <= i < s.len() implies fits_a_line(#[trigger] s[i]) by {}
}

proof fn lemma_window_fit()
    ensures
        forall|i: int| 0 <= i < window_rows().len() ==> fits_a_line(#[trigger] window_rows()[i]),
{
    reveal_strlit("New Window");
    reveal_strlit("Window");
    reveal_strlit("Close Pane or Window");
    reveal_strlit("cmd-w");
    reveal_strlit("Minimize");
    reveal_strlit("Zoom Window");
    reveal_strlit("maximize");
    reveal_strlit("Toggle Full Screen");
    let s = window_rows();
    assert(fits_a_line(s[0]));
    assert(fits_a_line(s[1]));
    assert(fits_a_line(s[2]));
    assert(fits_a_line(s[3]));
    assert(fits_a_line(s[4]));
    assert(s.len() == 5);
    assert forall|i: int| 0 <= i < s.len() implies fits_a_line(#[trigger] s[i]) by {}
}

proof fn lemma_tabs_fit()
    ensures
        forall|i: int| 0 <= i < tabs_rows().len() ==> fits_a_line(#[trigger] tabs_rows()[i]),
{
    reveal_strlit("New Tab");
    reveal_strlit("Tab");
    reveal_strlit("Next Tab");
    reveal_strlit("Previous Tab");
    reveal_strlit("prev");
    reveal_strlit("Go to Tab 1");
    reveal_strlit("Go to Tab 2");
    reveal_strlit("Go to Tab 3");
    reveal_strlit("Go to Tab 4");
    reveal_strlit("Go to Tab 5");
    reveal_strlit("Go to Tab 6");
    reveal_strlit("Go to Tab 7");
    reveal_strlit("Go to Tab 8");
    reveal_strlit("Go to Tab 9");
    reveal_strlit("Rename Tab");
    reveal_strlit("Reopen Closed Tab");
    reveal_strlit("undo close");
    reveal_strlit("Move Tab Left");
    reveal_strlit("Move Tab Right");
    let s = tabs_rows();
    assert(fits_a_line(s[0]));
    assert(fits_a_line(s[1]));
    assert(fits_a_line(s[2]));
    assert(fits_a_line(s[3]));
    assert(fits_a_line(s[4]));
    assert(fits_a_line(s[5]));
    assert(fits_a_line(s[6]));
    assert(fits_a_line(s[7]));
    assert(fits_a_line(s[8]));
    assert(fits_a_line(s[9]));
    assert(fits_a_line(s[10]));
    assert(fits_a_line(s[11]));
    assert(fits_a_line(s[12]));
    assert(fits_a_line(s[13]));
    assert(fits_a_line(s[14]));
    assert(fits_a_line(s[15]));
    assert(s.len() == 16);
    assert forall|i: int| 0 <= i < s.len() implies fits_a_line(#[trigger] s[i]) by {}
}

proof fn lemma_panes_fit()
    ensures
        forall|i: int| 0 <= i < panes_rows().len() ==> fits_a_line(#[trigger] panes_rows()[i]),
{
    reveal_strlit("Split Right");
    reveal_strlit("Pane");
    reveal_strlit("vsplit");
    reveal_strlit("vertical");
    reveal_strlit("Split Left");
    reveal_strlit("Split Up");
    reveal_strlit("hsplit");
    reveal_strlit("Split Down");
    reveal_strlit("horizontal");
    reveal_strlit("Focus Pane Left");
    reveal_strlit("Focus Pane Right");
    reveal_strlit("Focus Pane Up");
    reveal_strlit("Focus Pane Down");
    reveal_strlit("Close Pane");
    reveal_strlit("kill");
    reveal_strlit("Grow Pane Horizontally");
    reveal_strlit("resize");
    reveal_strlit("width");
    reveal_strlit("Shrink Pane Horizontally");
    reveal_strlit("Grow Pane Vertically");
    reveal_strlit("height");
    reveal_strlit("Shrink Pane Vertically");
    reveal_strlit("Equalize Splits");
    reveal_strlit("even");
    reveal_strlit("balance");
    reveal_strlit("Close Other Panes");
    reveal_strlit("Zoom Pane");
    reveal_strlit("maximize");
    reveal_strlit("Swap Pane with Neighbour");
    reveal_strlit("Broadcast Input to All Panes");
    reveal_strlit("Set Startup Command");
    let s = panes_rows();
    assert(fits_a_line(s[0]));
    assert(fits_a_line(s[1]));
    assert(fits_a_line(s[2]));
    assert(fits_a_line(s[3]));
    assert(fits_a_line(s[4]));
    assert(fits_a_line(s[5]));
    assert(fits_a_line(s[6]));
    assert(fits_a_line(s[7]));
    assert(fits_a_line(s[8]));
    assert(fits_a_line(s[9]));
    assert(fits_a_line(s[10]));
    assert(fits_a_line(s[11]));
    assert(fits_a_line(s[12]));
    assert(fits_a_line(s[13]));
    assert(fits_a_line(s[14]));
    assert(fits_a_line(s[15]));
    assert(fits_a_line(s[16]));
    assert(fits_a_line(s[17]));
    assert(fits_a_line(s[18]));
    assert(s.len() == 19);
    assert forall|i: int| 0 <= i < s.len() implies fits_a_line(#[trigger] s[i]) by {}
}

proof fn lemma_terminal_fit()
    ensures
        forall|i: int| 0 <= i < terminal_rows().len() ==> fits_a_line(#[trigger] terminal_rows()[i]),
{
    reveal_strlit("Copy");
    reveal_strlit("Terminal");
    reveal_strlit("Paste");
    reveal_strlit("Select All");
    reveal_strlit("Clear Scrollback");
    reveal_strlit("clear");
    reveal_strlit("history");
    reveal_strlit("Search Scrollback");
    reveal_strlit("find");
    reveal_strlit("Jump to Previous Prompt");
    reveal_strlit("Jump to Next Prompt");
    reveal_strlit("Increase Font Size");
    reveal_strlit("zoom in");
    reveal_strlit("bigger");
    reveal_strlit("Decrease Font Size");
    reveal_strlit("zoom out");
    reveal_strlit("smaller");
    reveal_strlit("Reset Font Size");
    reveal_strlit("Command History");
    reveal_strlit("recent");
    reveal_strlit("search commands");
    reveal_strlit("Copy Last Command's Output");
    reveal_strlit("clipboard");
    reveal_strlit("Copy Last Command");
    reveal_strlit("Copy Last Command and Output");
    reveal_strlit("issue");
    reveal_strlit("Copy Mode");
    reveal_strlit("vi");
    reveal_strlit("Search: Toggle Regex");
    reveal_strlit("Search: Toggle Case");
    reveal_strlit("Search: Toggle Whole Word");
    let s = terminal_rows();
    assert(fits_a_line(s[0]));
    assert(fits_a_line(s[1]));
    assert(fits_a_line(s[2]));
    assert(fits_a_line(s[3]));
    assert(fits_a_line(s[4]));
    assert(fits_a_line(s[5]));
    assert(fits_a_line(s[6]));
    assert(fits_a_line(s[7]));
    assert(fits_a_line(s[8]));
    assert(fits_a_line(s[9]));
    assert(fits_a_line(s[10]));
    assert(fits_a_line(s[11]));
    assert(fits_a_line(s[12]));
    assert(fits_a_line(s[13]));
    assert(fits_a_line(s[14]));
    assert(fits_a_line(s[15]));
    assert(fits_a_line(s[16]));
    assert(fits_a_line(s[17]));
    assert(s.len() == 18);
    assert forall|i: int| 0 <= i < s.len() implies fits_a_line(#[trigger] s[i]) by {}
}

proof fn lemma_drawer_fit()
    ensures
        forall|i: int| 0 <= i < drawer_rows().len() ==> fits_a_line(#[trigger] drawer_rows()[i]),
{
    reveal_strlit("Toggle Drawer");
    reveal_strlit("Drawer");
    reveal_strlit("sidebar");
    reveal_strlit("file tree");
    reveal_strlit("Focus File Tree");
    reveal_strlit("Focus Terminal");
    reveal_strlit("Toggle Focus: Drawer / Terminal");
    reveal_strlit("Focus Workspaces Panel");
    let s = drawer_rows();
    assert(fits_a_line(s[0]));
    assert(fits_a_line(s[1]));
    assert(fits_a_line(s[2]));
    assert(fits_a_line(s[3]));
    assert(fits_a_line(s[4]));
    assert(s.len() == 5);
    assert forall|i: int| 0 <= i < s.len() implies fits_a_line(#[trigger] s[i]) by {}
}

proof fn lemma_workspaces_fit()
    ensures
        forall|i: int| 0 <= i < workspaces_rows().len() ==> fits_a_line(#[trigger] workspaces_rows()[i]),
{
    reveal_strlit("New Workspace");
    reveal_strlit("Workspace");
    reveal_strlit("Workspaces: Move Down");
    reveal_strlit("Workspaces: Move Up");
    reveal_strlit("Workspaces: Switch to Selected");
    reveal_strlit("Workspaces: Add Named");
    reveal_strlit("create");
    reveal_strlit("Workspaces: Delete Selected");
    reveal_strlit("remove");
    reveal_strlit("Workspaces: Rename Selected");
    reveal_strlit("Workspaces: Pin / Unpin");
    reveal_strlit("persist");
    reveal_strlit("save");
    reveal_strlit("Workspaces: Dismiss");
    let s = workspaces_rows();
    assert(fits_a_line(s[0]));
    assert(fits_a_line(s[1]));
    assert(fits_a_line(s[2]));
    assert(fits_a_line(s[3]));
    assert(fits_a_line(s[4]));
    assert(fits_a_line(s[5]));
    assert(fits_a_line(s[6]));
    assert(fits_a_line(s[7]));
    assert(fits_a_line(s[8]));
    assert(s.len() == 9);
    assert forall|i: int| 0 <= i < s.len() implies fits_a_line(#[trigger] s[i]) by {}
}

proof fn lemma_file_tree_fit()
    ensures
        forall|i: int| 0 <= i < file_tree_rows().len() ==> fits_a_line(#[trigger] file_tree_rows()[i]),
{
    reveal_strlit("Tree: Move Down");
    reveal_strlit("File Tree");
    reveal_strlit("Tree: Move Up");
    reveal_strlit("Tree: Go to Top");
    reveal_strlit("first");
    reveal_strlit("Tree: Go to Bottom");
    reveal_strlit("last");
    reveal_strlit("Tree: Half Page Down");
    reveal_strlit("Tree: Half Page Up");
    reveal_strlit("Tree: Expand");
    reveal_strlit("descend");
    reveal_strlit("Tree: Collapse");
    reveal_strlit("ascend");
    reveal_strlit("Tree: Open");
    reveal_strlit("edit");
    reveal_strlit("Tree: Select Parent");
    reveal_strlit("Tree: Re-root at Selection");
    reveal_strlit("cd");
    reveal_strlit("Tree: Re-root One Level Up");
    reveal_strlit("cd ..");
    reveal_strlit("Tree: Toggle Hidden Files");
    reveal_strlit("dotfiles");
    reveal_strlit("Tree: Refresh");
    reveal_strlit("reload");
    reveal_strlit("Tree: Filter");
    reveal_strlit("search");
    reveal_strlit("Tree: New File or Folder");
    reveal_strlit("create");
    reveal_strlit("Tree: Rename");
    reveal_strlit("Tree: Delete to Trash");
    reveal_strlit("remove");
    reveal_strlit("Tree: Dismiss");
    let s = file_tree_rows();
    assert(fits_a_line(s[0]));
    assert(fits_a_line(s[1]));
    assert(fits_a_line(s[2]));
    assert(fits_a_line(s[3]));
    assert(fits_a_line(s[4]));
    assert(fits_a_line(s[5]));
    assert(fits_a_line(s[6]));
    assert(fits_a_line(s[7]));
    assert(fits_a_line(s[8]));
    assert(fits_a_line(s[9]));
    assert(fits_a_line(s[10]));
    assert(fits_a_line(s[11]));
    assert(fits_a_line(s[12]));
    assert(fits_a_line(s[13]));
    assert(fits_a_line(s[14]));
    assert(fits_a_line(s[15]));
    assert(fits_a_line(s[16]));
    assert(fits_a_line(s[17]));
    assert(fits_a_line(s[18]));
    assert(s.len() == 19);
    assert forall|i: int| 0 <= i < s.len() implies fits_a_line(#[trigger] s[i]) by {}
}

proof fn lemma_overlay_navigation_fit()
    ensures
        forall|i: int| 0 <= i < overlay_navigation_rows().len() ==> fits_a_line(#[trigger] overlay_navigation_rows()[i]),
{
    reveal_strlit("Overlay: Next Item");
    reveal_strlit("Overlay");
    reveal_strlit("Overlay: Previous Item");
    reveal_strlit("Overlay: Confirm");
    reveal_strlit("Overlay: Confirm (alternate)");
    reveal_strlit("run");
    reveal_strlit("Overlay: Cancel");
    let s = overlay_navigation_rows();
    assert(fits_a_line(s[0]));
    assert(fits_a_line(s[1]));
    assert(fits_a_line(s[2]));
    assert(fits_a_line(s[3]));
    assert(fits_a_line(s[4]));
    assert(s.len() == 5);
    assert forall|i: int| 0 <= i < s.len() implies fits_a_line(#[trigger] s[i]) by {}
}

/// Every text of the registry fits on a line of the palette.
pub proof fn lemma_registry_fits()
    ensures
        forall|i: int| 0 <= i < registry().len() ==> fits_a_line(#[trigger] registry()[i]),
{
    lemma_application_fit();
    lemma_window_fit();
    lemma_tabs_fit();
    lemma_panes_fit();
    lemma_terminal_fit();
    lemma_drawer_fit();
    lemma_workspaces_fit();
    lemma_file_tree_fit();
    lemma_overlay_navigation_fit();
}

// --- Identifiers ---

/// Whether an identifier stands for an action.
pub open spec fn stands_for(id: Seq<char>, action: Action) -> bool {
    exists|k: int|
        0 <= k < registry().len() && (#[trigger] registry()[k]).id == id && registry()[k].action
            == action
}

/// The public names of the application actions.
pub proof fn lemma_application_identifiers()
    ensures
        stands_for("app::quit"@, Action::Quit),
        stands_for("app::about"@, Action::About),
        stands_for("app::settings"@, Action::OpenSettings),
        stands_for("app::select_theme"@, Action::SelectTheme),
        stands_for("app::palette"@, Action::CommandPalette),
        stands_for("app::hide"@, Action::Hide),
        stands_for("app::hide_others"@, Action::HideOthers),
        stands_for("app::help"@, Action::OpenHelp),
        stands_for("app::report_issue"@, Action::ReportIssue),
        stands_for("app::check_for_updates"@, Action::CheckForUpdates),
        stands_for("app::install_update"@, Action::InstallUpdate),
        stands_for("app::toggle_status_bar"@, Action::ToggleStatusBar),
        stands_for("app::toggle_tab_bar"@, Action::ToggleTabBar),
        stands_for("app::changelog"@, Action::ShowChangelog),
{
    let s = application_rows();
    assert(registry()[0] == s[0]);
    assert(registry()[1] == s[1]);
    assert(registry()[2] == s[2]);
    assert(registry()[3] == s[3]);
    assert(registry()[4] == s[4]);
    assert(registry()[5] == s[5]);
    assert(registry()[6] == s[6]);
    assert(registry()[7] == s[7]);
    assert(registry()[8] == s[8]);
    assert(registry()[9] == s[9]);
    assert(registry()[10] == s[10]);
    assert(registry()[11] == s[11]);
    assert(registry()[12] == s[12]);
    assert(registry()[13] == s[13]);
}

/// The public names of the window actions.
pub proof fn lemma_window_identifiers()
    ensures
        stands_for("window::new"@, Action::NewWindow),
        stands_for("window::close"@, Action::CloseWindow),
        stands_for("window::minimize"@, Action::Minimize),
        stands_for("window::zoom"@, Action::Zoom),
        stands_for("window::toggle_fullscreen"@, Action::ToggleFullscreen),
{
    let s = window_rows();
    assert(registry()[14] == s[0]);
    assert(registry()[15] == s[1]);
    assert(registry()[16] == s[2]);
    assert(registry()[17] == s[3]);
    assert(registry()[18] == s[4]);
}

/// The public names of the tabs actions.
pub proof fn lemma_tabs_identifiers()
    ensures
        stands_for("tab::new"@, Action::NewTab),
        stands_for("tab::next"@, Action::SelectNextTab),
        stands_for("tab::previous"@, Action::SelectPreviousTab),
        stands_for("tab::select_1"@, Action::SelectTab1),
        stands_for("tab::select_2"@, Action::SelectTab2),
        stands_for("tab::select_3"@, Action::SelectTab3),
        stands_for("tab::select_4"@, Action::SelectTab4),
        stands_for("tab::select_5"@, Action::SelectTab5),
        stands_for("tab::select_6"@, Action::SelectTab6),
        stands_for("tab::select_7"@, Action::SelectTab7),
        stands_for("tab::select_8"@, Action::SelectTab8),
        stands_for("tab::select_9"@, Action::SelectTab9),
        stands_for("tab::rename"@, Action::RenameTab),
        stands_for("tab::reopen_closed"@, Action::ReopenClosedTab),
        stands_for("tab::move_left"@, Action::MoveTabLeft),
        stands_for("tab::move_right"@, Action::MoveTabRight),
{
    let s = tabs_rows();
    assert(registry()[19] == s[0]);
    assert(registry()[20] == s[1]);
    assert(registry()[21] == s[2]);
    assert(registry()[22] == s[3]);
    assert(registry()[23] == s[4]);
    assert(registry()[24] == s[5]);
    assert(registry()[25] == s[6]);
    assert(registry()[26] == s[7]);
    assert(registry()[27] == s[8]);
    assert(registry()[28] == s[9]);
    assert(registry()[29] == s[10]);
    assert(registry()[30] == s[11]);
    assert(registry()[31] == s[12]);
    assert(registry()[32] == s[13]);
    assert(registry()[33] == s[14]);
    assert(registry()[34] == s[15]);
}

/// The public names of the panes actions.
pub proof fn lemma_panes_identifiers()
    ensures
        stands_for("pane::split_right"@, Action::SplitRight),
        stands_for("pane::split_left"@, Action::SplitLeft),
        stands_for("pane::split_up"@, Action::SplitUp),
        stands_for("pane::split_down"@, Action::SplitDown),
        stands_for("pane::focus_left"@, Action::FocusPaneLeft),
        stands_for("pane::focus_right"@, Action::FocusPaneRight),
        stands_for("pane::focus_up"@, Action::FocusPaneUp),
        stands_for("pane::focus_down"@, Action::FocusPaneDown),
        stands_for("pane::close"@, Action::ClosePane),
        stands_for("pane::wider"@, Action::PaneWider),
        stands_for("pane::narrower"@, Action::PaneNarrower),
        stands_for("pane::taller"@, Action::PaneTaller),
        stands_for("pane::shorter"@, Action::PaneShorter),
        stands_for("pane::equalize"@, Action::PaneEqualize),
        stands_for("pane::only"@, Action::PaneOnly),
        stands_for("pane::zoom"@, Action::PaneZoom),
        stands_for("pane::swap"@, Action::PaneSwap),
        stands_for("pane::broadcast"@, Action::PaneBroadcast),
        stands_for("pane::set_startup_command"@, Action::SetStartupCommand),
{
    let s = panes_rows();
    assert(registry()[35] == s[0]);
    assert(registry()[36] == s[1]);
    assert(registry()[37] == s[2]);
    assert(registry()[38] == s[3]);
    assert(registry()[39] == s[4]);
    assert(registry()[40] == s[5]);
    assert(registry()[41] == s[6]);
    assert(registry()[42] == s[7]);
    assert(registry()[43] == s[8]);
    assert(registry()[44] == s[9]);
    assert(registry()[45] == s[10]);
    assert(registry()[46] == s[11]);
    assert(registry()[47] == s[12]);
    assert(registry()[48] == s[13]);
    assert(registry()[49] == s[14]);
    assert(registry()[50] == s[15]);
    assert(registry()[51] == s[16]);
    assert(registry()[52] == s[17]);
    assert(registry()[53] == s[18]);
}

/// The public names of the terminal actions.
pub proof fn lemma_terminal_identifiers()
    ensures
        stands_for("terminal::copy"@, Action::Copy),
        stands_for("terminal::paste"@, Action::Paste),
        stands_for("terminal::select_all"@, Action::SelectAll),
        stands_for("terminal::clear_scrollback"@, Action::ClearScrollback),
        stands_for("terminal::search"@, Action::Search),
        stands_for("terminal::prompt_up"@, Action::PromptUp),
        stands_for("terminal::prompt_down"@, Action::PromptDown),
        stands_for("terminal::font_increase"@, Action::FontIncrease),
        stands_for("terminal::font_decrease"@, Action::FontDecrease),
        stands_for("terminal::font_reset"@, Action::FontReset),
        stands_for("terminal::history"@, Action::CommandHistory),
        stands_for("terminal::copy_last_output"@, Action::CopyLastOutput),
        stands_for("terminal::copy_last_command"@, Action::CopyLastCommand),
        stands_for("terminal::copy_last_block"@, Action::CopyLastBlock),
        stands_for("terminal::copy_mode"@, Action::CopyMode),
        stands_for("terminal::search_toggle_regex"@, Action::SearchToggleRegex),
        stands_for("terminal::search_toggle_case"@, Action::SearchToggleCase),
        stands_for("terminal::search_toggle_word"@, Action::SearchToggleWord),
{
    let s = terminal_rows();
    assert(registry()[54] == s[0]);
    assert(registry()[55] == s[1]);
    assert(registry()[56] == s[2]);
    assert(registry()[57] == s[3]);
    assert(registry()[58] == s[4]);
    assert(registry()[59] == s[5]);
    assert(registry()[60] == s[6]);
    assert(registry()[61] == s[7]);
    assert(registry()[62] == s[8]);
    assert(registry()[63] == s[9]);
    assert(registry()[64] == s[10]);
    assert(registry()[65] == s[11]);
    assert(registry()[66] == s[12]);
    assert(registry()[67] == s[13]);
    assert(registry()[68] == s[14]);
    assert(registry()[69] == s[15]);
    assert(registry()[70] == s[16]);
    assert(registry()[71] == s[17]);
}

/// The public names of the drawer actions.
pub proof fn lemma_drawer_identifiers()
    ensures
        stands_for("drawer::toggle"@, Action::ToggleDrawer),
        stands_for("drawer::focus_tree"@, Action::FocusTree),
        stands_for("drawer::focus_terminal"@, Action::FocusTerminal),
        stands_for("drawer::focus_toggle"@, Action::FocusToggle),
        stands_for("drawer::focus_workspaces"@, Action::FocusWorkspaces),
{
    let s = drawer_rows();
    assert(registry()[72] == s[0]);
    assert(registry()[73] == s[1]);
    assert(registry()[74] == s[2]);
    assert(registry()[75] == s[3]);
    assert(registry()[76] == s[4]);
}

/// The public names of the workspaces actions.
pub proof fn lemma_workspaces_identifiers()
    ensures
        stands_for("workspace::new"@, Action::NewWorkspace),
        stands_for("workspace::down"@, Action::WsDown),
        stands_for("workspace::up"@, Action::WsUp),
        stands_for("workspace::open"@, Action::WsOpen),
        stands_for("workspace::add"@, Action::WsAdd),
        stands_for("workspace::delete"@, Action::WsDelete),
        stands_for("workspace::rename"@, Action::WsRename),
        stands_for("workspace::toggle_persist"@, Action::WsTogglePersist),
        stands_for("workspace::escape"@, Action::WsEscape),
{
    let s = workspaces_rows();
    assert(registry()[77] == s[0]);
    assert(registry()[78] == s[1]);
    assert(registry()[79] == s[2]);
    assert(registry()[80] == s[3]);
    assert(registry()[81] == s[4]);
    assert(registry()[82] == s[5]);
    assert(registry()[83] == s[6]);
    assert(registry()[84] == s[7]);
    assert(registry()[85] == s[8]);
}

/// The public names of the file tree actions.
pub proof fn lemma_file_tree_identifiers()
    ensures
        stands_for("tree::down"@, Action::TreeDown),
        stands_for("tree::up"@, Action::TreeUp),
        stands_for("tree::top"@, Action::TreeTop),
        stands_for("tree::bottom"@, Action::TreeBottom),
        stands_for("tree::half_page_down"@, Action::TreeHalfPageDown),
        stands_for("tree::half_page_up"@, Action::TreeHalfPageUp),
        stands_for("tree::expand"@, Action::TreeExpand),
        stands_for("tree::collapse"@, Action::TreeCollapse),
        stands_for("tree::open"@, Action::TreeOpen),
        stands_for("tree::parent"@, Action::TreeParent),
        stands_for("tree::set_root"@, Action::TreeSetRoot),
        stands_for("tree::root_up"@, Action::TreeRootUp),
        stands_for("tree::toggle_hidden"@, Action::TreeToggleHidden),
        stands_for("tree::refresh"@, Action::TreeRefresh),
        stands_for("tree::filter"@, Action::TreeFilter),
        stands_for("tree::add"@, Action::TreeAdd),
        stands_for("tree::rename"@, Action::TreeRename),
        stands_for("tree::delete"@, Action::TreeDelete),
        stands_for("tree::escape"@, Action::TreeEscape),
{
    let s = file_tree_rows();
    assert(registry()[86] == s[0]);
    assert(registry()[87] == s[1]);
    assert(registry()[88] == s[2]);
    assert(registry()[89] == s[3]);
    assert(registry()[90] == s[4]);
    assert(registry()[91] == s[5]);
    assert(registry()[92] == s[6]);
    assert(registry()[93] == s[7]);
    assert(registry()[94] == s[8]);
    assert(registry()[95] == s[9]);
    assert(registry()[96] == s[10]);
    assert(registry()[97] == s[11]);
    assert(registry()[98] == s[12]);
    assert(registry()[99] == s[13]);
    assert(registry()[100] == s[14]);
    assert(registry()[101] == s[15]);
    assert(registry()[102] == s[16]);
    assert(registry()[103] == s[17]);
    assert(registry()[104] == s[18]);
}

/// The public names of the overlay navigation actions.
pub proof fn lemma_overlay_navigation_identifiers()
    ensures
        stands_for("overlay::next"@, Action::PickerNext),
        stands_for("overlay::prev"@, Action::PickerPrev),
        stands_for("overlay::confirm"@, Action::PickerConfirm),
        stands_for("overlay::confirm_alt"@, Action::PickerConfirmAlt),
        stands_for("overlay::cancel"@, Action::PickerCancel),
{
    let s = overlay_navigation_rows();
    assert(registry()[105] == s[0]);
    assert(registry()[106] == s[1]);
    assert(registry()[107] == s[2]);
    assert(registry()[108] == s[3]);
    assert(registry()[109] == s[4]);
}

} // verus!
