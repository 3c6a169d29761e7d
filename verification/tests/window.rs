use oxide::banner::Banner;
use oxide::config::schema::{ColorsConfig, NewTabDirectory};
use oxide::config::theme::{preset_names, Theme};
use oxide::focus::{
    current_focus_target, focus_in_direction, on_cwd_changed, on_exited, pane_in_direction,
    restore_focus, toggle_drawer, FocusTarget, Rect,
};
use oxide::git::GitStatus;
use oxide::keymap::keystroke::{Keystroke, Modifiers};
use oxide::overlay::{cancel, toggle_palette, Overlay, PaletteState, ThemePicker};
use oxide::panes::{Axis, Direction, Node, WHOLE};
use oxide::path::same_path;
use oxide::saved::{number_of, SavedTab, SavedWorkspace};
use oxide::status::{
    git_label, new_tab_cwd, start_directory, status_bar_shown, status_directory, tab_title,
};
use oxide::update::{installed, Release, UpdateState, UpdateStep};
use oxide::workspaces::{menu_place, on_ws_key, Workspaces, WsInput, WsRequest};

// --- workspaces ---

fn names(w: &Workspaces) -> Vec<&str> {
    w.list.iter().map(|w| w.name.as_str()).collect()
}

fn panes(w: &Workspaces) -> Vec<u64> {
    w.list.iter().flat_map(|w| &w.tabs).flat_map(|t| t.layout.leaves()).collect()
}

#[test]
fn a_window_opens_with_one_pane() {
    let w = Workspaces::new();
    assert_eq!(names(&w), ["workspace 1"]);
    assert_eq!(panes(&w), [0]);
    assert_eq!(w.active_id(), 0);
    assert!(!w.list[0].persist);
}

#[test]
fn splitting_focuses_the_new_pane() {
    let mut w = Workspaces::new();
    let id = w.split_active(Direction::Right);
    assert_eq!((id, w.active_id()), (1, 1));
    assert_eq!(w.split_active(Direction::Left), 2);
    assert_eq!(panes(&w), [0, 2, 1]);
    assert_eq!(w.locate_pane(2), Some((0, 0)));
    assert_eq!(w.locate_pane(9), None);
}

#[test]
fn closing_cascades_upward() {
    let mut w = Workspaces::new();
    w.split_active(Direction::Right);
    w.new_tab();
    w.new_workspace();
    assert_eq!(panes(&w), [0, 1, 2, 3]);
    // The pane of the only tab of the second workspace: both go with it.
    let c = w.close_pane(3).unwrap();
    assert_eq!((c.gone, c.focus), (vec![3], Some(2)));
    assert_eq!(names(&w), ["workspace 1"]);
    // The only pane of the second tab.
    let c = w.close_pane(2).unwrap();
    assert_eq!((c.gone, c.focus), (vec![2], Some(1)));
    // One of two panes: the other takes over.
    let c = w.close_pane(1).unwrap();
    assert_eq!((c.gone, c.focus), (vec![1], Some(0)));
    // An unknown pane changes nothing.
    let c = w.close_pane(7).unwrap();
    assert_eq!((c.gone, c.focus), (vec![], None));
    // The last one is the window's.
    assert!(w.close_pane(0).is_none());
    assert_eq!(panes(&w), [0]);
}

#[test]
fn closing_the_focused_pane_focuses_the_one_in_its_place() {
    let mut w = Workspaces::new();
    w.split_active(Direction::Right);
    w.split_active(Direction::Right);
    assert_eq!(panes(&w), [0, 1, 2]);
    assert!(w.adopt_focus(1));
    assert_eq!(w.close_pane(1).unwrap().focus, Some(2));
    assert_eq!(w.close_pane(2).unwrap().focus, Some(0));
}

#[test]
fn closing_a_background_pane_leaves_the_focus() {
    let mut w = Workspaces::new();
    w.new_tab();
    let c = w.close_pane(0).unwrap();
    assert_eq!((c.gone, c.focus), (vec![0], None));
    assert_eq!((w.list[0].active_tab, w.active_id()), (0, 1));
}

#[test]
fn tabs_go_round() {
    let mut w = Workspaces::new();
    assert_eq!(w.cycle_tab(1), None, "a single tab stays");
    w.new_tab();
    w.new_tab();
    assert_eq!(w.cycle_tab(1), Some(0));
    assert_eq!(w.cycle_tab(-1), Some(2));
    assert_eq!(w.select_tab(1), Some(1));
    assert_eq!(w.select_tab(3), None);
    let c = w.close_tab_at(0, 1);
    assert_eq!((c.gone, c.focus), (vec![1], Some(2)));
}

#[test]
fn the_only_workspace_is_replaced() {
    let mut w = Workspaces::new();
    w.toggle_persist(0);
    assert!(w.list[0].persist);
    w.split_active(Direction::Down);
    let c = w.remove_workspace_at(0);
    assert_eq!((c.gone, c.focus), (vec![0, 1], Some(2)));
    assert_eq!(names(&w), ["workspace 2"]);
    assert!(!w.list[0].persist);
}

#[test]
fn removing_before_the_active_one_keeps_it() {
    let mut w = Workspaces::new();
    w.new_workspace();
    w.new_workspace();
    let c = w.remove_workspace_at(0);
    assert_eq!((c.gone, c.focus), (vec![0], None));
    assert_eq!((w.active_ws, w.active_id()), (1, 2));
    assert_eq!(w.select_workspace(0), Some(1));
    assert_eq!(w.select_workspace(5), None);
}

#[test]
fn the_panel_cursor_stops_at_the_ends() {
    let mut w = Workspaces::new();
    w.new_workspace();
    w.ws_down();
    assert_eq!(w.ws_selected, 1);
    w.ws_up();
    w.ws_up();
    assert_eq!(w.ws_selected, 0);
    w.select_active();
    assert_eq!(w.ws_selected, 1);
}

#[test]
fn resizing_goes_through_the_window() {
    let mut w = Workspaces::new();
    w.split_active(Direction::Right);
    assert_eq!(w.active_share(Axis::Horizontal), Some(WHOLE / 2));
    assert_eq!(w.active_share(Axis::Vertical), None);
    assert!(w.resize_active(Axis::Horizontal, 100_000_000, 50_000_000));
    assert_eq!(w.active_share(Axis::Horizontal), Some(600_000_000));
    assert!(!w.resize_active(Axis::Vertical, 100_000_000, 50_000_000));
    let start = w.start_divider_drag(&[], 0).unwrap();
    assert_eq!((start.leaf, start.share), (0, 400_000_000));
    assert!(w.start_divider_drag(&[], 1).is_none());
    w.update_divider_drag(&[], 0, &start.shares, 200_000_000, 50_000_000);
    assert_eq!(w.active_share(Axis::Horizontal), Some(400_000_000));
    w.equalize_splits();
    assert_eq!(w.active_share(Axis::Horizontal), Some(WHOLE / 2));
}

fn key(name: &str, text: Option<&str>) -> Keystroke {
    Keystroke {
        modifiers: Modifiers::default(),
        key: name.to_string(),
        key_char: text.map(str::to_string),
    }
}

#[test]
fn the_footer_takes_a_name() {
    let mut w = Workspaces::new();
    let mut input = Some(WsInput::Add { buffer: String::new() });
    for c in [" ", "a", "b", "x"] {
        let (next, request) = on_ws_key(input.unwrap(), &key(c, Some(c)));
        assert!(matches!(request, WsRequest::Nothing));
        input = next;
    }
    let (next, _) = on_ws_key(input.unwrap(), &key("backspace", None));
    assert_eq!(w.ws_footer_text(&next).as_deref(), Some("new:  ab▏"));
    let (next, request) = on_ws_key(next.unwrap(), &key("enter", None));
    assert!(next.is_none());
    match request {
        WsRequest::Create(name) => {
            assert_eq!(name, "ab");
            assert_eq!(w.new_named_workspace(name), 1);
        }
        other => panic!("{other:?}"),
    }
    assert_eq!(names(&w), ["workspace 1", "ab"]);
}

#[test]
fn the_footer_renames_and_deletes() {
    let mut w = Workspaces::new();
    let rename = WsInput::Rename { buffer: "new".to_string() };
    assert_eq!(w.ws_footer_text(&Some(rename)).as_deref(), Some("rename: new▏"));
    let rename = WsInput::Rename { buffer: "new".to_string() };
    match on_ws_key(rename, &key("enter", None)).1 {
        WsRequest::Rename(name) => assert!(w.rename(0, name)),
        other => panic!("{other:?}"),
    }
    assert_eq!(names(&w), ["new"]);
    assert!(!w.rename(4, "x".to_string()));
    assert_eq!(
        w.ws_footer_text(&Some(WsInput::ConfirmDelete)).as_deref(),
        Some("delete new? (y/n)")
    );
    assert!(matches!(on_ws_key(WsInput::ConfirmDelete, &key("y", Some("y"))).1, WsRequest::Delete));
    assert!(matches!(on_ws_key(WsInput::ConfirmDelete, &key("n", Some("n"))), (None, WsRequest::Nothing)));
    let blank = WsInput::Add { buffer: "  ".to_string() };
    assert!(matches!(on_ws_key(blank, &key("enter", None)), (None, WsRequest::Nothing)));
    let some = WsInput::Add { buffer: "a".to_string() };
    assert!(matches!(on_ws_key(some, &key("escape", None)), (None, WsRequest::Nothing)));
    assert_eq!(w.ws_footer_text(&None), None);
}

#[test]
fn the_cross_closes_the_whole_tab() {
    let mut w = Workspaces::new();
    w.new_tab();
    w.split_active(Direction::Right);
    let c = w.close_tab_of(1).unwrap();
    assert_eq!((c.gone, c.focus), (vec![1, 2], Some(0)));
    // The only tab: its pane, and with the last one the window.
    w.split_active(Direction::Right);
    assert_eq!(w.close_tab_of(0).unwrap().gone, [0]);
    assert!(w.close_tab_of(3).is_none());
}

#[test]
fn the_context_menu_stays_on_screen() {
    let mut w = Workspaces::new();
    assert_eq!(w.pin_label(0), Some("Pin"));
    w.toggle_persist(0);
    assert_eq!(w.pin_label(0), Some("Unpin"));
    assert_eq!(w.pin_label(1), None);
    assert!(matches!(w.rename_input(), WsInput::Rename { buffer } if buffer == "workspace 1"));
    assert_eq!(menu_place(10, 1000, 160), 10);
    assert_eq!(menu_place(990, 1000, 160), 832);
}

// --- saved workspaces ---

fn dir(s: &str) -> Node<String> {
    Node::Leaf(s.to_string())
}

fn saved(name: &str) -> SavedWorkspace {
    SavedWorkspace {
        name: name.to_string(),
        active_tab: 1,
        tabs: vec![
            SavedTab { layout: dir("/a"), active: 0 },
            SavedTab {
                layout: Node::split_even(Axis::Vertical, vec![dir("/b"), dir("/c")]),
                active: 1,
            },
        ],
    }
}

#[test]
fn pinned_workspaces_come_back() {
    let list = vec![saved("mine"), saved("workspace 7")];
    assert!(list.iter().all(|w| w.is_usable()));
    let (mut w, started) = Workspaces::bootstrap_workspaces(list, "/home");
    assert_eq!(names(&w), ["mine", "workspace 7"]);
    let dirs: Vec<(u64, &str)> = started.iter().map(|(id, d)| (*id, d.as_str())).collect();
    assert_eq!(dirs, [(0, "/a"), (1, "/b"), (2, "/c"), (3, "/a"), (4, "/b"), (5, "/c")]);
    assert_eq!(w.active_id(), 2);
    // Saving at once writes the same again.
    let again = w.save_workspaces(&started, "/home");
    assert_eq!(again.len(), 2);
    assert_eq!((again[0].name.as_str(), again[0].active_tab), ("mine", 1));
    assert_eq!(again[0].tabs[1].active, 1);
    assert_eq!(again[0].tabs[1].layout.at_path(&[1]), Some(&dir("/c")));
    // New ones are numbered past the taken names, and not pinned.
    w.new_workspace();
    assert_eq!(names(&w)[2], "workspace 8");
    assert_eq!(w.save_workspaces(&started, "/home").len(), 2);
}

#[test]
fn nothing_saved_starts_afresh() {
    let (w, started) = Workspaces::bootstrap_workspaces(Vec::new(), "/here");
    assert_eq!(names(&w), ["workspace 1"]);
    assert_eq!(started, [(0, "/here".to_string())]);
    let mut pinned = w;
    pinned.toggle_persist(0);
    let list = pinned.save_workspaces(&Vec::new(), "/home");
    assert_eq!(list[0].tabs[0].layout, dir("/home"), "a pane without a directory is at home");
}

#[test]
fn odd_saved_indices_are_bounded() {
    let mut one = saved("x");
    one.active_tab = 9;
    one.tabs[1].active = 9;
    let (w, _) = Workspaces::bootstrap_workspaces(vec![one], "/");
    assert_eq!(w.list[0].active_tab, 1);
    assert_eq!(w.active_id(), 1);
}

#[test]
fn broken_saved_workspaces_are_told_apart() {
    assert!(!SavedWorkspace { name: "x".to_string(), active_tab: 0, tabs: Vec::new() }.is_usable());
    let mut one = saved("x");
    one.tabs[0].layout = Node::Split { axis: Axis::Vertical, children: vec![], ratios: vec![] };
    assert!(!one.is_usable());
    assert!(!saved("workspace 18446744073709551615").is_usable());
    assert_eq!(number_of("workspace 12"), Some(12));
    assert_eq!(number_of("workspace +2"), Some(2));
    assert_eq!(number_of("workspace x"), None);
    assert_eq!(number_of("12"), None);
}

// --- focus ---

fn rect(x: i32, y: i32, width: u32, height: u32) -> Rect {
    Rect { x, y, width, height }
}

#[test]
fn focus_follows_the_screen() {
    // 1 | 2
    //   | 3
    let order = vec![1, 2, 3];
    let bounds = vec![(1, rect(0, 0, 50, 100)), (2, rect(50, 0, 50, 50)), (3, rect(50, 50, 50, 50))];
    let go = |from: u64, d: Direction| pane_in_direction(&order, &bounds, from, d);
    assert_eq!(go(1, Direction::Right), Some(2), "the first of two as near");
    assert_eq!(go(2, Direction::Down), Some(3));
    assert_eq!(go(3, Direction::Up), Some(2));
    assert_eq!(go(3, Direction::Left), Some(1));
    assert_eq!(go(1, Direction::Left), None);
    assert_eq!(go(2, Direction::Right), None);
    assert_eq!(go(9, Direction::Right), None, "not drawn yet");
}

#[test]
fn the_drawer_is_left_of_the_panes() {
    assert_eq!(focus_in_direction(false, Direction::Left, 1, None), Some(FocusTarget::Tree));
    assert_eq!(focus_in_direction(false, Direction::Up, 1, None), None);
    assert_eq!(
        focus_in_direction(false, Direction::Left, 1, Some(2)),
        Some(FocusTarget::Pane(2))
    );
    assert_eq!(focus_in_direction(true, Direction::Right, 1, None), Some(FocusTarget::Pane(1)));
    assert_eq!(focus_in_direction(true, Direction::Down, 1, Some(2)), None);
}

#[test]
fn focus_goes_back_to_what_is_still_there() {
    let live = vec![1, 2];
    assert_eq!(restore_focus(FocusTarget::Pane(1), true, &live, 2), FocusTarget::Pane(1));
    assert_eq!(restore_focus(FocusTarget::Pane(5), true, &live, 2), FocusTarget::Pane(2));
    assert_eq!(restore_focus(FocusTarget::Tree, true, &live, 2), FocusTarget::Tree);
    assert_eq!(restore_focus(FocusTarget::Workspaces, false, &live, 2), FocusTarget::Pane(2));
    assert_eq!(current_focus_target(true, true, 3), FocusTarget::Tree);
    assert_eq!(current_focus_target(false, true, 3), FocusTarget::Workspaces);
    assert_eq!(current_focus_target(false, false, 3), FocusTarget::Pane(3));
    assert_eq!(toggle_drawer(true, true), (false, true));
    assert_eq!(toggle_drawer(false, true), (true, false));
}

#[test]
fn only_a_clean_exit_closes_the_pane() {
    assert!(on_exited(Some(0)).close);
    assert!(!on_exited(Some(1)).close);
    assert!(!on_exited(None).close);
    let background = on_cwd_changed(false, true);
    assert!(background.save && !background.set_tree_root && !background.refresh_git);
    let active = on_cwd_changed(true, false);
    assert!(active.save && !active.set_tree_root && active.refresh_git);
}

// --- banner ---

#[test]
fn a_newer_banner_is_not_dismissed() {
    let mut b = Banner::new(None, Some("keymap: x".to_string()));
    assert_eq!(b.text.as_deref(), Some("keymap: x"));
    let first = b.show_transient("saved".to_string());
    b.show("config error: y".to_string());
    assert!(!b.expire(first));
    assert_eq!(b.text.as_deref(), Some("config error: y"));
    let second = b.show_transient("again".to_string());
    assert!(b.expire(second));
    assert_eq!(b.text, None);
}

#[test]
fn a_reload_says_what_matters_most() {
    let mut b = Banner::new(Some("config error: y".to_string()), None);
    assert_eq!(b.reloaded(Some("keymap: z".to_string()), true), None);
    assert_eq!(b.text.as_deref(), Some("keymap: z"));
    let timer = b.reloaded(None, true).unwrap();
    assert_eq!(
        b.text.as_deref(),
        Some("config reloaded — shell/prompt changes apply to new sessions")
    );
    assert_eq!(b.reloaded(None, false), None);
    assert_eq!(b.text, None);
    assert!(!b.expire(timer));
}

// --- updates ---

#[test]
fn an_update_is_fetched_downloaded_and_installed() {
    let mut u = UpdateState::Idle;
    assert!(matches!(u.check_for_updates(false), UpdateStep::Fetch));
    assert!(matches!(u.check_for_updates(true), UpdateStep::Nothing), "one at a time");
    let newer = Release { version: "2.0".to_string(), newer: true };
    match u.fetched(Ok(Some(newer)), "1.0", false) {
        UpdateStep::Download(v) => assert_eq!(v, "2.0"),
        other => panic!("{other:?}"),
    }
    assert_eq!(u.label().as_deref(), Some("downloading v2.0…"));
    assert!(matches!(
        u.downloaded("2.0".to_string(), Ok("/tmp/o.dmg".to_string()), false),
        UpdateStep::Nothing
    ));
    assert_eq!(u.label().as_deref(), Some("↓ v2.0 ready — click to install"));
    assert_eq!(u.installable().map(String::as_str), Some("/tmp/o.dmg"));
    assert!(matches!(u.check_for_updates(false), UpdateStep::Nothing));
    match u.check_for_updates(true) {
        UpdateStep::Tell(m) => {
            assert_eq!(m, "update already downloaded — click the button to install")
        }
        other => panic!("{other:?}"),
    }
}

fn told(step: UpdateStep) -> Option<String> {
    match step {
        UpdateStep::Tell(m) => Some(m),
        _ => None,
    }
}

#[test]
fn only_someone_who_asked_is_told() {
    let same = || Release { version: "1.0".to_string(), newer: false };
    let mut u = UpdateState::Checking;
    assert_eq!(told(u.fetched(Ok(Some(same())), "1.0", false)), None);
    assert_eq!(u, UpdateState::Idle);
    assert_eq!(
        told(u.fetched(Ok(Some(same())), "1.0", true)).as_deref(),
        Some("Oxide is up to date (v1.0)")
    );
    assert_eq!(told(u.fetched(Ok(None), "1.0", true)).as_deref(), Some("Oxide is up to date (v1.0)"));
    assert_eq!(told(u.fetched(Err("offline".to_string()), "1.0", true)).as_deref(), Some("offline"));
    let failed = u.downloaded("2.0".to_string(), Err("disk".to_string()), true);
    assert_eq!(told(failed).as_deref(), Some("disk"));
    assert_eq!((u.label(), u.installable()), (None, None));
    assert!(matches!(installed(Ok(()), true), UpdateStep::Quit));
    assert_eq!(
        told(installed(Ok(()), false)).as_deref(),
        Some("not running from an installed app — opened the DMG instead")
    );
    assert_eq!(told(installed(Err("no".to_string()), true)).as_deref(), Some("no"));
}

// --- labels ---

#[test]
fn tabs_are_called_by_their_directory() {
    let home = Some("/home/me");
    assert_eq!(tab_title(Some("/home/me/src"), home), "src");
    assert_eq!(tab_title(Some("/home/me/"), home), "~");
    assert_eq!(tab_title(Some("/"), home), "/");
    assert_eq!(tab_title(None, home), "shell");
    assert!(same_path("/a//b/./c/", "/a/b/c"));
    assert!(!same_path("./a", "a"));
    assert!(!same_path("/a", "a"));
}

#[test]
fn new_panes_start_somewhere() {
    assert_eq!(start_directory(Some("/a"), Some("/h")), "/a");
    assert_eq!(start_directory(None, Some("/h")), "/h");
    assert_eq!(start_directory(None, None), "/");
    assert_eq!(new_tab_cwd(NewTabDirectory::Home, Some("/a"), Some("/h")), "/h");
    assert_eq!(new_tab_cwd(NewTabDirectory::Pwd, Some("/a"), Some("/h")), "/a");
}

#[test]
fn the_status_bar_shortens_home() {
    assert_eq!(status_directory(Some("/home/me/x"), Some("/home/me")), "~/x");
    assert_eq!(status_directory(Some("/etc"), Some("/home/me")), "/etc");
    assert_eq!(status_directory(None, Some("/home/me")), "");
    assert!(status_bar_shown(None, true));
    assert!(!status_bar_shown(Some(false), true));
}

#[test]
fn the_git_label_counts() {
    let mut s = GitStatus { branch: Some("main".to_string()), dirty: true, ahead: 2, behind: 10 };
    assert_eq!(git_label(&s).as_deref(), Some("\u{e0a0} main ● ⇡2 ⇣10"));
    s = GitStatus { dirty: false, ahead: 0, behind: 0, ..s };
    assert_eq!(git_label(&s).as_deref(), Some("\u{e0a0} main"));
    assert_eq!(git_label(&GitStatus::default()), None);
}

// --- overlays ---

fn theme(preset: &str) -> Theme {
    Theme::from_config(&ColorsConfig { preset: Some(preset.to_string()), ..Default::default() })
}

#[test]
fn the_picker_opens_on_the_theme_in_use() {
    let names = preset_names();
    let mut p = ThemePicker::open(Some("nord"), theme("nord"), FocusTarget::Tree);
    assert_eq!(p.name(), "nord");
    p.move_by(1);
    assert_eq!(p.preview().1.preset, p.name());
    let colors = p.preview().0;
    assert_eq!(colors.preset.as_deref(), Some(p.name()));
    assert!(colors.preset_dark.is_none() && colors.preset_light.is_none());
    assert!(!colors.follow_system && colors.red.is_none() && colors.selection_bg.is_none());
    let first = ThemePicker::open(None, theme("nord"), FocusTarget::Tree);
    assert_eq!(first.name(), "catppuccin-mocha");
    let mut unknown = ThemePicker::open(Some("zzz"), theme("nord"), FocusTarget::Tree);
    assert_eq!(unknown.selected, 0);
    unknown.move_by(-1);
    assert_eq!(unknown.name(), *names.last().unwrap());
}

#[test]
fn cancelling_reverts_the_preview() {
    let picker = ThemePicker::open(None, theme("nord"), FocusTarget::Tree);
    let step = cancel(Some(Overlay::ThemePicker(picker)));
    assert_eq!(step.theme.unwrap().preset, "nord");
    assert_eq!(step.focus, Some(FocusTarget::Tree));
    let picker = ThemePicker::open(None, theme("nord"), FocusTarget::Tree);
    assert!(toggle_palette(Some(Overlay::ThemePicker(picker))).open_palette);
    let open = PaletteState::open(FocusTarget::Pane(1), true, &Vec::new(), &Vec::new());
    let step = toggle_palette(Some(Overlay::Palette(open)));
    assert!(!step.open_palette && step.focus == Some(FocusTarget::Pane(1)));
    assert!(toggle_palette(None).open_palette);
}
