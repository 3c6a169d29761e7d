use oxide::config::schema::{BellMode, ColorsConfig, FontWeightName, NotificationsConfig};
use oxide::config::theme::Theme;
use oxide::keymap::keystroke::{Keystroke, Modifiers};
use oxide::startup::{OnExit, StartupCommand};
use oxide::terminal::colors::{shade, CellColor, NamedColor};
use oxide::terminal::commands::{CommandLog, Rows};
use oxide::terminal::event_loop::{
    drain_channel, place_marker, slices, sync_timed_out, LockStep, Msg, ReadEvent, ReadState,
    ReadStep, WriteEvent, WriteQueue, WriteStep, MAX_LOCKED_READ, READ_BUFFER_SIZE,
};
use oxide::terminal::grid::{
    layout_cursor, layout_row, screen_row, selection_contains, shape_row, CellFlags, CellSnap,
    CursorShape, CursorState, GridPoint, SelectionRange,
};
use oxide::terminal::keys::TermMode;
use oxide::terminal::launch::{Launch, LaunchStep, StartupPhase};
use oxide::terminal::osc::{Marker, MarkerKind};
use oxide::terminal::pane::{
    blink_interval, blink_tick, cd_command, cd_trigger, command_line_span, copy_block,
    exited_label, gutter_marks, handle_event, insert_path, marks_prompt, mouse_report, on_press,
    output_span, output_text, passes_notifications, prompt_down, prompt_up, push_prompt_mark,
    route_key, run_text, scroll_to_row, scrolled_label, shell_supports_widgets, throttle,
    trusted_answer, typed_text, wheel, GridLines, GutterState, KeyRoute, MarkerNews,
    MarkerSettings, PaneEffect, PollStep, Press, TermEvent, Tracker, WheelAction,
};
use oxide::terminal::search::{
    regex_escape, scroll_to_match, search_again, step_point, Direction, GridSize, Match,
    SearchAction, SearchGround, SearchOptions, SearchPlan, SearchState,
};
use oxide::terminal::session::{
    foreground_cwd, is_posix_shell, resolve_shell, session_env, shell_name, TermSize,
};
use oxide::terminal::vi::{
    enter_copy_mode, indicator, toggle_selection, vi_mode, Selected, SelectionKind, ViAction,
    ViModeKind, ViMotion, ViState,
};

fn theme() -> Theme {
    Theme::from_config(&ColorsConfig::default())
}

fn key(name: &str, text: Option<&str>) -> Keystroke {
    Keystroke {
        modifiers: Modifiers::default(),
        key: name.to_string(),
        key_char: text.map(str::to_string),
    }
}

fn at(line: i32, column: usize) -> GridPoint {
    GridPoint { line, column }
}

// --- grid ---

fn cell(c: char) -> CellSnap {
    CellSnap {
        c,
        zerowidth: None,
        fg: CellColor::Named(NamedColor::Foreground),
        bg: CellColor::Named(NamedColor::Background),
        flags: CellFlags::default(),
    }
}

#[test]
fn coloured_cells_make_one_span() {
    let t = theme();
    let mut row: Vec<CellSnap> = "abcd".chars().map(cell).collect();
    row[1].bg = CellColor::Indexed(1);
    row[2].bg = CellColor::Indexed(1);
    let spans = layout_row(&row, &t, None, 0);
    assert_eq!(spans.background.len(), 1);
    assert_eq!((spans.background[0].start, spans.background[0].end), (1, 3));
    assert_eq!(spans.background[0].color, shade(t.ansi[1]));
    assert!(spans.selection.is_empty());
}

#[test]
fn a_selection_is_drawn_where_it_is() {
    let row: Vec<CellSnap> = "abcd".chars().map(cell).collect();
    let range = SelectionRange { start: at(0, 2), end: at(1, 1), is_block: false };
    let first = layout_row(&row, &theme(), Some(range.clone()), 0);
    assert_eq!((first.selection[0].start, first.selection[0].end), (2, 4));
    let second = layout_row(&row, &theme(), Some(range.clone()), 1);
    assert_eq!((second.selection[0].start, second.selection[0].end), (0, 2));
    assert!(selection_contains(&range, at(0, 3)) && !selection_contains(&range, at(0, 1)));
    let block = SelectionRange { is_block: true, start: at(0, 1), end: at(1, 1) };
    assert!(selection_contains(&block, at(0, 1)) && !selection_contains(&block, at(0, 3)));
}

#[test]
fn a_row_is_shaped_into_runs() {
    let mut row: Vec<CellSnap> = "ab c  ".chars().map(cell).collect();
    row[0].flags.bold = true;
    let runs = shape_row(&row, &theme(), FontWeightName::Normal).unwrap();
    let texts: Vec<String> = runs.iter().map(|r| r.text.iter().collect()).collect();
    assert_eq!(texts, ["a", "b c"]);
    let blank: Vec<CellSnap> = "   ".chars().map(cell).collect();
    assert!(shape_row(&blank, &theme(), FontWeightName::Normal).is_none());
}

#[test]
fn the_cursor_is_hollow_without_focus() {
    let rows = vec!["ab".chars().map(cell).collect::<Vec<_>>()];
    let cursor =
        CursorState { point: at(0, 1), shape: CursorShape::Block, shown: true, blinking: false };
    let c = layout_cursor(&cursor, &rows, 0, true, true, false).unwrap();
    assert_eq!((c.row, c.column, c.shape), (0, 1, CursorShape::Block));
    let c = layout_cursor(&cursor, &rows, 0, false, true, false).unwrap();
    assert_eq!(c.shape, CursorShape::HollowBlock);
    assert!(layout_cursor(&cursor, &rows, 5, true, true, false).is_none(), "scrolled away");
    assert!(layout_cursor(&cursor, &rows, 0, true, true, true).is_none(), "the shell is gone");
    assert_eq!(screen_row(-2, 3, 10), Some(1));
    assert_eq!(screen_row(-2, 1, 10), None);
}

// --- the PTY loop ---

#[test]
fn bytes_are_written_in_order() {
    let mut q = WriteQueue::new();
    let size = TermSize { columns: 80, screen_lines: 24, cell_width: 8, cell_height: 16 };
    let (sizes, on) = drain_channel(
        &mut q,
        vec![
            Msg::Input(b"ab".to_vec()),
            Msg::Resize(size.window_size()),
            Msg::Input(Vec::new()),
            Msg::Input(b"cd".to_vec()),
        ],
    );
    assert!(on && sizes.len() == 1 && sizes[0].num_cols == 80 && sizes[0].num_lines == 24);
    let mut out: Vec<u8> = Vec::new();
    loop {
        q.ensure_next();
        let Some(rest) = q.remaining() else { break };
        out.push(rest[0]);
        assert_eq!(q.on_write(WriteEvent::Wrote(1)), WriteStep::Again);
    }
    assert_eq!(out, b"abcd");
    assert!(!q.needs_write());
    let (_, on) = drain_channel(&mut q, vec![Msg::Shutdown, Msg::Input(b"x".to_vec())]);
    assert!(!on);
}

#[test]
fn a_full_pty_is_waited_for() {
    let mut q = WriteQueue::new();
    q.push(b"ab".to_vec());
    q.ensure_next();
    assert_eq!(q.on_write(WriteEvent::Blocked), WriteStep::Wait);
    assert_eq!(q.on_write(WriteEvent::Wrote(0)), WriteStep::Wait);
    assert_eq!(q.on_write(WriteEvent::Failed), WriteStep::Fail);
    assert_eq!(q.remaining(), Some(&b"ab"[..]));
}

#[test]
fn reading_stops_after_a_while() {
    let mut r = ReadState::new();
    assert_eq!(r.on_read(ReadEvent::Blocked), ReadStep::Stop);
    assert_eq!(r.on_read(ReadEvent::Got(10)), ReadStep::Lock);
    assert_eq!(r.on_lock(false), LockStep::ReadOn);
    assert_eq!(r.on_lock(true), LockStep::Parse);
    assert!(r.on_parsed());
    assert!(r.redraws(3) && !r.redraws(10));
    assert_eq!(r.on_read(ReadEvent::Got(READ_BUFFER_SIZE)), ReadStep::Lock);
    assert_eq!(r.on_lock(false), LockStep::WaitForLock);
    assert_eq!(r.on_parsed(), 10 + READ_BUFFER_SIZE < MAX_LOCKED_READ);
    assert_eq!(ReadState::new().on_read(ReadEvent::Failed), ReadStep::Fail);
    assert!(sync_timed_out(true, false) && !sync_timed_out(true, true));
}

#[test]
fn chunks_are_cut_at_the_markers() {
    assert_eq!(slices(&vec![3, 7], 9), [(0, 3), (3, 7), (7, 9)]);
    assert_eq!(slices(&Vec::new(), 4), [(0, 4)]);
    let m = place_marker(MarkerKind::PromptStart, 100, 5, 2, false);
    assert_eq!((m.row, m.column), (105, 2));
    assert_eq!(place_marker(MarkerKind::PromptStart, 100, -1, 2, false).row, 100);
}

// --- copy mode ---

fn vi(state: &mut ViState, text: &str) -> ViAction {
    state.handle_vi_key(&key(text, Some(text)), 24, None)
}

#[test]
fn counts_and_sequences() {
    let mut s = ViState::default();
    assert_eq!(vi(&mut s, "1"), ViAction::Redraw);
    assert_eq!(vi(&mut s, "2"), ViAction::Redraw);
    assert_eq!(s.count, Some(12));
    assert_eq!(vi(&mut s, "j"), ViAction::Move { motion: ViMotion::Down, times: 12 });
    assert_eq!(s.count, None);
    assert_eq!(vi(&mut s, "g"), ViAction::Redraw);
    assert_eq!(vi(&mut s, "g"), ViAction::GotoTop);
    vi(&mut s, "y");
    assert_eq!(vi(&mut s, "y"), ViAction::YankLine);
    assert_eq!(vi(&mut s, "G"), ViAction::GotoBottom);
    assert_eq!(vi(&mut s, "v"), ViAction::ToggleSelection(SelectionKind::Simple));
    assert_eq!(vi(&mut s, "/"), ViAction::OpenSearch { forward: true });
    assert_eq!(vi(&mut s, "n"), ViAction::SearchAgain { reverse: false });
    assert_eq!(vi(&mut s, "0"), ViAction::Move { motion: ViMotion::First, times: 1 });
    let mut cmd = key("c", Some("c"));
    cmd.modifiers.platform = true;
    assert_eq!(s.handle_vi_key(&cmd, 24, None), ViAction::Ignore);
}

#[test]
fn copy_mode_needs_the_primary_screen() {
    assert!(enter_copy_mode(false, true, false).is_ok());
    assert!(enter_copy_mode(false, true, true).is_err());
    let lines = Selected { kind: SelectionKind::Lines, empty: false };
    assert_eq!(vi_mode(None), ViModeKind::Normal);
    assert_eq!(vi_mode(Some(lines.clone())), ViModeKind::VisualLine);
    assert_eq!(toggle_selection(None, SelectionKind::Block), Some(SelectionKind::Block));
    assert_eq!(toggle_selection(Some(lines), SelectionKind::Lines), None);
    assert!(indicator(ViModeKind::Normal, Some(12)).contains("12"));
}

// --- search ---

#[test]
fn a_plain_query_is_escaped() {
    assert_eq!(regex_escape("a.b*c(d)"), "a\\.b\\*c\\(d\\)");
    assert_eq!(regex_escape("plain"), "plain");
    let mut o = SearchOptions::default();
    o.toggle(0);
    o.toggle(2);
    assert!(o.regex && o.whole_word && !o.case_sensitive);
}

fn ground() -> SearchGround {
    SearchGround {
        size: GridSize { topmost: -10, bottommost: 23, last_column: 79 },
        vi_cursor: at(0, 0),
        bottom: at(23, 79),
    }
}

#[test]
fn a_broken_pattern_is_marked_invalid() {
    let mut s = SearchState::open(None);
    let typed = s.handle_search_key(&key("(", Some("(")));
    assert!(matches!(typed, SearchAction::Run { from_current: false, .. }));
    let re = SearchOptions { regex: true, ..Default::default() };
    let plan = s.run_search(&re, Direction::Left, false, &ground());
    assert!(matches!(plan, SearchPlan::Clear) && s.invalid);
    assert_eq!(s.hint(), "invalid pattern");
    let plan = s.run_search(&SearchOptions::default(), Direction::Left, false, &ground());
    match plan {
        SearchPlan::Find { pattern, .. } => assert_eq!(pattern, "(?i)\\("),
        SearchPlan::Clear => panic!("a plain parenthesis can be found"),
    }
    assert!(!s.invalid);
    s.found(Some(Match { start: at(3, 1), end: at(3, 1) }));
    assert!(s.is_ok());
    assert_eq!(s.hint(), "⏎ older  ⇧⏎ newer  esc");
    assert!(matches!(s.handle_search_key(&key("escape", None)), SearchAction::Close));
}

#[test]
fn a_search_in_copy_mode_is_remembered() {
    let mut s = SearchState::open(Some(Direction::Right));
    s.handle_search_key(&key("a", Some("a")));
    s.begin(&SearchOptions::default(), true, Direction::Right, false, &ground());
    s.found(Some(Match { start: at(2, 4), end: at(2, 4) }));
    let (point, last) = s.accept(&SearchOptions::default());
    assert_eq!(point, Some(at(2, 4)));
    assert_eq!(last, Some(("(?i)a".to_string(), Direction::Right)));
    let size = ground().size;
    assert_eq!(search_again(Direction::Right, false, at(2, 4), &size), (at(2, 5), Direction::Right));
    assert_eq!(search_again(Direction::Right, true, at(2, 0), &size), (at(1, 79), Direction::Left));
    assert_eq!(step_point(at(23, 79), Direction::Right, &size), at(23, 79), "the end holds");
    assert_eq!(step_point(at(-10, 0), Direction::Left, &size), at(-10, 0));
    assert_eq!(scroll_to_match(5, 24, 0, 100), None, "in view");
    assert!(scroll_to_match(-50, 24, 0, 100).unwrap() > 0);
}

// --- startup commands ---

fn launch(on_exit: OnExit) -> Launch {
    let mut l = Launch::new();
    l.command = Some(StartupCommand { command: "npm start".to_string(), on_exit });
    l
}

#[test]
fn a_startup_command_runs_once_the_shell_is_ready() {
    let mut l = launch(OnExit::Close);
    let generation = l.arm().unwrap();
    assert_eq!(l.startup_chip().as_deref(), Some("▸ npm start"));
    assert!(matches!(l.on_shell_ready(true, 5), LaunchStep::Run));
    assert_eq!(l.phase, StartupPhase::AwaitingStart);
    assert!(l.on_timeout(generation, 10).is_none(), "it was ready in time");
    let start = MarkerKind::CommandStart { cmdline: None };
    l.track_startup_marker(&start, true, 6);
    assert_eq!(l.phase, StartupPhase::Running);
    let end = MarkerKind::CommandEnd { exit: Some(0) };
    assert!(matches!(l.track_startup_marker(&end, true, 7), LaunchStep::Close));
}

#[test]
fn a_failing_command_is_restarted_with_a_delay() {
    let mut l = launch(OnExit::Restart);
    l.arm();
    l.on_shell_ready(true, 5);
    l.track_startup_marker(&MarkerKind::CommandStart { cmdline: None }, true, 6);
    match l.track_startup_marker(&MarkerKind::CommandEnd { exit: Some(1) }, true, 7) {
        LaunchStep::RestartAfter { delay, generation } => {
            assert_eq!(delay, 1_000_000_000);
            assert_eq!(l.startup_chip().as_deref(), Some("↻ npm start"));
            assert!(matches!(l.on_restart_timer(generation + 1, false, true, 8), LaunchStep::Nothing));
            assert!(matches!(l.on_restart_timer(generation, false, true, 8), LaunchStep::Run));
        }
        _ => panic!("no restart"),
    }
}

#[test]
fn a_shell_that_is_never_ready_is_given_up() {
    let mut l = launch(OnExit::Shell);
    let generation = l.arm().unwrap();
    assert_eq!(l.on_timeout(generation + 1, 10_000_000_000), None);
    let notice = l.on_timeout(generation, 10_000_000_000).unwrap();
    assert!(notice.starts_with("startup command skipped"), "{notice}");
    assert_eq!(l.phase, StartupPhase::Done);
    assert!(Launch::new().arm().is_none());
}

// --- markers ---

fn settings() -> MarkerSettings {
    MarkerSettings { notify: true, track: true, uses_markers: true }
}

fn marker(kind: MarkerKind, row: usize) -> Marker {
    Marker { kind, row, column: 0, alt_screen: false }
}

#[test]
fn markers_become_news() {
    let mut t = Tracker::new("/w".to_string(), 10);
    let (_, news) = t.handle_marker(&marker(MarkerKind::Cwd("/x".to_string()), 0), &settings(), 1);
    assert!(matches!(news, MarkerNews::CwdChanged(p) if p == "/x"));
    assert_eq!(t.cwd.as_deref(), Some("/x"));
    t.handle_marker(&marker(MarkerKind::PromptStart, 3), &settings(), 1);
    assert_eq!(t.prompt_marks, [3]);
    let start = MarkerKind::CommandStart { cmdline: None };
    let (_, news) = t.handle_marker(&marker(start, 4), &settings(), 1);
    let id = match news {
        MarkerNews::Started { id, read_line } => {
            assert!(read_line);
            id
        }
        _ => panic!("not started"),
    };
    t.line_read(id, Some("ls".to_string()));
    let end = MarkerKind::CommandEnd { exit: Some(2) };
    let (_, news) = t.handle_marker(&marker(end, 6), &settings(), 5);
    match news {
        MarkerNews::Finished { label, exit, duration } => {
            assert_eq!((label.as_str(), exit, duration), ("ls", Some(2), 4))
        }
        _ => panic!("not finished"),
    }
    let marks = gutter_marks(&t.log);
    assert_eq!((marks[0].row, &marks[0].state), (3, &GutterState::Failed));
}

#[test]
fn notifications_can_be_switched_off() {
    let mut t = Tracker::new("/w".to_string(), 10);
    let note = || MarkerKind::Notify { title: None, body: "hi".to_string() };
    let (_, news) = t.handle_marker(&marker(note(), 0), &settings(), 1);
    assert!(matches!(news, MarkerNews::Notify { body, .. } if body == "hi"));
    let off = MarkerSettings { notify: false, ..settings() };
    let (_, news) = t.handle_marker(&marker(note(), 0), &off, 1);
    assert!(matches!(news, MarkerNews::Quiet));
    let config = NotificationsConfig { enabled: false, ..NotificationsConfig::default() };
    assert!(!passes_notifications(&config));
}

#[test]
fn prompts_are_jumped_between() {
    let mut marks = Vec::new();
    for row in [10, 50, 50, 90] {
        push_prompt_mark(&mut marks, row);
    }
    assert_eq!(marks, [10, 50, 90]);
    assert_eq!(prompt_up(&marks, 100, 0), Some(10));
    assert_eq!(prompt_up(&marks, 100, 10), Some(50));
    assert_eq!(prompt_up(&marks, 100, 90), None);
    assert_eq!(prompt_down(&marks, 100, 90), Some(50));
    assert_eq!(prompt_down(&marks, 100, 5), Some(0));
    assert_eq!(prompt_down(&marks, 100, 0), None);
    assert_eq!(scroll_to_row(40, 100), 60);
    assert_eq!(scroll_to_row(140, 100), 0);
}

#[test]
fn commands_are_read_off_the_grid() {
    let lines = GridLines { history: 100, topmost: -100, bottommost: 23, last_column: 79 };
    let span = command_line_span(Some((95, 4)), 97, &lines).unwrap();
    assert_eq!((span.start, span.end), (at(-5, 4), at(-4, 79)));
    assert!(command_line_span(None, 97, &lines).is_none());
    let span = output_span(Some(Rows { start: 97, end: 120 }), &lines).unwrap();
    assert_eq!((span.start, span.end), (at(-3, 0), at(19, 79)));
    assert!(output_span(Some(Rows { start: 97, end: 97 }), &lines).is_none());
    assert_eq!(typed_text("  ls \n"), Some("ls".to_string()));
    assert_eq!(typed_text("  "), None);
    assert_eq!(output_text(" a\n\n"), Some(" a".to_string()));
    assert_eq!(
        copy_block(&Some("ls".to_string()), &Some("a".to_string())),
        Some("$ ls\na\n".to_string())
    );
    assert_eq!(copy_block(&None, &None), None);
    assert!(gutter_marks(&CommandLog::new(3)).is_empty());
}

// --- what is sent to the shell ---

#[test]
fn paths_are_typed_relative_and_quoted() {
    assert_eq!(insert_path("/w/a b", Some("/w"), false), "'a b' ");
    assert_eq!(insert_path("/w", Some("/w"), false), "'.' ");
    assert_eq!(insert_path("/w/a b", Some("/w"), true), "'/w/a b' ");
    assert_eq!(insert_path("/x", Some("/w"), false), "'/x' ");
    assert_eq!(insert_path("/w//b", Some("/w"), false), "'b' ");
    assert_eq!(insert_path("/w", Some("/w/"), false), "'.' ");
    assert_eq!(insert_path("/w/./a//b/", Some("//w"), false), "'a//b' ");
    assert_eq!(insert_path("/wx/a", Some("/w"), false), "'/wx/a' ");
    assert_eq!(insert_path("w/a", Some("/w"), false), "'w/a' ");
    assert_eq!(insert_path("/a", Some("/"), false), "'a' ");
    assert_eq!(insert_path("/", Some("/"), false), "'.' ");
    assert_eq!(insert_path("/a/.", Some(""), false), "'/a' ");
    assert_eq!(insert_path("/", Some(""), false), "'/' ");
    assert_eq!(cd_command("/it's"), "cd '/it'\\''s'\r");
    assert_eq!(cd_trigger("/bin/bash"), "\x1b[9001~\r");
    assert_eq!(cd_trigger("/bin/zsh"), "\x1b[9001~");
    assert_eq!(run_text("ls", false), "ls\r");
    assert_eq!(run_text("ls", true), "\x1b[9002~");
    assert!(shell_supports_widgets("/bin/zsh") && !shell_supports_widgets("/bin/fish"));
}

#[test]
fn the_mouse_is_reported() {
    let m = Modifiers::default();
    assert_eq!(mouse_report(0, 4, 9, true, &m, true), b"\x1b[<0;5;10M");
    assert_eq!(mouse_report(0, 4, 9, false, &m, true), b"\x1b[<0;5;10m");
    assert_eq!(mouse_report(0, 4, 9, true, &m, false), b"\x1b[M\x20\x25\x2a");
    assert_eq!(mouse_report(0, 300, 9, true, &m, false), b"");
}

#[test]
fn the_wheel_scrolls_or_types() {
    let mut mode = TermMode::default();
    assert!(matches!(wheel(3, &mode, false), WheelAction::Scroll(3)));
    mode.mouse_report_click = true;
    assert!(matches!(wheel(-2, &mode, false), WheelAction::Report { button: 65, times: 2 }));
    assert!(matches!(wheel(-2, &mode, true), WheelAction::Scroll(-2)));
    mode = TermMode { alt_screen: true, alternate_scroll: true, ..TermMode::default() };
    assert!(matches!(wheel(2, &mode, false), WheelAction::Keys(b) if b == b"\x1b[A\x1b[A"));
}

#[test]
fn clicks_select_or_open() {
    let mode = TermMode::default();
    assert!(matches!(on_press(true, false, &mode, 1), Press::Open));
    assert!(matches!(on_press(false, false, &mode, 2), Press::Select(SelectionKind::Semantic)));
    assert!(matches!(on_press(false, false, &mode, 3), Press::Select(SelectionKind::Lines)));
    let mouse = TermMode { mouse_motion: true, ..mode };
    assert!(matches!(on_press(false, false, &mouse, 1), Press::Report));
    assert!(matches!(on_press(false, true, &mouse, 1), Press::Select(SelectionKind::Simple)));
}

#[test]
fn polls_are_spaced_out() {
    assert!(matches!(throttle(10, 10, false), PollStep::Now));
    assert!(matches!(throttle(4, 10, false), PollStep::Later(6)));
    assert!(matches!(throttle(4, 10, true), PollStep::Wait));
    assert_eq!((blink_interval(1), blink_interval(530), blink_interval(9999)), (100, 530, 5000));
    assert!(blink_tick(true, 1, 500) && !blink_tick(true, 900, 500) && blink_tick(false, 900, 500));
    assert_eq!(trusted_answer(Some((true, 0))), Some(true));
    assert_eq!(trusted_answer(Some((true, u64::MAX))), None);
    assert_eq!(trusted_answer(None), None);
}

#[test]
fn labels_over_the_grid() {
    assert_eq!(scrolled_label(1234), "▲ 1,234 lines above");
    assert_eq!(exited_label(Some(-1)), "[process exited with code -1] — press ⏎ to restart");
    assert_eq!(exited_label(None), "[process exited] — press ⏎ to restart");
}

#[test]
fn keys_go_to_whoever_is_in_front() {
    assert!(matches!(route_key(true, true, true, true), KeyRoute::Search));
    assert!(matches!(route_key(false, true, true, true), KeyRoute::CopyMode));
    assert!(matches!(route_key(false, false, true, true), KeyRoute::Restart));
    assert!(matches!(route_key(false, false, true, false), KeyRoute::Nobody));
    assert!(matches!(route_key(false, false, false, false), KeyRoute::Shell));
    assert!(marks_prompt(&key("enter", None), false, false));
    assert!(!marks_prompt(&key("enter", None), false, true));
}

#[test]
fn terminal_events_have_effects() {
    let t = theme();
    let effects = handle_event(TermEvent::Bell, false, BellMode::Visual, &t);
    assert!(matches!(effects[..], [PaneEffect::Flash]));
    assert!(handle_event(TermEvent::Bell, false, BellMode::Silent, &t).is_empty());
    let effects = handle_event(TermEvent::Title("x".to_string()), false, BellMode::Silent, &t);
    assert!(matches!(&effects[..], [PaneEffect::SetTitle(s)] if s == "x"));
    let effects = handle_event(TermEvent::ChildExit(Some(3)), false, BellMode::Silent, &t);
    assert!(effects.iter().any(|e| matches!(e, PaneEffect::Exited(Some(3)))));
}

// --- sessions ---

#[test]
fn shells_are_resolved_and_named() {
    assert_eq!(resolve_shell(Some("/bin/fish"), Some("/bin/zsh".to_string())), "/bin/fish");
    assert_eq!(resolve_shell(None, Some("/bin/bash".to_string())), "/bin/bash");
    assert_eq!(resolve_shell(None, None), "/bin/zsh");
    assert_eq!(shell_name("/opt/homebrew/bin/bash-5.2"), "bash-5.2");
    assert!(is_posix_shell("/opt/homebrew/bin/bash-5.2") && !is_posix_shell("/usr/bin/fish"));
    assert_eq!(foreground_cwd(4, b"/w"), Some("/w".to_string()));
    assert_eq!(foreground_cwd(0, b"/w"), None);
    assert_eq!(foreground_cwd(4, b""), None);
}

#[test]
fn a_session_knows_its_terminal() {
    let env = session_env(vec![("TERM".to_string(), "dumb".to_string())], "1.2", false);
    let get = |name: &str| env.iter().find(|(k, _)| k == name).map(|(_, v)| v.as_str());
    assert_eq!(get("TERM"), Some("xterm-256color"));
    assert_eq!(get("COLORTERM"), Some("truecolor"));
    assert_eq!(get("OXIDE_VERSION"), Some("1.2"));
    assert_eq!(get("LANG"), Some("en_US.UTF-8"));
    assert!(!session_env(Vec::new(), "1.2", true).iter().any(|(k, _)| k == "LANG"));
}
