use std::collections::HashSet;

use alacritty_terminal::term::search::RegexSearch;

use oxide::config::schema::{ColorsConfig, OptionAsMeta};
use oxide::config::theme::Theme;
use oxide::keymap::keystroke::{Keystroke, Modifiers};
use oxide::terminal::click::{
    classify, resolve_path, shell_quote, single_quote, split_line_col, target_at, token_at,
    ClickTarget, Roots,
};
use oxide::terminal::colors::{
    blend, color_request, hsla_to_rgb8, resolve, shade, CellColor, NamedColor, Shade,
};
use oxide::terminal::commands::{format_duration, CommandLog, LogEvent, Rows};
use oxide::terminal::keys::{prepare_paste, to_bytes, TermMode};
use oxide::terminal::osc::{
    host_name, parse_payload, Marker, MarkerKind, OscScanner, MAX_PAYLOAD,
};
use oxide::terminal::pane::group_thousands;
use oxide::terminal::process::{
    foreground, parse_procargs2, process_name, read_procargs, ssh_host_from_args,
    ForegroundProcess,
};
use oxide::terminal::search::SearchOptions;

// --- click ---

fn chars(s: &str) -> Vec<char> {
    s.chars().collect()
}

#[test]
fn token_extraction_trims_punctuation_and_respects_breaks() {
    let row = chars("error --> src/main.rs:12:9, then (x/y.rs) end");
    let t = token_at(&row, 12).unwrap();
    assert_eq!(t.text, "src/main.rs:12:9");
    assert_eq!((t.start, t.end), (10, 26));
    assert_eq!(token_at(&row, 34).unwrap().text, "x/y.rs");
    assert!(token_at(&row, 5).is_none(), "whitespace is not a token");
    assert_eq!(token_at(&chars("at foo.rs:88,"), 5).unwrap().text, "foo.rs:88");
    assert!(token_at(&[], 0).is_none());
}

fn split(token: &str) -> (String, Option<u32>, Option<u32>) {
    split_line_col(token)
}

#[test]
fn line_and_column_split() {
    assert_eq!(split("src/main.rs:42:8"), ("src/main.rs".to_string(), Some(42), Some(8)));
    assert_eq!(split("src/main.rs:42"), ("src/main.rs".to_string(), Some(42), None));
    assert_eq!(split("src/main.rs"), ("src/main.rs".to_string(), None, None));
    assert_eq!(split("foo:bar"), ("foo:bar".to_string(), None, None));
    assert_eq!(split("C:\\foo"), ("C:\\foo".to_string(), None, None));
    assert_eq!(split("a:1:2:3"), ("a:1".to_string(), Some(2), Some(3)));
    assert_eq!(split(":42"), (":42".to_string(), None, None));
}

#[test]
fn resolution_precedence_cwd_then_git_then_tree() {
    let r = Roots {
        cwd: Some("/w/sub"),
        git_root: Some("/w"),
        tree_root: Some("/t"),
        home: Some("/home/me"),
    };
    let existing: HashSet<&str> =
        ["/w/sub/a.rs", "/w/a.rs", "/w/b.rs", "/t/c.rs", "/home/me/d.rs", "/abs.rs"]
            .into_iter()
            .collect();
    let exists = |p: &str| existing.contains(p);
    let found = |text: &str| resolve_path(text, &r, &exists);
    assert_eq!(found("a.rs").as_deref(), Some("/w/sub/a.rs"), "cwd wins");
    assert_eq!(found("b.rs").as_deref(), Some("/w/b.rs"), "then git root");
    assert_eq!(found("c.rs").as_deref(), Some("/t/c.rs"), "then tree root");
    assert_eq!(found("~/d.rs").as_deref(), Some("/home/me/d.rs"));
    assert_eq!(found("/abs.rs").as_deref(), Some("/abs.rs"));
    assert_eq!(found("nope.rs"), None);
    assert_eq!(found("/nope.rs"), None);
}

#[test]
fn classify_prefers_urls_and_rejects_non_paths() {
    let r = Roots { cwd: Some("/w"), git_root: None, tree_root: None, home: None };
    let exists = |p: &str| p == "/w/src/main.rs";
    assert_eq!(
        classify("https://x.y/z:12", &r, &exists),
        Some(ClickTarget::Url("https://x.y/z:12".into()))
    );
    assert_eq!(
        classify("src/main.rs:42:8", &r, &exists),
        Some(ClickTarget::Path { path: "/w/src/main.rs".into(), line: Some(42), col: Some(8) })
    );
    assert_eq!(classify("foo:bar", &r, &exists), None);
    assert_eq!(
        classify("missing.rs:3", &r, &exists),
        None,
        "a line number on a non-file is nothing"
    );
    assert_eq!(classify("main", &r, &exists), None, "bare words are not tried");
}

#[test]
fn a_hyperlink_wins_over_the_text() {
    let r = Roots { cwd: Some("/w"), git_root: None, tree_root: None, home: None };
    let exists = |p: &str| p == "/w/a.rs";
    let row = chars("see a.rs now");
    let (target, token) = target_at(Some("https://x"), &row, 5, &r, &exists).unwrap();
    assert_eq!(target, ClickTarget::Url("https://x".into()));
    assert_eq!((token.start, token.end), (5, 6));
    let (target, token) = target_at(None, &row, 5, &r, &exists).unwrap();
    assert_eq!(target, ClickTarget::Path { path: "/w/a.rs".into(), line: None, col: None });
    assert_eq!((token.start, token.end), (4, 8));
    assert!(target_at(None, &row, 3, &r, &exists).is_none());
}

#[test]
fn quoting_handles_spaces_quotes_newlines_and_dashes() {
    assert_eq!(shell_quote("a b"), "'a b'");
    assert_eq!(shell_quote("it's"), r"'it'\''s'");
    assert_eq!(shell_quote("x\ny"), "'x\ny'");
    assert_eq!(shell_quote("-rf"), "'./-rf'");
    assert_eq!(shell_quote("plain"), "'plain'");
    assert_eq!(single_quote("-rf"), "'-rf'");
}

// --- colors ---

fn theme() -> Theme {
    Theme::from_config(&ColorsConfig::default())
}

fn rgb(c: Shade) -> (u8, u8, u8) {
    hsla_to_rgb8(c)
}

#[test]
fn truecolor_passthrough() {
    let c = resolve(CellColor::Spec { r: 255, g: 128, b: 0 }, &theme());
    assert_eq!(rgb(c), (255, 128, 0));
}

#[test]
fn indexed_palette_hits_theme() {
    let t = theme();
    assert_eq!(resolve(CellColor::Indexed(1), &t), shade(t.ansi[1]));
    assert_eq!(resolve(CellColor::Indexed(15), &t), shade(t.ansi[15]));
}

#[test]
fn color_cube_corners() {
    let t = theme();
    // 16 = (0,0,0), 231 = (255,255,255), 196 = pure red (5,0,0).
    assert_eq!(rgb(resolve(CellColor::Indexed(16), &t)), (0, 0, 0));
    assert_eq!(rgb(resolve(CellColor::Indexed(231), &t)), (255, 255, 255));
    assert_eq!(rgb(resolve(CellColor::Indexed(196), &t)), (255, 0, 0));
    // 17 = (0,0,95).
    assert_eq!(rgb(resolve(CellColor::Indexed(17), &t)), (0, 0, 95));
}

#[test]
fn grayscale_ramp() {
    let t = theme();
    assert_eq!(rgb(resolve(CellColor::Indexed(232), &t)), (8, 8, 8));
    assert_eq!(rgb(resolve(CellColor::Indexed(255), &t)), (238, 238, 238));
}

#[test]
fn named_semantic_colors() {
    let t = theme();
    assert_eq!(resolve(CellColor::Named(NamedColor::Foreground), &t), shade(t.foreground));
    assert_eq!(resolve(CellColor::Named(NamedColor::Background), &t), shade(t.background));
    assert_eq!(resolve(CellColor::Named(NamedColor::BrightBlue), &t), shade(t.ansi[12]));
}

#[test]
fn blending_goes_all_the_way() {
    let t = theme();
    let (a, b) = (shade(t.foreground), shade(t.background));
    assert_eq!(blend(a, b, 0), a);
    assert_eq!(blend(a, b, 100), Shade { a: a.a, ..b });
}

#[test]
fn programs_can_ask_for_colours() {
    let t = theme();
    assert_eq!(color_request(3, &t), shade(t.ansi[3]));
    assert_eq!(color_request(257, &t), shade(t.background));
    assert_eq!(color_request(258, &t), shade(t.cursor));
    assert_eq!(color_request(256, &t), shade(t.foreground));
}

// --- commands ---

fn m(kind: MarkerKind, row: usize) -> Marker {
    Marker { kind, row, column: 0, alt_screen: false }
}

/// Prompt at `rows.0`; the command line is typed there, so C fires on
/// the row below; D lands at `rows.1`.
fn run(log: &mut CommandLog, text: &str, exit: i32, rows: (usize, usize)) -> u64 {
    let t = 1_000;
    log.on_marker(&m(MarkerKind::PromptStart, rows.0), t);
    log.on_marker(&m(MarkerKind::InputStart, rows.0), t);
    let started = log
        .on_marker(&m(MarkerKind::CommandStart { cmdline: Some(text.into()) }, rows.0 + 1), t)
        .unwrap();
    let LogEvent::Started(id) = started else { panic!() };
    assert!(log.is_running());
    assert_eq!(
        log.on_marker(&m(MarkerKind::CommandEnd { exit: Some(exit) }, rows.1), t),
        Some(LogEvent::Finished(id))
    );
    id
}

#[test]
fn a_full_cycle_records_text_exit_and_rows() {
    let mut log = CommandLog::new(10);
    assert!(!log.markers_seen);
    log.on_marker(&m(MarkerKind::Cwd("/repo".to_string()), 0), 1);
    let id = run(&mut log, "cargo build", 1, (5, 40));
    let cmd = log.get(id).unwrap();
    assert_eq!(cmd.text.as_deref(), Some("cargo build"));
    assert_eq!(cmd.cwd.as_deref(), Some("/repo"));
    assert_eq!(cmd.exit, Some(1));
    assert!(cmd.failed());
    assert_eq!(cmd.prompt_row, Some(5));
    assert_eq!(cmd.output_rows, Some(Rows { start: 6, end: 40 }));
    assert!(!log.is_running());
    assert!(log.markers_seen);
    assert_eq!(log.last_finished().map(|c| c.id), Some(id));
    // Clearing the screen keeps the entry but nothing points at rows.
    log.forget_rows();
    assert_eq!(log.get(id).unwrap().output_rows, None);
    assert_eq!(log.get(id).unwrap().prompt_row, None);
    assert_eq!(log.entries().len(), 1);
}

#[test]
fn a_prompt_without_a_command_end_closes_the_running_command() {
    let mut log = CommandLog::new(10);
    let t = 1;
    log.on_marker(&m(MarkerKind::PromptStart, 1), t);
    log.on_marker(&m(MarkerKind::CommandStart { cmdline: Some("vim".into()) }, 2), t);
    assert!(log.is_running());
    // ctrl-c'd before D: the next prompt arrives directly.
    log.on_marker(&m(MarkerKind::PromptStart, 9), t);
    assert!(!log.is_running());
    let cmd = log.entries().last().unwrap();
    assert!(cmd.finished.is_some());
    assert_eq!(cmd.exit, None);
    assert_eq!(cmd.output_rows, Some(Rows { start: 2, end: 9 }));
}

#[test]
fn stray_command_end_and_alt_screen_markers_are_ignored() {
    let mut log = CommandLog::new(10);
    let t = 1;
    assert_eq!(log.on_marker(&m(MarkerKind::CommandEnd { exit: Some(0) }, 3), t), None);
    let mut alt = m(MarkerKind::CommandStart { cmdline: None }, 3);
    alt.alt_screen = true;
    assert_eq!(log.on_marker(&alt, t), None);
    assert!(log.is_empty());
}

#[test]
fn ring_buffer_caps_entries() {
    let mut log = CommandLog::new(3);
    for i in 0..5 {
        run(&mut log, &format!("cmd{i}"), 0, (i, i + 1));
    }
    let labels: Vec<String> = log.entries().iter().map(|c| c.label()).collect();
    assert_eq!(labels, vec!["cmd2", "cmd3", "cmd4"]);
}

#[test]
fn text_fallback_only_fills_a_gap() {
    let mut log = CommandLog::new(3);
    log.on_marker(&m(MarkerKind::CommandStart { cmdline: None }, 1), 1);
    let id = log.entries().last().unwrap().id;
    log.set_text(id, "   ".into());
    assert_eq!(log.get(id).unwrap().text, None);
    log.set_text(id, "ls -la".into());
    log.set_text(id, "other".into());
    assert_eq!(log.get(id).unwrap().text.as_deref(), Some("ls -la"));
    assert_eq!(log.get(id).unwrap().label(), "ls -la");
}

#[test]
fn durations_format_for_humans() {
    let ms = 1_000_000;
    assert_eq!(format_duration(380 * ms), "380ms");
    assert_eq!(format_duration(4200 * ms), "4.2s");
    assert_eq!(format_duration(134_000 * ms), "2m14s");
    assert_eq!(format_duration(3_720_000 * ms), "1h02m");
}

#[test]
fn a_running_command_counts_up() {
    let mut log = CommandLog::new(3);
    log.on_marker(&m(MarkerKind::CommandStart { cmdline: None }, 1), 100);
    assert_eq!(log.running().unwrap().duration(150), 50);
    assert_eq!(log.running().unwrap().duration(50), 0, "a clock that went back");
    log.on_marker(&m(MarkerKind::CommandEnd { exit: None }, 2), 170);
    assert_eq!(log.entries()[0].duration(999), 70);
    assert!(!log.entries()[0].failed());
}

// --- keys ---

fn ks(s: &str) -> Keystroke {
    let mut modifiers = Modifiers::default();
    let mut name = s;
    loop {
        if let Some(rest) = name.strip_prefix("ctrl-") {
            modifiers.control = true;
            name = rest;
        } else if let Some(rest) = name.strip_prefix("shift-") {
            modifiers.shift = true;
            name = rest;
        } else if let Some(rest) = name.strip_prefix("alt-") {
            modifiers.alt = true;
            name = rest;
        } else if let Some(rest) = name.strip_prefix("cmd-") {
            modifiers.platform = true;
            name = rest;
        } else {
            break;
        }
    }
    Keystroke { modifiers, key: name.to_string(), key_char: None }
}

fn bytes(s: &str, mode: &TermMode, meta: OptionAsMeta) -> Option<Vec<u8>> {
    to_bytes(&ks(s), mode, meta)
}

#[test]
fn ctrl_letters() {
    let mode = TermMode::default();
    assert_eq!(bytes("ctrl-c", &mode, OptionAsMeta::Neither), Some(vec![0x03]));
    assert_eq!(bytes("ctrl-a", &mode, OptionAsMeta::Neither), Some(vec![0x01]));
    assert_eq!(bytes("ctrl-[", &mode, OptionAsMeta::Neither), Some(vec![0x1b]));
}

#[test]
fn enter_is_cr() {
    assert_eq!(bytes("enter", &TermMode::default(), OptionAsMeta::Neither), Some(vec![b'\r']));
}

#[test]
fn arrows_respect_app_cursor_mode() {
    let app = TermMode { app_cursor: true, ..TermMode::default() };
    assert_eq!(
        bytes("up", &TermMode::default(), OptionAsMeta::Neither),
        Some(b"\x1b[A".to_vec())
    );
    assert_eq!(bytes("up", &app, OptionAsMeta::Neither), Some(b"\x1bOA".to_vec()));
    // ctrl-shift-right = CSI 1;6C.
    assert_eq!(
        bytes("ctrl-shift-right", &TermMode::default(), OptionAsMeta::Neither),
        Some(b"\x1b[1;6C".to_vec())
    );
}

#[test]
fn cmd_never_reaches_pty() {
    assert_eq!(bytes("cmd-a", &TermMode::default(), OptionAsMeta::Neither), None);
}

#[test]
fn alt_meta_prefixes_escape() {
    assert_eq!(
        bytes("alt-b", &TermMode::default(), OptionAsMeta::Both),
        Some(vec![0x1b, b'b'])
    );
}

#[test]
fn paste_is_sanitized_and_bracketed() {
    let out = prepare_paste("a\nb\x1b[31m", true);
    assert_eq!(out, b"\x1b[200~a\rb[31m\x1b[201~".to_vec());
}

#[test]
fn a_plain_paste_has_no_brackets() {
    assert_eq!(prepare_paste("a\r\nb", false), prepare_paste("a\nb", false));
    assert_eq!(prepare_paste("é", false), "é".as_bytes().to_vec());
}

// --- search ---

#[test]
fn options_build_the_expected_pattern() {
    let plain = SearchOptions::default();
    assert_eq!(plain.pattern("a.b"), "(?i)a\\.b");
    let re = SearchOptions { regex: true, ..Default::default() };
    assert_eq!(re.pattern("a.b"), "(?i)a.b");
    let word = SearchOptions { whole_word: true, case_sensitive: true, ..Default::default() };
    assert_eq!(word.pattern("Err"), "(?-i)(?-u:\\b)(?:Err)(?-u:\\b)");
    // Every combination compiles, and a broken regex is reported.
    for regex in [false, true] {
        for case in [false, true] {
            for word in [false, true] {
                let o = SearchOptions { regex, case_sensitive: case, whole_word: word };
                assert!(RegexSearch::new(&o.pattern("foo(bar)")).is_ok() || regex, "{o:?}");
            }
        }
    }
    assert!(RegexSearch::new(&re.pattern("foo(")).is_err());
}

#[test]
fn thousands_are_grouped() {
    assert_eq!(group_thousands(0), "0");
    assert_eq!(group_thousands(999), "999");
    assert_eq!(group_thousands(1000), "1,000");
    assert_eq!(group_thousands(2340), "2,340");
    assert_eq!(group_thousands(1234567), "1,234,567");
}

// --- osc ---

fn kinds(scanner: &mut OscScanner, chunk: &[u8]) -> Vec<MarkerKind> {
    scanner.scan(chunk).into_iter().map(|(_, k)| k).collect()
}

fn scanner() -> OscScanner {
    OscScanner::new(None)
}

#[test]
fn recognises_each_marker_with_both_terminators() {
    let mut s = scanner();
    assert_eq!(kinds(&mut s, b"\x1b]133;A\x1b\\"), vec![MarkerKind::PromptStart]);
    assert_eq!(kinds(&mut s, b"\x1b]133;B\x07"), vec![MarkerKind::InputStart]);
    assert_eq!(
        kinds(&mut s, b"\x1b]133;C\x1b\\"),
        vec![MarkerKind::CommandStart { cmdline: None }]
    );
    assert_eq!(
        kinds(&mut s, b"\x1b]133;D;0\x07"),
        vec![MarkerKind::CommandEnd { exit: Some(0) }]
    );
    assert_eq!(
        kinds(&mut s, b"\x1b]133;D;127\x1b\\"),
        vec![MarkerKind::CommandEnd { exit: Some(127) }]
    );
}

#[test]
fn reports_the_offset_just_past_the_terminator() {
    let mut s = scanner();
    let chunk = b"hello\x1b]133;A\x07world";
    let found = s.scan(chunk);
    assert_eq!(found.len(), 1);
    assert_eq!(found[0].0, 13);
    assert_eq!(&chunk[found[0].0..], b"world");
    let chunk = b"\x1b]133;B\x1b\\x";
    let found = s.scan(chunk);
    assert_eq!(found[0].0, 9);
}

#[test]
fn survives_splits_at_every_byte_boundary() {
    let seq = b"prompt\x1b]133;D;1\x1b\\tail";
    for split in 0..seq.len() {
        let mut s = scanner();
        let mut got = kinds(&mut s, &seq[..split]);
        got.extend(kinds(&mut s, &seq[split..]));
        assert_eq!(got, vec![MarkerKind::CommandEnd { exit: Some(1) }], "split at {split}");
    }
}

#[test]
fn missing_or_bad_exit_code_is_none_not_a_panic() {
    let mut s = scanner();
    for seq in [&b"\x1b]133;D\x07"[..], b"\x1b]133;D;\x07", b"\x1b]133;D;abc\x07"] {
        assert_eq!(kinds(&mut s, seq), vec![MarkerKind::CommandEnd { exit: None }]);
    }
}

#[test]
fn cmdline_is_extracted_including_semicolons() {
    let mut s = scanner();
    assert_eq!(
        kinds(&mut s, b"\x1b]133;C;cmdline=cargo build; echo done\x07"),
        vec![MarkerKind::CommandStart { cmdline: Some("cargo build; echo done".into()) }]
    );
    assert_eq!(
        kinds(&mut s, b"\x1b]133;C;cmdline=\x07"),
        vec![MarkerKind::CommandStart { cmdline: None }]
    );
}

#[test]
fn ignores_unrelated_and_malformed_sequences() {
    let mut s = scanner();
    assert!(kinds(&mut s, b"\x1b]0;title\x07").is_empty());
    assert!(kinds(&mut s, b"\x1b]133;Z\x07").is_empty());
    assert!(kinds(&mut s, b"\x1b[31mred\x1b[0m").is_empty());
    // CAN aborts; the next real marker still parses.
    assert_eq!(
        kinds(&mut s, b"\x1b]133;A\x18\x1b]133;B\x07"),
        vec![MarkerKind::InputStart]
    );
    // An unterminated OSC followed by a fresh `ESC ]` starts over.
    assert_eq!(kinds(&mut s, b"\x1b]133;A\x1b]133;B\x07"), vec![MarkerKind::InputStart]);
    // A control character inside the payload is dropped, like vte does.
    assert_eq!(
        kinds(&mut s, b"\x1b]133;C;cmdline=a\nb\x07"),
        vec![MarkerKind::CommandStart { cmdline: Some("ab".into()) }]
    );
}

#[test]
fn overlong_payload_is_dropped_and_scanner_recovers() {
    let mut s = scanner();
    let mut junk = b"\x1b]133;C;cmdline=".to_vec();
    junk.extend(std::iter::repeat_n(b'x', MAX_PAYLOAD + 10));
    junk.extend_from_slice(b"\x07\x1b]133;A\x07");
    assert_eq!(kinds(&mut s, &junk), vec![MarkerKind::PromptStart]);
}

#[test]
fn cwd_accepts_local_hosts_and_decodes_percent_escapes() {
    let cwd = |p: &str| Some(MarkerKind::Cwd(p.to_string()));
    let mine = Some("my-box.local");
    assert_eq!(parse_payload(b"7;file:///Users/x/a%20b", mine), cwd("/Users/x/a b"));
    assert_eq!(parse_payload(b"7;file://localhost/tmp", mine), cwd("/tmp"));
    assert_eq!(parse_payload(b"7;file://my-box.local/tmp", mine), cwd("/tmp"));
    assert_eq!(parse_payload(b"7;file://build-box.example.com/srv", mine), None);
    assert_eq!(parse_payload(b"7;/no/scheme", mine), None);
}

#[test]
fn notifications_from_osc_9_and_777() {
    assert_eq!(
        parse_payload(b"9;Build finished", None),
        Some(MarkerKind::Notify { title: None, body: "Build finished".into() })
    );
    assert_eq!(parse_payload(b"9;4;1;50", None), None, "progress reports are not notifications");
    assert_eq!(
        parse_payload(b"777;notify;Deploy;All green", None),
        Some(MarkerKind::Notify { title: Some("Deploy".into()), body: "All green".into() })
    );
    assert_eq!(parse_payload(b"777;other;x;y", None), None);
}

#[test]
fn the_host_name_ends_at_the_first_zero() {
    assert_eq!(host_name(b"box\0\0junk"), Some("box".to_string()));
    assert_eq!(host_name(b"box"), Some("box".to_string()));
    assert_eq!(host_name(b"\xff\0"), None);
}

// --- process ---

fn args(s: &str) -> Vec<String> {
    s.split_whitespace().map(str::to_string).collect()
}

fn host(line: &str) -> Option<String> {
    ssh_host_from_args(&args(line))
}

#[test]
fn ssh_host_is_the_first_positional() {
    assert_eq!(host("ssh prod-web-01").as_deref(), Some("prod-web-01"));
    assert_eq!(host("ssh deploy@prod-web-01").as_deref(), Some("prod-web-01"));
    assert_eq!(host("ssh -p 2222 -i ~/.ssh/id host uptime").as_deref(), Some("host"));
    assert_eq!(host("ssh -p2222 host").as_deref(), Some("host"));
    assert_eq!(host("ssh -4vp 22 host").as_deref(), Some("host"));
    assert_eq!(
        host("ssh -A -t -o StrictHostKeyChecking=no bastion").as_deref(),
        Some("bastion")
    );
    assert_eq!(host("ssh -J jump@bastion target").as_deref(), Some("target"));
    assert_eq!(host("ssh ssh://me@box.example.com:22/").as_deref(), Some("box.example.com"));
    assert_eq!(host("ssh -- -weird").as_deref(), Some("-weird"));
    assert_eq!(host("ssh -V"), None);
    assert_eq!(host("ssh"), None);
}

#[test]
fn procargs2_layout_parses() {
    let mut buf = Vec::new();
    buf.extend_from_slice(&3i32.to_ne_bytes());
    buf.extend_from_slice(b"/usr/bin/ssh\0\0\0");
    buf.extend_from_slice(b"ssh\0-p\0host\0HOME=/x\0");
    assert_eq!(parse_procargs2(&buf).unwrap(), args("ssh -p host"));
    assert!(parse_procargs2(b"\0\0").is_none());
    assert_eq!(read_procargs(&buf, 2).unwrap(), args("ssh -p"));
    assert!(read_procargs(&buf, -1).unwrap().is_empty());
}

#[test]
fn shells_are_recognised() {
    let shell = ForegroundProcess { name: "-zsh".into(), ssh_host: None };
    assert!(shell.is_shell());
    assert!(ForegroundProcess { name: "bash".into(), ssh_host: None }.is_shell());
    let vim = ForegroundProcess { name: "vim".into(), ssh_host: None };
    assert!(!vim.is_shell());
    assert_eq!(vim.label(), "vim");
    let ssh = ForegroundProcess { name: "ssh".into(), ssh_host: Some("prod".into()) };
    assert_eq!(ssh.label(), "ssh prod");
}

#[test]
fn only_ssh_has_a_host() {
    let ssh = foreground(7, Some("ssh".to_string()), Some(args("ssh me@box"))).unwrap();
    assert_eq!(ssh.ssh_host.as_deref(), Some("box"));
    let vim = foreground(7, Some("vim".to_string()), Some(args("vim me@box"))).unwrap();
    assert_eq!(vim.ssh_host, None);
    assert!(foreground(0, Some("vim".to_string()), None).is_none());
    assert!(foreground(7, None, None).is_none());
}

#[test]
fn the_long_process_name_wins() {
    assert_eq!(
        process_name(b"my-long-program", b"my-long-pro"),
        Some("my-long-program".to_string())
    );
    assert_eq!(process_name(b"", b"zsh"), Some("zsh".to_string()));
}
