use oxide::focus::FocusTarget;
use oxide::keymap::keystroke::{Keystroke, Modifiers};
use oxide::keymap::registry::{all, ActionContext};
use oxide::overlay::{
    focus_for, highlighted_ranges, palette_candidates, remember, PaletteState, PALETTE_RECENT,
    PALETTE_ROWS,
};
use oxide::palette::{build_items, fuzzy_match, Matcher, PaletteItem};

fn items(query: &str, recent: &[&str], bindings: &[(&str, &str)]) -> Vec<PaletteItem> {
    let bindings = bindings.iter().map(|(a, b)| (a.to_string(), b.to_string())).collect();
    build_items(query, &all(), recent, &bindings)
}

fn top(query: &str) -> Vec<&'static str> {
    items(query, &[], &[]).into_iter().map(|i| i.action_id).collect()
}

/// The file finder reuses one matcher across 100k candidates of every
/// length; scratch left over from one must never colour the next.
#[test]
fn a_reused_matcher_agrees_with_a_fresh_one() {
    let candidates = [
        "src/terminal/mod.rs",
        "a",
        "docs/docs/file-tree/index.html",
        "",
        "src/app.rs",
        "Überstraße/ÄPFEL.md",
        "target/debug/deps/oxide-032b53269b7ca225",
        "s/r/c/a/p/p",
        "src/app.rs",
    ];
    for query in ["", "s", "sap", "src/app", "apfel", "SRC", "x y z", "oxide032"] {
        let mut reused = Matcher::new(query);
        for c in candidates {
            assert_eq!(reused.score(c), fuzzy_match(query, c), "{query:?} on {c:?}");
        }
    }
    // Gaps cost their length, runs and word starts pay: pin one alignment.
    let m = fuzzy_match("sap", "src/app.rs").unwrap();
    assert_eq!(m.positions, [0, 4, 5], "s, then the run at the word start");
}

#[test]
fn subsequence_required() {
    assert!(fuzzy_match("spr", "Split Right").is_some());
    assert!(fuzzy_match("xyz", "Split Right").is_none());
    assert!(fuzzy_match("thgir", "Split Right").is_none(), "order matters");
    assert_eq!(fuzzy_match("", "anything").unwrap().positions, Vec::<usize>::new());
}

#[test]
fn highlights_point_at_matched_chars() {
    let m = fuzzy_match("spr", "Split Right").unwrap();
    assert_eq!(m.positions, vec![0, 1, 6]);
    let m = fuzzy_match("SR", "split right").unwrap();
    assert_eq!(m.positions, vec![0, 6], "case-insensitive");
}

#[test]
fn consecutive_beats_scattered_and_word_starts_beat_mid_word() {
    let run = fuzzy_match("spl", "Split Right").unwrap().score;
    let scattered = fuzzy_match("spl", "Select Pane Left-ish").unwrap().score;
    assert!(run > scattered, "{run} vs {scattered}");
    let boundary = fuzzy_match("fr", "Font Reset").unwrap().score;
    let mid = fuzzy_match("fr", "Buffer Ram").unwrap().score;
    assert!(boundary > mid, "{boundary} vs {mid}");
}

#[test]
fn shorter_titles_win_ties() {
    let short = fuzzy_match("tab", "New Tab").unwrap().score;
    let long = fuzzy_match("tab", "New Tab In A Very Long Title").unwrap().score;
    assert!(short > long);
}

#[test]
fn accented_capitals_match_their_small_letters() {
    assert!(fuzzy_match("ä", "ÄPFEL").is_some());
    assert!(fuzzy_match("Ä", "äpfel").is_some());
}

#[test]
fn spr_ranks_split_right_first() {
    let ranked = top("spr");
    assert_eq!(ranked[0], "pane::split_right", "{ranked:?}");
    // "Workspace › Workspaces: Pin / Unpin" is a scattered match at best.
    let pin = ranked.iter().position(|id| *id == "workspace::toggle_persist");
    assert!(pin.is_none_or(|ix| ix > 3), "{ranked:?}");
    assert_eq!(top("pal")[0], "app::palette");
    assert_eq!(top("theme")[0], "app::select_theme");
    assert_eq!(top("eq")[0], "pane::equalize");
}

#[test]
fn aliases_and_categories_match_without_highlights() {
    let list = items("vsplit", &[], &[]);
    let ids: Vec<_> = list.iter().map(|i| i.action_id).collect();
    // Both vertical splits carry the alias; nothing else should outrank them.
    assert!(
        ids[..2].contains(&"pane::split_right") && ids[..2].contains(&"pane::split_left"),
        "{ids:?}"
    );
    assert!(list[0].highlights.is_empty());
    let list = items("terminal copy", &[], &[]);
    assert_eq!(list[0].action_id, "terminal::copy");
}

#[test]
fn empty_query_lists_recent_first_then_registry_order() {
    let list = items("", &["tab::new", "app::quit"], &[]);
    assert_eq!(list[0].action_id, "tab::new");
    assert_eq!(list[1].action_id, "app::quit");
    assert_eq!(list.len(), all().len());
    let rest: Vec<_> = list[2..].iter().map(|i| i.action_id).collect();
    let expected: Vec<_> = all()
        .iter()
        .map(|m| m.id)
        .filter(|id| *id != "tab::new" && *id != "app::quit")
        .collect();
    assert_eq!(rest, expected);
}

#[test]
fn bindings_are_attached() {
    let list = items("quit", &[], &[("app::quit", "⌘Q")]);
    assert_eq!(list[0].binding.as_deref(), Some("⌘Q"));
}

#[test]
fn what_cannot_be_run_now_is_not_offered() {
    let hidden = palette_candidates(false);
    let shown = palette_candidates(true);
    assert!(hidden.iter().all(|m| m.context == ActionContext::Root && m.id != "app::palette"));
    assert!(shown.len() > hidden.len());
    assert!(shown.iter().any(|m| m.context == ActionContext::FileTree));
    assert!(shown.iter().all(|m| m.context != ActionContext::Overlay));
}

#[test]
fn the_newest_command_comes_first_and_once() {
    let recent = remember(&vec!["a", "b", "c"], "b");
    assert_eq!(recent, ["b", "a", "c"]);
    let names: Vec<&'static str> = all().iter().map(|m| m.id).collect();
    let mut recent: Vec<&'static str> = Vec::new();
    for name in &names {
        recent = remember(&recent, name);
    }
    assert_eq!(recent.len(), PALETTE_RECENT);
    assert_eq!(recent[0], *names.last().unwrap());
}

fn key(name: &str, text: Option<&str>) -> Keystroke {
    Keystroke {
        modifiers: Modifiers::default(),
        key: name.to_string(),
        key_char: text.map(str::to_string),
    }
}

fn open() -> PaletteState {
    PaletteState::open(FocusTarget::Tree, true, &Vec::new(), &Vec::new())
}

#[test]
fn typing_filters_and_moving_scrolls() {
    let none: Vec<&'static str> = Vec::new();
    let bindings: Vec<(String, String)> = Vec::new();
    let mut p = open();
    assert_eq!(p.matches.len(), palette_candidates(true).len());
    assert_eq!(p.visible(), (0, PALETTE_ROWS));
    assert!(p.move_by(-1));
    assert_eq!(p.selected, p.matches.len() - 1, "round the end");
    assert_eq!(p.scroll, p.matches.len() - PALETTE_ROWS);
    assert_eq!(p.position(), Some(format!("{0} of {0}", p.matches.len())));
    assert!(p.move_by(1));
    assert_eq!((p.selected, p.scroll), (0, 0));
    for c in ["s", "p", "r"] {
        assert!(p.on_key(&key(c, Some(c)), true, &none, &bindings));
    }
    assert_eq!(p.query, "spr");
    assert_eq!(p.input_text(), "spr▏");
    assert_eq!(p.chosen().unwrap().id, "pane::split_right");
    assert!(p.on_key(&key("backspace", None), true, &none, &bindings));
    assert_eq!(p.query, "sp");
    assert!(!p.on_key(&key("escape", None), true, &none, &bindings));
    for c in ["z", "z", "z"] {
        assert!(p.on_key(&key(c, Some(c)), true, &none, &bindings));
    }
    assert!(p.matches.is_empty() && p.chosen().is_none() && !p.move_by(1));
    assert_eq!(p.position(), None);
}

#[test]
fn shortcuts_are_not_typed() {
    let mut ks = key("a", Some("a"));
    ks.modifiers.platform = true;
    let mut p = open();
    assert!(!p.on_key(&ks, true, &Vec::new(), &Vec::new()));
    assert_eq!(p.query, "");
    assert_eq!(p.input_text(), "▏type a command…");
}

#[test]
fn hovering_selects() {
    let mut p = open();
    assert!(p.hover(3));
    assert_eq!(p.selected, 3);
    assert!(!p.hover(3));
}

#[test]
fn a_chosen_command_runs_where_it_belongs() {
    let live = vec![1, 2];
    assert_eq!(
        focus_for(ActionContext::FileTree, FocusTarget::Pane(1), true, &live, 2),
        FocusTarget::Tree
    );
    assert_eq!(
        focus_for(ActionContext::Root, FocusTarget::Pane(9), true, &live, 2),
        FocusTarget::Pane(2)
    );
}

#[test]
fn matched_runs_are_one_span() {
    assert_eq!(highlighted_ranges("Split Right", &vec![0, 1, 6]), [(0, 2), (6, 7)]);
    assert_eq!(highlighted_ranges("äöü", &vec![1, 2, 7]), [(2, 6)]);
    assert_eq!(highlighted_ranges("x", &Vec::new()), []);
}
