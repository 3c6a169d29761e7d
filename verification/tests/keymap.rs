use std::collections::HashSet;

use oxide::config::schema::KeymapConfig;
use oxide::keymap::default::defaults;
use oxide::keymap::keystroke::{KeyParse, Keystroke, Modifiers};
use oxide::keymap::registry::{all, by_id, edit_distance, nearest_id};
use oxide::keymap::resolve::{
    defaults_readable, normalise_keys, pretty_keys, resolve, KeyCtx, Platform, ResolvedKeymap,
};

/// A keystroke token as the window system reads it: modifiers and a key,
/// separated by dashes.
fn parse_token(token: &str) -> Option<KeyParse> {
    let parts: Vec<&str> = token.split('-').collect();
    let mut m = Modifiers::default();
    let mut key: Option<String> = None;
    let mut i = 0;
    while i < parts.len() {
        let last = i + 1 == parts.len();
        match parts[i] {
            "ctrl" if !last => m.control = true,
            "alt" if !last => m.alt = true,
            "shift" if !last => m.shift = true,
            "fn" if !last => m.function = true,
            "cmd" | "super" | "win" if !last => m.platform = true,
            "" if last && token.ends_with('-') => key = Some("-".to_string()),
            "" if i + 2 == parts.len() && parts[i + 1].is_empty() => {
                key = Some("-".to_string());
                break;
            }
            "" => return None,
            part if last => key = Some(part.to_string()),
            _ => return None,
        }
        i += 1;
    }
    let key = key?;
    let mut text = String::new();
    for (on, name) in [
        (m.function, "fn-"),
        (m.control, "ctrl-"),
        (m.alt, "alt-"),
        (m.platform, "cmd-"),
        (m.shift, "shift-"),
    ] {
        if on {
            text.push_str(name);
        }
    }
    text.push_str(&key);
    let stroke = Keystroke { modifiers: m, key, key_char: None };
    Some(KeyParse { token: token.to_string(), text, stroke })
}

/// Records for every token of the defaults and of some keys.
fn table_for(keys: &[&str]) -> Vec<KeyParse> {
    let mut out: Vec<KeyParse> = Vec::new();
    let mut add = |keys: &str| {
        for token in keys.split_whitespace() {
            out.extend(parse_token(token));
        }
    };
    for d in defaults() {
        add(d.keys);
    }
    for k in keys {
        add(k);
    }
    out
}

fn keys_of(c: &KeymapConfig) -> Vec<&str> {
    [&c.root, &c.terminal, &c.terminal_vi, &c.file_tree, &c.workspaces, &c.overlay]
        .into_iter()
        .flatten()
        .map(|(k, _)| k.as_str())
        .collect()
}

fn resolved(c: &KeymapConfig) -> ResolvedKeymap {
    let table = table_for(&keys_of(c));
    assert!(defaults_readable(&table));
    resolve(c, &table)
}

fn cfg(root: &[(&str, &str)]) -> KeymapConfig {
    let mut c = KeymapConfig::default();
    for (k, v) in root {
        insert(&mut c.root, k, v);
    }
    c
}

fn insert(table: &mut Vec<(String, String)>, key: &str, value: &str) {
    table.push((key.to_string(), value.to_string()));
    table.sort();
}

fn has(r: &ResolvedKeymap, keys: &str, action: &str, ctx: KeyCtx) -> bool {
    let (keys, _) = normalise_keys(keys, &table_for(&[keys])).unwrap();
    r.entries.iter().any(|e| e.keys == keys && e.action == action && e.ctx == ctx)
}

#[test]
fn every_default_names_a_registered_action() {
    for d in defaults() {
        assert!(
            by_id(d.action).is_some(),
            "default binding {:?} -> {:?} names an action that isn't in the registry",
            d.keys,
            d.action
        );
    }
}

#[test]
fn every_default_keystroke_parses() {
    for d in defaults() {
        for token in d.keys.split_whitespace() {
            assert!(parse_token(token).is_some(), "{:?} does not parse", d.keys);
        }
    }
}

#[test]
fn terminal_and_root_never_take_bare_keys() {
    for d in defaults() {
        if !matches!(d.ctx, KeyCtx::Root | KeyCtx::Terminal) {
            continue;
        }
        let first = d.keys.split_whitespace().next().unwrap();
        let m = parse_token(first).unwrap().stroke.modifiers;
        assert!(
            m.control || m.alt || m.platform || m.function,
            "{:?} would steal a bare key from the shell",
            d.keys
        );
    }
}

#[test]
fn ids_are_unique_and_namespaced() {
    let mut seen = HashSet::new();
    for meta in all() {
        assert!(seen.insert(meta.id), "duplicate action id {}", meta.id);
        assert!(meta.id.contains("::"), "{} should be namespaced like `area::name`", meta.id);
        assert!(
            meta.id
                .chars()
                .all(|c| c.is_ascii_lowercase() || c.is_ascii_digit() || c == '_' || c == ':'),
            "{} should be snake_case",
            meta.id
        );
        assert!(!meta.title.is_empty() && !meta.category.is_empty());
    }
}

#[test]
fn every_id_builds_its_action() {
    for meta in all() {
        let found = by_id(meta.id).expect("lookup by id");
        assert_eq!(found.action, meta.action, "{} builds inconsistently", meta.id);
    }
    assert!(by_id("pane::no_such_thing").is_none());
}

#[test]
fn every_action_type_has_a_row() {
    let mut seen: Vec<oxide::keymap::actions::Action> = Vec::new();
    for meta in all() {
        assert!(!seen.contains(&meta.action), "{} has two rows", meta.id);
        seen.push(meta.action);
    }
}

#[test]
fn nearest_id_catches_typos() {
    assert_eq!(nearest_id("pane::splitright"), Some("pane::split_right"));
    assert_eq!(nearest_id("tab::nxt"), Some("tab::next"));
    assert_eq!(nearest_id("zzzzzzzzzzzzzzzzzzzz"), None);
}

#[test]
fn edit_distance_basics() {
    assert_eq!(edit_distance("", ""), 0);
    assert_eq!(edit_distance("abc", "abc"), 0);
    assert_eq!(edit_distance("kitten", "sitting"), 3);
}

#[test]
fn edit_distance_does_not_mind_the_order() {
    assert_eq!(edit_distance("sitting", "kitten"), 3);
    assert_eq!(edit_distance("", "abc"), 3);
    assert_eq!(edit_distance("abc", ""), 3);
}

#[test]
fn defaults_resolve_cleanly() {
    let r = resolved(&KeymapConfig::default());
    assert!(r.errors.is_empty(), "{:?}", r.errors);
    assert_eq!(r.entries.len(), defaults().len());
    assert!(has(&r, "cmd-shift-p", "app::palette", KeyCtx::Root));
    assert!(r.error_banner().is_none());
}

#[test]
fn user_table_merges_over_defaults() {
    let r = resolved(&cfg(&[("cmd-j", "pane::split_down")]));
    assert!(r.errors.is_empty(), "{:?}", r.errors);
    assert!(has(&r, "cmd-j", "pane::split_down", KeyCtx::Root));
    // Unmentioned bindings survive.
    assert!(has(&r, "ctrl-w v", "pane::split_right", KeyCtx::Root));
    assert!(has(&r, "j", "tree::down", KeyCtx::FileTree));
}

#[test]
fn empty_id_unbinds_a_default() {
    let focus_tree = "cmd-shift-e";
    assert!(has(&resolved(&KeymapConfig::default()), focus_tree, "drawer::focus_tree", KeyCtx::Root));
    let r = resolved(&cfg(&[(focus_tree, "")]));
    assert!(r.errors.is_empty(), "{:?}", r.errors);
    assert!(!has(&r, focus_tree, "drawer::focus_tree", KeyCtx::Root));
    // Only that key, only that context: ctrl-w t still focuses the tree.
    assert!(has(&r, "ctrl-w t", "drawer::focus_tree", KeyCtx::Root));
}

#[test]
fn rebinding_a_default_key_replaces_it() {
    let (focus_tree, reordered) = ("cmd-shift-e", "shift-cmd-e");
    let r = resolved(&cfg(&[(focus_tree, "pane::split_down")]));
    assert!(!has(&r, focus_tree, "drawer::focus_tree", KeyCtx::Root));
    assert!(has(&r, focus_tree, "pane::split_down", KeyCtx::Root));
    // Spelling differences in modifier order don't defeat the match.
    let r = resolved(&cfg(&[(reordered, "")]));
    assert!(!has(&r, focus_tree, "drawer::focus_tree", KeyCtx::Root));
}

#[test]
fn unknown_action_is_reported_and_the_rest_still_binds() {
    let r = resolved(&cfg(&[
        ("cmd-j", "pane::splitright"),
        ("cmd-shift-j", "pane::split_down"),
    ]));
    assert_eq!(r.errors.len(), 1);
    assert!(r.errors[0].contains("unknown action \"pane::splitright\""), "{}", r.errors[0]);
    assert!(r.errors[0].contains("did you mean \"pane::split_right\""), "{}", r.errors[0]);
    assert!(has(&r, "cmd-shift-j", "pane::split_down", KeyCtx::Root));
    assert!(r.error_banner().unwrap().starts_with("keymap: "));
}

#[test]
fn a_line_with_an_unknown_action_leaves_the_default_bound() {
    let r = resolved(&cfg(&[("ctrl-w v", "pane::no_such_thing")]));
    assert_eq!(r.errors.len(), 1, "{:?}", r.errors);
    assert!(has(&r, "ctrl-w v", "pane::split_right", KeyCtx::Root));
    let kept = r.entries.iter().find(|e| e.keys == "ctrl-w v" && e.ctx == KeyCtx::Root).unwrap();
    assert!(!kept.user);
    assert_eq!(r.entries.len(), defaults().len());
}

#[test]
fn unparseable_keystroke_is_an_error_not_a_panic() {
    let r = resolved(&cfg(&[("cmd-", "tab::next"), ("cmd-shift-j", "tab::next")]));
    // "cmd-" is a valid spelling of cmd-minus; use something that really
    // doesn't parse.
    let r2 = resolved(&cfg(&[("ctrl-w -x", "tab::next")]));
    assert_eq!(r2.errors.len(), 1, "{:?}", r2.errors);
    assert!(r2.errors[0].contains("can't parse keystroke"), "{}", r2.errors[0]);
    assert!(has(&r, "cmd-shift-j", "tab::next", KeyCtx::Root));
}

#[test]
fn bare_keys_are_rejected_in_terminal_and_root() {
    let mut c = KeymapConfig::default();
    insert(&mut c.terminal, "j", "tab::next");
    insert(&mut c.root, "shift-j", "tab::next");
    insert(&mut c.root, "escape", "tab::next");
    let r = resolved(&c);
    assert_eq!(r.errors.len(), 3, "{:?}", r.errors);
    assert!(r
        .errors
        .iter()
        .any(|e| e.contains("\"j\" in [keymap.terminal] would hide that key from your shell")));
    assert!(!has(&r, "j", "tab::next", KeyCtx::Terminal));
    // ...but a ctrl-w prefix makes a bare second key fine.
    let mut c = KeymapConfig::default();
    insert(&mut c.terminal, "ctrl-w z", "tab::next");
    let r = resolved(&c);
    assert!(r.errors.is_empty(), "{:?}", r.errors);
    assert!(has(&r, "ctrl-w z", "tab::next", KeyCtx::Terminal));
}

#[test]
fn bare_keys_are_fine_in_list_contexts() {
    let mut c = KeymapConfig::default();
    insert(&mut c.file_tree, "y", "tree::refresh");
    insert(&mut c.terminal_vi, "q", "terminal::copy_mode");
    insert(&mut c.workspaces, "x", "workspace::delete");
    insert(&mut c.overlay, "ctrl-j", "overlay::next");
    let r = resolved(&c);
    assert!(r.errors.is_empty(), "{:?}", r.errors);
    assert!(has(&r, "y", "tree::refresh", KeyCtx::FileTree));
    assert!(has(&r, "q", "terminal::copy_mode", KeyCtx::TerminalVi));
}

#[test]
fn replace_defaults_starts_blank() {
    let mut c = cfg(&[("cmd-j", "pane::split_down")]);
    c.replace_defaults = true;
    let r = resolved(&c);
    assert_eq!(r.entries.len(), 1);
}

#[test]
fn display_prefers_user_bindings() {
    let r = resolved(&KeymapConfig::default());
    assert_eq!(r.display_for("pane::split_right").unwrap().keys, "ctrl-w v");
    let r = resolved(&cfg(&[("cmd-j", "pane::split_right")]));
    let (cmd_j, _) = normalise_keys("cmd-j", &table_for(&["cmd-j"])).unwrap();
    assert_eq!(r.display_for("pane::split_right").unwrap().keys, cmd_j);
    assert!(r.display_for("app::about").is_none());
}

#[test]
fn every_registered_action_is_expressible_in_config() {
    // Round-trip: binding each id in the user table must resolve to it.
    for meta in all() {
        let mut c = KeymapConfig::default();
        insert(&mut c.overlay, "ctrl-alt-cmd-f12", meta.id);
        let r = resolved(&c);
        assert!(r.errors.is_empty(), "{}: {:?}", meta.id, r.errors);
        assert!(has(&r, "ctrl-alt-cmd-f12", meta.id, KeyCtx::Overlay));
    }
}

fn mac(keys: &str) -> String {
    pretty_keys(keys, Platform::Mac, &table_for(&[keys]))
}

fn linux(keys: &str) -> String {
    pretty_keys(keys, Platform::Linux, &table_for(&[keys]))
}

#[test]
fn pretty_keys_uses_mac_glyphs() {
    assert_eq!(mac("ctrl-w v"), "⌃W v");
    assert_eq!(mac("d"), "d");
    assert_eq!(mac("shift-d"), "⇧D");
    assert_eq!(mac("cmd-shift-p"), "⇧⌘P");
    assert_eq!(mac("cmd-alt-left"), "⌥⌘←");
    assert_eq!(mac("escape"), "⎋");
}

#[test]
fn pretty_keys_spells_modifiers_out_on_linux() {
    assert_eq!(linux("ctrl-w v"), "Ctrl+W v");
    assert_eq!(linux("d"), "d");
    assert_eq!(linux("shift-d"), "Shift+D");
    assert_eq!(linux("ctrl-shift-p"), "Ctrl+Shift+P");
    assert_eq!(linux("ctrl-alt-left"), "Ctrl+Alt+←");
    assert_eq!(linux("cmd-q"), "Super+Q");
    assert_eq!(linux("ctrl-pagedown"), "Ctrl+PgDn");
    assert_eq!(linux("escape"), "⎋");
}

#[test]
fn pretty_keys_follows_the_platform() {
    assert_eq!(mac("ctrl-shift-p"), "⇧⌃P");
    assert_eq!(linux("ctrl-shift-p"), "Ctrl+Shift+P");
}

#[test]
fn a_token_that_does_not_read_stays_as_it_is() {
    assert_eq!(linux("ctrl-w -x"), "Ctrl+W -x");
}
