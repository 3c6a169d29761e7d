use std::time::Duration;

use oxide::config::edit::{config_unwritable, finish_edit, persist_preset};
use oxide::config::schema::{
    glob_match, ColorsConfig, CommandsConfig, DurationText, FontFamily, KeymapConfig, KeymapValue,
    NotificationsConfig, SshConfig, SshHost, BUNDLED,
};
use oxide::config::theme::{parse_hex, preset_names, rgb, Theme};
use oxide::config::{
    concerns, config_error, config_path, config_unreadable, default_config_file, validate,
};

/// A `[keymap]` table as the library takes it.
fn keymap_of(text: &str) -> Result<KeymapConfig, String> {
    let table: toml::Table = toml::from_str(text).unwrap();
    let mut raw: Vec<(String, KeymapValue)> = Vec::new();
    if let Some(toml::Value::Table(keymap)) = table.get("keymap") {
        for (key, value) in keymap {
            let value = match value {
                toml::Value::Boolean(b) => KeymapValue::Flag(*b),
                toml::Value::String(s) => KeymapValue::Text(s.clone()),
                toml::Value::Table(t) => KeymapValue::Table(
                    t.iter().map(|(k, v)| (k.clone(), v.as_str().map(str::to_string))).collect(),
                ),
                _ => KeymapValue::Other,
            };
            raw.push((key.clone(), value));
        }
    }
    KeymapConfig::try_from(raw)
}

fn bound<'a>(table: &'a [(String, String)], keys: &str) -> &'a str {
    &table.iter().find(|(k, _)| k == keys).unwrap().1
}

#[test]
fn flat_pairs_bind_at_root_and_subtables_scope() {
    let text = r#"
[keymap]
"cmd-shift-p" = "app::palette"
"cmd-d" = ""

[keymap.file_tree]
"y" = "tree::refresh"

[keymap.terminal]
"cmd-shift-c" = "terminal::copy"
"#;
    let keymap = keymap_of(text).unwrap();
    assert_eq!(bound(&keymap.root, "cmd-shift-p"), "app::palette");
    assert_eq!(bound(&keymap.root, "cmd-d"), "");
    assert_eq!(bound(&keymap.file_tree, "y"), "tree::refresh");
    assert_eq!(bound(&keymap.terminal, "cmd-shift-c"), "terminal::copy");
    assert!(!keymap.replace_defaults);
}

#[test]
fn explicit_root_table_and_replace_flag() {
    let text = r#"
[keymap]
replace_defaults = true
[keymap.root]
"cmd-j" = "tab::next"
"#;
    let keymap = keymap_of(text).unwrap();
    assert!(keymap.replace_defaults);
    assert_eq!(bound(&keymap.root, "cmd-j"), "tab::next");
}

#[test]
fn unknown_context_and_bad_values_are_errors() {
    let err = keymap_of("[keymap.filetree]\n\"y\" = \"tree::refresh\"\n").unwrap_err();
    assert!(err.contains("unknown keymap context"), "{err}");
    let err = keymap_of("[keymap]\n\"cmd-j\" = 3\n").unwrap_err();
    assert!(err.contains("must be an action id string"), "{err}");
    let err = keymap_of("[keymap]\nreplace_defaults = \"yes\"\n").unwrap_err();
    assert!(err.contains("replace_defaults"), "{err}");
}

#[test]
fn missing_keymap_is_empty() {
    assert_eq!(keymap_of("[font]\nsize = 12\n").unwrap(), KeymapConfig::default());
}

#[test]
fn a_bad_value_in_a_subtable_is_an_error() {
    let err = keymap_of("[keymap.terminal]\n\"cmd-j\" = 3\n").unwrap_err();
    assert!(err.contains("must be an action id string"), "{err}");
}

#[test]
fn keys_come_out_sorted_and_once() {
    let keymap = keymap_of("[keymap]\n\"c\" = \"1\"\n\"a\" = \"2\"\n\"b\" = \"3\"\n").unwrap();
    let keys: Vec<&str> = keymap.root.iter().map(|(k, _)| k.as_str()).collect();
    assert_eq!(keys, ["a", "b", "c"]);
}

#[test]
fn family_accepts_a_string_or_a_list() {
    let family = FontFamily::new(vec!["Menlo".to_string()]);
    assert_eq!(family.primary(), "Menlo");
    assert!(family.fallbacks().is_empty());
    let family = FontFamily::new(vec![
        "Menlo".to_string(),
        "Apple Color Emoji".to_string(),
        "".to_string(),
    ]);
    assert_eq!(family.primary(), "Menlo");
    assert_eq!(family.fallbacks(), &["Apple Color Emoji".to_string()]);
    // An empty list can't leave the terminal without a font.
    let family = FontFamily::new(Vec::new());
    assert_eq!(family.primary(), BUNDLED);
}

#[test]
fn glob_matches_hosts() {
    assert!(glob_match("*.prod.example.com", "web-01.prod.example.com"));
    assert!(glob_match("*.PROD.example.com", "web-01.prod.Example.com"));
    assert!(!glob_match("*.prod.example.com", "web-01.staging.example.com"));
    assert!(glob_match("prod-??", "prod-01"));
    assert!(!glob_match("prod-??", "prod-001"));
    assert!(glob_match("*", "anything"));
    assert!(glob_match("exact", "exact"));
    assert!(!glob_match("exact", "exactly"));
    assert!(glob_match("a*b*c", "aXXbYYc"));
    assert!(!glob_match("a*b*c", "aXXbYY"));
}

#[test]
fn a_star_matches_nothing_too() {
    assert!(glob_match("*", ""));
    assert!(glob_match("a*", "a"));
    assert!(glob_match("**", "x"));
    assert!(!glob_match("", "x"));
    assert!(glob_match("*a", "aaa*a"));
}

#[test]
fn ssh_hosts_and_cursor_parse() {
    let ssh = SshConfig {
        hosts: vec![
            SshHost { pattern: "*.prod.example.com".to_string(), accent: "#f38ba8".to_string() },
            SshHost { pattern: "*".to_string(), accent: "#89b4fa".to_string() },
        ],
    };
    assert_eq!(ssh.accent_for("db.prod.example.com"), Some("#f38ba8"));
    assert_eq!(ssh.accent_for("dev"), Some("#89b4fa"));
    assert_eq!(SshConfig { hosts: Vec::new() }.accent_for("dev"), None);
}

fn nanos(d: Duration) -> u128 {
    d.as_nanos()
}

#[test]
fn parses_common_spellings() {
    assert_eq!(DurationText::parse("30s").unwrap().0, nanos(Duration::from_secs(30)));
    assert_eq!(DurationText::parse("2m").unwrap().0, nanos(Duration::from_secs(120)));
    assert_eq!(DurationText::parse("1.5s").unwrap().0, nanos(Duration::from_millis(1500)));
    assert_eq!(DurationText::parse("250ms").unwrap().0, nanos(Duration::from_millis(250)));
    assert_eq!(DurationText::parse("1h").unwrap().0, nanos(Duration::from_secs(3600)));
    assert_eq!(DurationText::parse("45").unwrap().0, nanos(Duration::from_secs(45)));
    assert!(DurationText::parse("soon").is_err());
    assert!(DurationText::parse("3 fortnights").is_err());
    assert!(DurationText::parse("-1s").is_err());
}

#[test]
fn config_accepts_strings_and_numbers() {
    assert_eq!(DurationText::parse("2m").unwrap().0, 120_000_000_000);
    assert_eq!(DurationText::parse("10").unwrap().0, 10_000_000_000);
    assert!(DurationText::parse("never").is_err());
    let commands = CommandsConfig { emit_cmdline: false, max_entries: 50, ..CommandsConfig::default() };
    assert!(!commands.emit_cmdline);
    assert_eq!(commands.max_entries, 50);
    assert!(commands.track);
    assert_eq!(NotificationsConfig::default().min_duration.0, 30_000_000_000);
}

#[test]
fn parses_six_digit_hex() {
    let c = parse_hex("#ff0000").unwrap();
    assert_eq!((c.r, c.g, c.b, c.a), (255, 0, 0, 255));
}

#[test]
fn short_and_transparent_hex() {
    assert_eq!(parse_hex("#f80"), parse_hex("#ff8800"));
    assert_eq!(parse_hex("#f808").unwrap().a, 0x88);
    assert_eq!(parse_hex("#11223344").unwrap().a, 0x44);
    assert_eq!(rgb(0x112233), parse_hex("#112233").unwrap());
}

#[test]
fn rejects_garbage() {
    assert!(parse_hex("red").is_none());
    assert!(parse_hex("#12345").is_none());
}

#[test]
fn all_presets_parse() {
    for name in preset_names() {
        let config = ColorsConfig { preset: Some(name.to_string()), ..Default::default() };
        assert_eq!(Theme::from_config(&config).preset, name);
    }
}

#[test]
fn explicit_color_overrides_preset() {
    let config = ColorsConfig {
        preset: Some("nord".into()),
        background: Some("#000000".into()),
        ..Default::default()
    };
    let theme = Theme::from_config(&config);
    assert_eq!((theme.background.r, theme.background.g, theme.background.b), (0, 0, 0));
    // Foreground still comes from nord.
    assert_eq!(theme.foreground, parse_hex("#d8dee9").unwrap());
    assert_eq!(theme.preset, "nord");
    assert!(theme.selection_fg.is_none());
}

#[test]
fn follow_system_picks_the_variant_for_the_appearance() {
    let config = ColorsConfig {
        preset: Some("nord".into()),
        preset_dark: Some("gruvbox-dark".into()),
        preset_light: Some("catppuccin-latte".into()),
        follow_system: true,
        selection_fg: Some("#000000".into()),
        ..Default::default()
    };
    assert_eq!(Theme::resolve(&config, true).preset, "gruvbox-dark");
    assert_eq!(Theme::resolve(&config, false).preset, "catppuccin-latte");
    assert!(
        Theme::resolve(&config, false).selection_fg.is_some(),
        "overrides apply to both variants"
    );
    // Off: the plain preset, whatever the appearance.
    let off = ColorsConfig { follow_system: false, ..config.clone() };
    assert_eq!(Theme::resolve(&off, false).preset, "nord");
    // On with only `preset`: both keep it.
    let bare = ColorsConfig {
        preset: Some("nord".into()),
        follow_system: true,
        ..Default::default()
    };
    assert_eq!(Theme::resolve(&bare, true).preset, "nord");
    assert_eq!(Theme::resolve(&bare, false).preset, "nord");
    let bare = ColorsConfig { follow_system: true, ..Default::default() };
    assert_eq!(Theme::resolve(&bare, true).preset, "catppuccin-mocha");
    assert_eq!(Theme::resolve(&bare, false).preset, "catppuccin-latte");
}

#[test]
fn an_unknown_preset_falls_back_and_is_reported() {
    let config = ColorsConfig { preset: Some("no-such".into()), ..Default::default() };
    assert_eq!(Theme::from_config(&config).preset, "catppuccin-mocha");
    let ssh = SshConfig { hosts: Vec::new() };
    let warning = validate(&config, &ssh, true, true).unwrap();
    assert!(warning.contains("no-such"), "{warning}");
    assert!(validate(&ColorsConfig::default(), &ssh, true, true).is_none());
}

#[test]
fn generated_config_parses_and_speaks_this_platforms_keys() {
    let text = default_config_file(true);
    let parsed: Result<toml::Table, _> = toml::from_str(&text);
    assert!(parsed.is_ok(), "{:?}", parsed.err());
    assert!(text.contains("cmd-shift-p"));
    let text = default_config_file(false);
    let parsed: Result<toml::Table, _> = toml::from_str(&text);
    assert!(parsed.is_ok(), "{:?}", parsed.err());
    assert!(
        !text.contains("cmd-"),
        "a cmd- key survived localisation:\n{}",
        text.lines().filter(|l| l.contains("cmd-")).collect::<Vec<_>>().join("\n")
    );
    assert!(text.contains("\"ctrl-shift-p\" = \"app::palette\""));
    assert!(text.contains("the n in alt-n"));
}

#[test]
fn picking_a_preset_keeps_the_rest_of_the_file() {
    let text = "# mine\n[font]\nsize = 12 # big\n\n[colors]\npreset = \"nord\"\nred = \"#ff0000\"\n";
    let edited = persist_preset(text, "dracula").unwrap();
    assert!(edited.contains("# mine") && edited.contains("size = 12 # big"), "{edited}");
    assert!(edited.contains("preset = \"dracula\""), "{edited}");
    assert!(!edited.contains("nord") && !edited.contains("red"), "{edited}");
    let fresh = persist_preset("", "nord").unwrap();
    let table: toml::Table = toml::from_str(&fresh).unwrap();
    assert_eq!(table["colors"]["preset"].as_str(), Some("nord"));
}

#[test]
fn a_broken_config_file_is_not_edited() {
    let err = persist_preset("[colors\n", "nord").unwrap_err();
    assert!(err.starts_with("couldn't edit config: "), "{err}");
    assert_eq!(finish_edit(Err("x".to_string())), Err("couldn't edit config: x".to_string()));
    assert_eq!(finish_edit(Ok("y".to_string())), Ok("y".to_string()));
    assert_eq!(config_unwritable("no space"), "couldn't write config: no space");
}

#[test]
fn the_config_file_is_found() {
    assert_eq!(config_path(Some("/etc/o.toml".to_string()), Some("/home/me")), "/etc/o.toml");
    assert_eq!(config_path(None, Some("/home/me")), "/home/me/.config/oxide/config.toml");
    assert_eq!(config_path(None, None), "/.config/oxide/config.toml");
}

#[test]
fn errors_are_one_line() {
    let message = config_error("\n  expected a value\nmore");
    assert!(message.contains("expected a value") && !message.contains("more"), "{message}");
    assert!(config_unreadable("gone").contains("gone"));
}

#[test]
fn only_the_config_file_concerns_the_watcher() {
    let paths = vec!["/c/other.toml".to_string(), "/c/config.toml".to_string()];
    assert!(concerns(&paths, "config.toml"));
    assert!(!concerns(&paths[..1].to_vec(), "config.toml"));
}
