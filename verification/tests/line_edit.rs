use oxide::keymap::keystroke::{Keystroke, Modifiers};
use oxide::line_edit::LineEdit;

fn key(s: &str) -> Keystroke {
    let mut modifiers = Modifiers::default();
    let mut name = s;
    loop {
        if let Some(rest) = name.strip_prefix("cmd-") {
            modifiers.platform = true;
            name = rest;
        } else if let Some(rest) = name.strip_prefix("ctrl-") {
            modifiers.control = true;
            name = rest;
        } else if let Some(rest) = name.strip_prefix("alt-") {
            modifiers.alt = true;
            name = rest;
        } else {
            break;
        }
    }
    let single = name.chars().count() == 1 && !modifiers.control && !modifiers.platform;
    Keystroke {
        modifiers,
        key: name.to_string(),
        key_char: if single { Some(name.to_string()) } else { None },
    }
}

fn split(e: &LineEdit) -> (String, String) {
    e.split()
}

#[test]
fn cursor_moves_and_edits_in_the_middle() {
    let mut e = LineEdit::new("tést".into());
    assert_eq!(split(&e), ("tést".to_string(), "".to_string()));
    for _ in 0..4 {
        e.handle(&key("left"));
    }
    assert!(e.handle(&key("x")));
    assert_eq!(split(&e), ("x".to_string(), "tést".to_string()));
    e.handle(&key("cmd-right"));
    e.handle(&key("backspace"));
    e.handle(&key("ctrl-a"));
    e.handle(&key("delete"));
    assert_eq!(e.text, "tés");
    assert!(!e.handle(&key("enter")));
}

#[test]
fn typing_then_backspace_undoes() {
    let mut e = LineEdit::at_start("abc".into());
    assert_eq!(e.cursor, 0);
    assert!(e.handle(&key("é")));
    assert_eq!(e.text, "éabc");
    assert!(e.handle(&key("backspace")));
    assert_eq!((e.text.as_str(), e.cursor), ("abc", 0));
}

#[test]
fn the_ends_hold() {
    let mut e = LineEdit::at_start("a".into());
    e.handle(&key("left"));
    assert_eq!(e.cursor, 0);
    e.handle(&key("right"));
    e.handle(&key("right"));
    assert_eq!(e.cursor, 1);
}
