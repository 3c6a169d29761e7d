//! Keys and pasted text as the bytes a shell reads.
use vstd::prelude::*;
use vstd::utf8::encode_utf8;

use crate::config::schema::OptionAsMeta;
use crate::keymap::keystroke::{Keystroke, Modifiers};
use crate::text::{chars_of, same, string_of};

verus! {

/// The modes that programs switch a terminal into.
#[derive(Debug, Clone, Copy, PartialEq, Eq, Structural, Default)]
pub struct TermMode {
    pub app_cursor: bool,
    pub alt_screen: bool,
    pub alternate_scroll: bool,
    pub bracketed_paste: bool,
    pub mouse_report_click: bool,
    pub mouse_drag: bool,
    pub mouse_motion: bool,
    pub sgr_mouse: bool,
    pub vi: bool,
}

impl TermMode {
    /// Whether the program wants to hear of the mouse at all.
    pub open spec fn mouse(self) -> bool {
        self.mouse_report_click || self.mouse_drag || self.mouse_motion
    }
}

/// The keys that have names rather than characters.
#[derive(Debug, Clone, Copy, PartialEq, Eq, Structural)]
pub enum NamedKey {
    Enter,
    Backspace,
    Tab,
    Escape,
    /// A cursor key: its final letter.
    Cursor(u8),
    /// A key with a number, `CSI <number> ~`.
    Tilde(u8),
    /// One of the first four function keys: its final letter.
    Function(u8),
    Space,
}

/// The key that goes by a name.
pub open spec fn key_named(key: Seq<char>) -> Option<NamedKey> {
    if key == "enter"@ {
        Some(NamedKey::Enter)
    } else if key == "backspace"@ {
        Some(NamedKey::Backspace)
    } else if key == "tab"@ {
        Some(NamedKey::Tab)
    } else if key == "escape"@ {
        Some(NamedKey::Escape)
    } else if key == "up"@ {
        Some(NamedKey::Cursor(0x41))
    } else if key == "down"@ {
        Some(NamedKey::Cursor(0x42))
    } else if key == "right"@ {
        Some(NamedKey::Cursor(0x43))
    } else if key == "left"@ {
        Some(NamedKey::Cursor(0x44))
    } else if key == "home"@ {
        Some(NamedKey::Cursor(0x48))
    } else if key == "end"@ {
        Some(NamedKey::Cursor(0x46))
    } else if key == "pageup"@ {
        Some(NamedKey::Tilde(5))
    } else if key == "pagedown"@ {
        Some(NamedKey::Tilde(6))
    } else if key == "insert"@ {
        Some(NamedKey::Tilde(2))
    } else if key == "delete"@ {
        Some(NamedKey::Tilde(3))
    } else if key == "f1"@ {
        Some(NamedKey::Function(0x50))
    } else if key == "f2"@ {
        Some(NamedKey::Function(0x51))
    } else if key == "f3"@ {
        Some(NamedKey::Function(0x52))
    } else if key == "f4"@ {
        Some(NamedKey::Function(0x53))
    } else if key == "f5"@ {
        Some(NamedKey::Tilde(15))
    } else if key == "f6"@ {
        Some(NamedKey::Tilde(17))
    } else if key == "f7"@ {
        Some(NamedKey::Tilde(18))
    } else if key == "f8"@ {
        Some(NamedKey::Tilde(19))
    } else if key == "f9"@ {
        Some(NamedKey::Tilde(20))
    } else if key == "f10"@ {
        Some(NamedKey::Tilde(21))
    } else if key == "f11"@ {
        Some(NamedKey::Tilde(23))
    } else if key == "f12"@ {
        Some(NamedKey::Tilde(24))
    } else if key == "space"@ {
        Some(NamedKey::Space)
    } else {
        None
    }
}

fn named_key(key: &str) -> (r: Option<NamedKey>)
    ensures
        r == key_named(key@),
        r matches Some(NamedKey::Tilde(n)) ==> n < 100,
{
    if same(key, "enter") {
        Some(NamedKey::Enter)
    } else if same(key, "backspace") {
        Some(NamedKey::Backspace)
    } else if same(key, "tab") {
        Some(NamedKey::Tab)
    } else if same(key, "escape") {
        Some(NamedKey::Escape)
    } else if same(key, "up") {
        Some(NamedKey::Cursor(0x41))
    } else if same(key, "down") {
        Some(NamedKey::Cursor(0x42))
    } else if same(key, "right") {
        Some(NamedKey::Cursor(0x43))
    } else if same(key, "left") {
        Some(NamedKey::Cursor(0x44))
    } else if same(key, "home") {
        Some(NamedKey::Cursor(0x48))
    } else if same(key, "end") {
        Some(NamedKey::Cursor(0x46))
    } else if same(key, "pageup") {
        Some(NamedKey::Tilde(5))
    } else if same(key, "pagedown") {
        Some(NamedKey::Tilde(6))
    } else if same(key, "insert") {
        Some(NamedKey::Tilde(2))
    } else if same(key, "delete") {
        Some(NamedKey::Tilde(3))
    } else if same(key, "f1") {
        Some(NamedKey::Function(0x50))
    } else if same(key, "f2") {
        Some(NamedKey::Function(0x51))
    } else if same(key, "f3") {
        Some(NamedKey::Function(0x52))
    } else if same(key, "f4") {
        Some(NamedKey::Function(0x53))
    } else if same(key, "f5") {
        Some(NamedKey::Tilde(15))
    } else if same(key, "f6") {
        Some(NamedKey::Tilde(17))
    } else if same(key, "f7") {
        Some(NamedKey::Tilde(18))
    } else if same(key, "f8") {
        Some(NamedKey::Tilde(19))
    } else if same(key, "f9") {
        Some(NamedKey::Tilde(20))
    } else if same(key, "f10") {
        Some(NamedKey::Tilde(21))
    } else if same(key, "f11") {
        Some(NamedKey::Tilde(23))
    } else if same(key, "f12") {
        Some(NamedKey::Tilde(24))
    } else if same(key, "space") {
        Some(NamedKey::Space)
    } else {
        None
    }
}

/// The modifier parameter of a control sequence: 1, plus 1 for shift, 2 for
/// alt and 4 for control.
pub open spec fn modifier_param(m: Modifiers) -> int {
    1 + (if m.shift {
        1int
    } else {
        0
    }) + (if m.alt {
        2int
    } else {
        0
    }) + (if m.control {
        4int
    } else {
        0
    })
}

/// A number below 100 in decimal digits, as bytes.
pub open spec fn number_bytes(n: int) -> Seq<u8> {
    if n < 10 {
        seq![(0x30 + n) as u8]
    } else {
        seq![(0x30 + n / 10) as u8, (0x30 + n % 10) as u8]
    }
}

/// What a cursor key sends.
pub open spec fn cursor_bytes(letter: u8, m: Modifiers, app_cursor: bool) -> Seq<u8> {
    if m.shift || m.alt || m.control {
        seq![0x1bu8, 0x5b, 0x31, 0x3b, (0x30 + modifier_param(m)) as u8, letter]
    } else if app_cursor {
        seq![0x1bu8, 0x4f, letter]
    } else {
        seq![0x1bu8, 0x5b, letter]
    }
}

/// What a numbered key sends.
pub open spec fn tilde_bytes(n: u8, m: Modifiers) -> Seq<u8> {
    if m.shift || m.alt || m.control {
        seq![0x1bu8, 0x5b] + number_bytes(n as int) + seq![
            0x3bu8,
            (0x30 + modifier_param(m)) as u8,
            0x7e,
        ]
    } else {
        seq![0x1bu8, 0x5b] + number_bytes(n as int) + seq![0x7eu8]
    }
}

/// What a named key sends. `meta` is whether Option acts as Meta.
pub open spec fn named_bytes(key: NamedKey, m: Modifiers, app_cursor: bool, meta: bool) -> Seq<u8> {
    match key {
        NamedKey::Enter => seq![0x0du8],
        NamedKey::Backspace => if m.control {
            seq![0x08u8]
        } else {
            seq![0x7fu8]
        },
        NamedKey::Tab => if m.shift {
            seq![0x1bu8, 0x5b, 0x5a]
        } else {
            seq![0x09u8]
        },
        NamedKey::Escape => seq![0x1bu8],
        NamedKey::Cursor(letter) => cursor_bytes(letter, m, app_cursor),
        NamedKey::Tilde(n) => tilde_bytes(n, m),
        NamedKey::Function(letter) => seq![0x1bu8, 0x4f, letter],
        NamedKey::Space => if m.control {
            seq![0x00u8]
        } else if m.alt && meta {
            seq![0x1bu8, 0x20]
        } else {
            seq![0x20u8]
        },
    }
}

/// The control character that a key stands for.
pub open spec fn control_byte(c: char) -> Option<u8> {
    if 'a' <= c <= 'z' {
        Some((c as int - 0x60) as u8)
    } else if c == '[' {
        Some(0x1bu8)
    } else if c == '\\' {
        Some(0x1cu8)
    } else if c == ']' {
        Some(0x1du8)
    } else if c == '^' || c == '6' {
        Some(0x1eu8)
    } else if c == '_' || c == '-' {
        Some(0x1fu8)
    } else if c == '@' || c == '2' {
        Some(0x00u8)
    } else if c == '?' || c == '/' {
        Some(0x7fu8)
    } else {
        None
    }
}

/// The US-layout character on the same key with shift held.
pub open spec fn shift_char(c: char) -> char {
    if 'a' <= c <= 'z' {
        (c as int - 32) as char
    } else if c == '1' {
        '!'
    } else if c == '2' {
        '@'
    } else if c == '3' {
        '#'
    } else if c == '4' {
        '$'
    } else if c == '5' {
        '%'
    } else if c == '6' {
        '^'
    } else if c == '7' {
        '&'
    } else if c == '8' {
        '*'
    } else if c == '9' {
        '('
    } else if c == '0' {
        ')'
    } else if c == '-' {
        '_'
    } else if c == '=' {
        '+'
    } else if c == '[' {
        '{'
    } else if c == ']' {
        '}'
    } else if c == '\\' {
        '|'
    } else if c == ';' {
        ':'
    } else if c == '\'' {
        '"'
    } else if c == ',' {
        '<'
    } else if c == '.' {
        '>'
    } else if c == '/' {
        '?'
    } else if c == '`' {
        '~'
    } else {
        c
    }
}

/// The one character of a key's name, with shift applied where it is held.
pub open spec fn typed_char(key: Seq<char>, shift: bool) -> char {
    if shift {
        shift_char(key[0])
    } else {
        key[0]
    }
}

/// What a key press sends to the shell, or `None` for keys that must not
/// reach it: anything with cmd, bare modifiers, unknown named keys.
pub open spec fn key_bytes(ks: Keystroke, app_cursor: bool, meta: bool) -> Option<Seq<u8>> {
    let m = ks.modifiers;
    let key = ks.key@;
    if m.platform || m.function {
        None
    } else if key_named(key) is Some {
        Some(named_bytes(key_named(key)->0, m, app_cursor, meta))
    } else if m.control {
        if key.len() != 1 {
            None
        } else {
            match control_byte(key[0]) {
                None => None,
                Some(b) => if m.alt && meta {
                    Some(seq![0x1bu8, b])
                } else {
                    Some(seq![b])
                },
            }
        }
    } else if m.alt && meta {
        // ESC and the base key, not the composed character.
        if key.len() != 1 {
            None
        } else {
            Some(seq![0x1bu8] + encode_utf8(seq![typed_char(key, m.shift)]))
        }
    } else if ks.key_char is Some {
        Some(encode_utf8((ks.key_char->0)@))
    } else if key.len() != 1 {
        None
    } else {
        Some(encode_utf8(seq![typed_char(key, m.shift)]))
    }
}

fn param(m: &Modifiers) -> (n: u8)
    ensures
        n == modifier_param(*m),
        1 <= n <= 8,
{
    let mut n: u8 = 1;
    if m.shift {
        n += 1;
    }
    if m.alt {
        n += 2;
    }
    if m.control {
        n += 4;
    }
    n
}

fn cursor_key(letter: u8, m: &Modifiers, app_cursor: bool) -> (r: Vec<u8>)
    ensures
        r@ == cursor_bytes(letter, *m, app_cursor),
{
    let r = if m.shift || m.alt || m.control {
        vec![0x1b, 0x5b, 0x31, 0x3b, 0x30 + param(m), letter]
    } else if app_cursor {
        vec![0x1b, 0x4f, letter]
    } else {
        vec![0x1b, 0x5b, letter]
    };
    assert(r@ =~= cursor_bytes(letter, *m, app_cursor));
    r
}

fn tilde_key(n: u8, m: &Modifiers) -> (r: Vec<u8>)
    requires
        n < 100,
    ensures
        r@ == tilde_bytes(n, *m),
{
    let mut r: Vec<u8> = vec![0x1b, 0x5b];
    if n >= 10 {
        r.push(0x30 + n / 10);
    }
    r.push(0x30 + n % 10);
    if m.shift || m.alt || m.control {
        r.push(0x3b);
        r.push(0x30 + param(m));
    }
    r.push(0x7e);
    assert(r@ =~= tilde_bytes(n, *m));
    r
}

fn single(b: u8) -> (r: Vec<u8>)
    ensures
        r@ == seq![b],
{
    let r = vec![b];
    assert(r@ =~= seq![b]);
    r
}

fn named_key_bytes(key: NamedKey, m: &Modifiers, app_cursor: bool, meta: bool) -> (r: Vec<u8>)
    requires
        key matches NamedKey::Tilde(n) ==> n < 100,
    ensures
        r@ == named_bytes(key, *m, app_cursor, meta),
{
    match key {
        // CR, not LF: the PTY expects it.
        NamedKey::Enter => single(0x0d),
        NamedKey::Backspace => if m.control {
            single(0x08)
        } else {
            single(0x7f)
        },
        NamedKey::Tab => if m.shift {
            let r = vec![0x1b, 0x5b, 0x5a];
            assert(r@ =~= seq![0x1bu8, 0x5b, 0x5a]);
            r
        } else {
            single(0x09)
        },
        NamedKey::Escape => single(0x1b),
        NamedKey::Cursor(letter) => cursor_key(letter, m, app_cursor),
        NamedKey::Tilde(n) => tilde_key(n, m),
        NamedKey::Function(letter) => {
            let r = vec![0x1b, 0x4f, letter];
            assert(r@ =~= seq![0x1bu8, 0x4f, letter]);
            r
        },
        NamedKey::Space => if m.control {
            single(0x00)
        } else if m.alt && meta {
            let r = vec![0x1b, 0x20];
            assert(r@ =~= seq![0x1bu8, 0x20]);
            r
        } else {
            single(0x20)
        },
    }
}

fn control_char(c: char) -> (r: Option<u8>)
    ensures
        r == control_byte(c),
{
    if c >= 'a' && c <= 'z' {
        Some(c as u8 - 0x60)
    } else if c == '[' {
        Some(0x1b)
    } else if c == '\\' {
        Some(0x1c)
    } else if c == ']' {
        Some(0x1d)
    } else if c == '^' || c == '6' {
        Some(0x1e)
    } else if c == '_' || c == '-' {
        Some(0x1f)
    } else if c == '@' || c == '2' {
        Some(0x00)
    } else if c == '?' || c == '/' {
        Some(0x7f)
    } else {
        None
    }
}

/// Best-effort US-layout shift mapping, used only when the platform did not
/// hand over a composed character.
fn shifted(c: char) -> (r: char)
    ensures
        r == shift_char(c),
{
    if c >= 'a' && c <= 'z' {
        return (c as u8 - 32) as char;
    }
    match c {
        '1' => '!',
        '2' => '@',
        '3' => '#',
        '4' => '$',
        '5' => '%',
        '6' => '^',
        '7' => '&',
        '8' => '*',
        '9' => '(',
        '0' => ')',
        '-' => '_',
        '=' => '+',
        '[' => '{',
        ']' => '}',
        '\\' => '|',
        ';' => ':',
        '\'' => '"',
        ',' => '<',
        '.' => '>',
        '/' => '?',
        '`' => '~',
        _ => c,
    }
}

fn char_bytes(c: char) -> (r: Vec<u8>)
    ensures
        r@ == encode_utf8(seq![c]),
{
    let mut s = String::new();
    s.push(c);
    assert(s@ =~= seq![c]);
    s.as_str().as_bytes_vec()
}

/// Encode a key press into the byte sequence the PTY expects. Returns `None`
/// for keys that must not reach the shell (anything with cmd, bare
/// modifiers, unrecognized named keys).
pub fn to_bytes(ks: &Keystroke, mode: &TermMode, option_as_meta: OptionAsMeta) -> (r: Option<Vec<u8>>)
    ensures
        match r {
            None => key_bytes(*ks, mode.app_cursor, option_as_meta != OptionAsMeta::Neither) is None,
            Some(b) => key_bytes(*ks, mode.app_cursor, option_as_meta != OptionAsMeta::Neither)
                == Some(b@),
        },
{
    let m = &ks.modifiers;
    // cmd never reaches the PTY; it belongs to the app.
    if m.platform || m.function {
        return None;
    }
    // There is a single `alt` flag, so left and right can't be told apart;
    // any setting other than "none" treats Option as Meta.
    let meta = option_as_meta != OptionAsMeta::Neither;
    if let Some(key) = named_key(ks.key.as_str()) {
        return Some(named_key_bytes(key, m, mode.app_cursor, meta));
    }
    let key = chars_of(ks.key.as_str());
    if m.control {
        if key.len() != 1 {
            return None;
        }
        return match control_char(key[0]) {
            None => None,
            Some(b) => if m.alt && meta {
                let r = vec![0x1b, b];
                assert(r@ =~= seq![0x1bu8, b]);
                Some(r)
            } else {
                Some(single(b))
            },
        };
    }
    if m.alt && meta {
        if key.len() != 1 {
            return None;
        }
        let c = if m.shift {
            shifted(key[0])
        } else {
            key[0]
        };
        let mut r = single(0x1b);
        let mut rest = char_bytes(c);
        r.append(&mut rest);
        return Some(r);
    }
    // Plain printable input: prefer the composed character.
    if let Some(text) = &ks.key_char {
        return Some(text.as_str().as_bytes_vec());
    }
    if key.len() != 1 {
        return None;
    }
    let c = if m.shift {
        shifted(key[0])
    } else {
        key[0]
    };
    Some(char_bytes(c))
}

/// Keys held with cmd never reach the shell.
pub proof fn lemma_cmd_stays(ks: Keystroke, app_cursor: bool, meta: bool)
    requires
        ks.modifiers.platform,
    ensures
        key_bytes(ks, app_cursor, meta) is None,
{
}

/// Pasted text with its line ends made carriage returns and its escape
/// characters taken out.
pub open spec fn cleaned(s: Seq<char>) -> Seq<char>
    decreases s.len(),
{
    if s.len() == 0 {
        Seq::empty()
    } else if s.len() >= 2 && s[0] == '\r' && s[1] == '\n' {
        seq!['\r'] + cleaned(s.skip(2))
    } else if s[0] == '\n' {
        seq!['\r'] + cleaned(s.skip(1))
    } else if s[0] == '\u{1b}' {
        cleaned(s.skip(1))
    } else {
        seq![s[0]] + cleaned(s.skip(1))
    }
}

/// What opens a bracketed paste.
pub open spec fn paste_open() -> Seq<u8> {
    seq![0x1bu8, 0x5b, 0x32, 0x30, 0x30, 0x7e]
}

/// What closes a bracketed paste.
pub open spec fn paste_close() -> Seq<u8> {
    seq![0x1bu8, 0x5b, 0x32, 0x30, 0x31, 0x7e]
}

fn clean(text: &str) -> (r: String)
    ensures
        r@ == cleaned(text@),
{
    let v = chars_of(text);
    let mut out: Vec<char> = Vec::new();
    let mut i: usize = 0;
    assert(v@.skip(0) =~= v@);
    while i < v.len()
        invariant
            i <= v.len(),
            v@ == text@,
            cleaned(v@) == out@ + cleaned(v@.skip(i as int)),
        decreases v.len() - i,
    {
        let ghost rest = v@.skip(i as int);
        let ghost before = out@;
        proof {
            assert(rest[0] == v@[i as int]);
            assert(rest.skip(1) =~= v@.skip(i + 1));
            if i + 1 < v.len() {
                assert(rest[1] == v@[i + 1]);
                assert(rest.skip(2) =~= v@.skip(i + 2));
            }
        }
        if v[i] == '\r' && v.len() - i >= 2 && v[i + 1] == '\n' {
            out.push('\r');
            assert(before + (seq!['\r'] + cleaned(v@.skip(i + 2))) =~= out@ + cleaned(
                v@.skip(i + 2),
            ));
            i += 2;
        } else {
            if v[i] == '\n' {
                out.push('\r');
            } else if v[i] != '\u{1b}' {
                out.push(v[i]);
            }
            proof {
                if v@[i as int] == '\n' {
                    assert(before + (seq!['\r'] + cleaned(v@.skip(i + 1))) =~= out@ + cleaned(
                        v@.skip(i + 1),
                    ));
                } else if v@[i as int] != '\u{1b}' {
                    assert(before + (seq![v@[i as int]] + cleaned(v@.skip(i + 1))) =~= out@
                        + cleaned(v@.skip(i + 1)));
                }
            }
            i += 1;
        }
    }
    assert(v@.skip(i as int) =~= Seq::<char>::empty());
    assert(out@ + Seq::<char>::empty() =~= out@);
    string_of(&out)
}

/// Prepare pasted text: normalize newlines, strip escape characters, and
/// bracket when the application asked for bracketed paste.
pub fn prepare_paste(text: &str, bracketed: bool) -> (r: Vec<u8>)
    ensures
        r@ == if bracketed {
            paste_open() + encode_utf8(cleaned(text@)) + paste_close()
        } else {
            encode_utf8(cleaned(text@))
        },
{
    let body = clean(text);
    let mut bytes = body.as_str().as_bytes_vec();
    if bracketed {
        let mut out: Vec<u8> = vec![0x1b, 0x5b, 0x32, 0x30, 0x30, 0x7e];
        assert(out@ =~= paste_open());
        let mut close: Vec<u8> = vec![0x1b, 0x5b, 0x32, 0x30, 0x31, 0x7e];
        assert(close@ =~= paste_close());
        out.append(&mut bytes);
        out.append(&mut close);
        out
    } else {
        bytes
    }
}

/// Pasted text carries no escape character and no line feed to the shell.
pub proof fn lemma_paste_is_plain(s: Seq<char>)
    ensures
        !cleaned(s).contains('\u{1b}'),
        !cleaned(s).contains('\n'),
    decreases s.len(),
{
    if s.len() > 0 {
        lemma_paste_is_plain(s.skip(1));
        if s.len() >= 2 {
            lemma_paste_is_plain(s.skip(2));
        }
        let c = cleaned(s);
        assert forall|i: int| 0 <= i < c.len() implies c[i] != '\u{1b}' && c[i] != '\n' by {
            if s.len() >= 2 && s[0] == '\r' && s[1] == '\n' {
                if i > 0 {
                    assert(c[i] == cleaned(s.skip(2))[i - 1]);
                    assert(cleaned(s.skip(2)).contains(c[i]));
                }
            } else if s[0] == '\u{1b}' {
                assert(cleaned(s.skip(1)).contains(c[i]));
            } else if i > 0 {
                assert(c[i] == cleaned(s.skip(1))[i - 1]);
                assert(cleaned(s.skip(1)).contains(c[i]));
            }
        }
    }
}


/// Whether a key is held with none of the modifiers that a shell hears of,
/// nor with one that keeps it from the shell.
pub open spec fn bare_key(m: Modifiers) -> bool {
    !m.shift && !m.alt && !m.control && !m.platform && !m.function
}

/// Whether a key is held with shift, alt or control, and with nothing that
/// keeps it from the shell.
pub open spec fn held_key(m: Modifiers) -> bool {
    (m.shift || m.alt || m.control) && !m.platform && !m.function
}

/// The names of the keys, spelled out: they are all different.
proof fn lemma_names_apart()
    ensures
        "enter"@.len() == 5 && "enter"@ =~= seq!['e', 'n', 't', 'e', 'r'],
        "backspace"@.len() == 9 && "backspace"@ =~= seq!['b', 'a', 'c', 'k', 's', 'p', 'a', 'c', 'e'],
        "tab"@.len() == 3 && "tab"@ =~= seq!['t', 'a', 'b'],
        "escape"@.len() == 6 && "escape"@ =~= seq!['e', 's', 'c', 'a', 'p', 'e'],
        "up"@.len() == 2 && "up"@ =~= seq!['u', 'p'],
        "down"@.len() == 4 && "down"@ =~= seq!['d', 'o', 'w', 'n'],
        "right"@.len() == 5 && "right"@ =~= seq!['r', 'i', 'g', 'h', 't'],
        "left"@.len() == 4 && "left"@ =~= seq!['l', 'e', 'f', 't'],
        "home"@.len() == 4 && "home"@ =~= seq!['h', 'o', 'm', 'e'],
        "end"@.len() == 3 && "end"@ =~= seq!['e', 'n', 'd'],
        "pageup"@.len() == 6 && "pageup"@ =~= seq!['p', 'a', 'g', 'e', 'u', 'p'],
        "pagedown"@.len() == 8 && "pagedown"@ =~= seq!['p', 'a', 'g', 'e', 'd', 'o', 'w', 'n'],
        "insert"@.len() == 6 && "insert"@ =~= seq!['i', 'n', 's', 'e', 'r', 't'],
        "delete"@.len() == 6 && "delete"@ =~= seq!['d', 'e', 'l', 'e', 't', 'e'],
        "f1"@.len() == 2 && "f1"@ =~= seq!['f', '1'],
        "f2"@.len() == 2 && "f2"@ =~= seq!['f', '2'],
        "f3"@.len() == 2 && "f3"@ =~= seq!['f', '3'],
        "f4"@.len() == 2 && "f4"@ =~= seq!['f', '4'],
        "f5"@.len() == 2 && "f5"@ =~= seq!['f', '5'],
        "f6"@.len() == 2 && "f6"@ =~= seq!['f', '6'],
        "f7"@.len() == 2 && "f7"@ =~= seq!['f', '7'],
        "f8"@.len() == 2 && "f8"@ =~= seq!['f', '8'],
        "f9"@.len() == 2 && "f9"@ =~= seq!['f', '9'],
        "f10"@.len() == 3 && "f10"@ =~= seq!['f', '1', '0'],
        "f11"@.len() == 3 && "f11"@ =~= seq!['f', '1', '1'],
        "f12"@.len() == 3 && "f12"@ =~= seq!['f', '1', '2'],
        "space"@.len() == 5 && "space"@ =~= seq!['s', 'p', 'a', 'c', 'e'],
{
    reveal_strlit("enter");
    reveal_strlit("backspace");
    reveal_strlit("tab");
    reveal_strlit("escape");
    reveal_strlit("up");
    reveal_strlit("down");
    reveal_strlit("right");
    reveal_strlit("left");
    reveal_strlit("home");
    reveal_strlit("end");
    reveal_strlit("pageup");
    reveal_strlit("pagedown");
    reveal_strlit("insert");
    reveal_strlit("delete");
    reveal_strlit("f1");
    reveal_strlit("f2");
    reveal_strlit("f3");
    reveal_strlit("f4");
    reveal_strlit("f5");
    reveal_strlit("f6");
    reveal_strlit("f7");
    reveal_strlit("f8");
    reveal_strlit("f9");
    reveal_strlit("f10");
    reveal_strlit("f11");
    reveal_strlit("f12");
    reveal_strlit("space");
}

/// The numbers of the numbered keys.
proof fn lemma_numbers()
    ensures
        key_named("insert"@) == Some(NamedKey::Tilde(2)),
        key_named("delete"@) == Some(NamedKey::Tilde(3)),
        key_named("pageup"@) == Some(NamedKey::Tilde(5)),
        key_named("pagedown"@) == Some(NamedKey::Tilde(6)),
        key_named("f5"@) == Some(NamedKey::Tilde(15)),
        key_named("f6"@) == Some(NamedKey::Tilde(17)),
        key_named("f7"@) == Some(NamedKey::Tilde(18)),
        key_named("f8"@) == Some(NamedKey::Tilde(19)),
        key_named("f9"@) == Some(NamedKey::Tilde(20)),
        key_named("f10"@) == Some(NamedKey::Tilde(21)),
        key_named("f11"@) == Some(NamedKey::Tilde(23)),
        key_named("f12"@) == Some(NamedKey::Tilde(24)),
{
    lemma_names_apart();
    assert("f10"@[2] == '0' && "f11"@[2] == '1' && "f12"@[2] == '2');
    assert("tab"@[2] == 'b' && "end"@[2] == 'd');
}

/// The arrow keys send ESC `[` and the letter of the move: A up, B down, C
/// right, D left. A program that asked for application cursor keys gets ESC
/// `O` and the letter instead.
pub proof fn lemma_arrow_keys(ks: Keystroke, meta: bool)
    requires
        bare_key(ks.modifiers),
    ensures
        ks.key@ == "up"@ ==> key_bytes(ks, false, meta) == Some(seq![0x1bu8, 0x5b, 0x41]),
        ks.key@ == "down"@ ==> key_bytes(ks, false, meta) == Some(seq![0x1bu8, 0x5b, 0x42]),
        ks.key@ == "right"@ ==> key_bytes(ks, false, meta) == Some(seq![0x1bu8, 0x5b, 0x43]),
        ks.key@ == "left"@ ==> key_bytes(ks, false, meta) == Some(seq![0x1bu8, 0x5b, 0x44]),
        ks.key@ == "up"@ ==> key_bytes(ks, true, meta) == Some(seq![0x1bu8, 0x4f, 0x41]),
        ks.key@ == "down"@ ==> key_bytes(ks, true, meta) == Some(seq![0x1bu8, 0x4f, 0x42]),
        ks.key@ == "right"@ ==> key_bytes(ks, true, meta) == Some(seq![0x1bu8, 0x4f, 0x43]),
        ks.key@ == "left"@ ==> key_bytes(ks, true, meta) == Some(seq![0x1bu8, 0x4f, 0x44]),
{
    lemma_names_apart();
}

/// Home and End send ESC `[` or, to a program with application cursor keys,
/// ESC `O`, with H for the start and F for the end.
pub proof fn lemma_home_and_end(ks: Keystroke, meta: bool)
    requires
        bare_key(ks.modifiers),
    ensures
        ks.key@ == "home"@ ==> key_bytes(ks, false, meta) == Some(seq![0x1bu8, 0x5b, 0x48]),
        ks.key@ == "end"@ ==> key_bytes(ks, false, meta) == Some(seq![0x1bu8, 0x5b, 0x46]),
        ks.key@ == "home"@ ==> key_bytes(ks, true, meta) == Some(seq![0x1bu8, 0x4f, 0x48]),
        ks.key@ == "end"@ ==> key_bytes(ks, true, meta) == Some(seq![0x1bu8, 0x4f, 0x46]),
{
    lemma_names_apart();
}

/// A cursor key with shift, alt or control sends ESC `[1;`, a digit for the
/// modifiers and the letter that it sends alone, whatever cursor keys the
/// program asked for. The digit is 1, plus 1 for shift, 2 for alt and 4 for
/// control.
pub proof fn lemma_modified_cursor_keys(ks: Keystroke, app_cursor: bool, meta: bool)
    requires
        held_key(ks.modifiers),
    ensures
        ({
            let m = ks.modifiers;
            let digit = (0x31 + (if m.shift {
                1int
            } else {
                0
            }) + (if m.alt {
                2int
            } else {
                0
            }) + (if m.control {
                4int
            } else {
                0
            })) as u8;
            let sent = key_bytes(ks, app_cursor, meta);
            &&& ks.key@ == "up"@ ==> sent == Some(seq![0x1bu8, 0x5b, 0x31, 0x3b, digit, 0x41])
            &&& ks.key@ == "down"@ ==> sent == Some(seq![0x1bu8, 0x5b, 0x31, 0x3b, digit, 0x42])
            &&& ks.key@ == "right"@ ==> sent == Some(seq![0x1bu8, 0x5b, 0x31, 0x3b, digit, 0x43])
            &&& ks.key@ == "left"@ ==> sent == Some(seq![0x1bu8, 0x5b, 0x31, 0x3b, digit, 0x44])
            &&& ks.key@ == "home"@ ==> sent == Some(seq![0x1bu8, 0x5b, 0x31, 0x3b, digit, 0x48])
            &&& ks.key@ == "end"@ ==> sent == Some(seq![0x1bu8, 0x5b, 0x31, 0x3b, digit, 0x46])
        }),
{
    lemma_names_apart();
}

/// The editing keys and the later function keys send ESC `[`, their number
/// and a tilde.
pub proof fn lemma_numbered_keys(ks: Keystroke, app_cursor: bool, meta: bool)
    requires
        bare_key(ks.modifiers),
    ensures
        ({
            let sent = key_bytes(ks, app_cursor, meta);
            &&& ks.key@ == "insert"@ ==> sent == Some(seq![0x1bu8, 0x5b, 0x32, 0x7e])
            &&& ks.key@ == "delete"@ ==> sent == Some(seq![0x1bu8, 0x5b, 0x33, 0x7e])
            &&& ks.key@ == "pageup"@ ==> sent == Some(seq![0x1bu8, 0x5b, 0x35, 0x7e])
            &&& ks.key@ == "pagedown"@ ==> sent == Some(seq![0x1bu8, 0x5b, 0x36, 0x7e])
            &&& ks.key@ == "f5"@ ==> sent == Some(seq![0x1bu8, 0x5b, 0x31, 0x35, 0x7e])
            &&& ks.key@ == "f6"@ ==> sent == Some(seq![0x1bu8, 0x5b, 0x31, 0x37, 0x7e])
            &&& ks.key@ == "f7"@ ==> sent == Some(seq![0x1bu8, 0x5b, 0x31, 0x38, 0x7e])
            &&& ks.key@ == "f8"@ ==> sent == Some(seq![0x1bu8, 0x5b, 0x31, 0x39, 0x7e])
            &&& ks.key@ == "f9"@ ==> sent == Some(seq![0x1bu8, 0x5b, 0x32, 0x30, 0x7e])
            &&& ks.key@ == "f10"@ ==> sent == Some(seq![0x1bu8, 0x5b, 0x32, 0x31, 0x7e])
            &&& ks.key@ == "f11"@ ==> sent == Some(seq![0x1bu8, 0x5b, 0x32, 0x33, 0x7e])
            &&& ks.key@ == "f12"@ ==> sent == Some(seq![0x1bu8, 0x5b, 0x32, 0x34, 0x7e])
        }),
{
    lemma_names_apart();
    lemma_numbers();
    if let Some(NamedKey::Tilde(n)) = key_named(ks.key@) {
        let b = tilde_bytes(n, ks.modifiers);
        assert(b =~= if n < 10 {
            seq![0x1bu8, 0x5b, (0x30 + n) as u8, 0x7e]
        } else {
            seq![0x1bu8, 0x5b, (0x30 + n / 10) as u8, (0x30 + n % 10) as u8, 0x7e]
        });
    }
}

/// A numbered key with modifiers sends what it sends alone, with a semicolon
/// and the digit of the modifiers before the tilde.
pub proof fn lemma_modified_numbered_keys(
    ks: Keystroke,
    alone: Keystroke,
    app_cursor: bool,
    meta: bool,
)
    requires
        held_key(ks.modifiers),
        bare_key(alone.modifiers),
        alone.key@ == ks.key@,
        ks.key@ == "insert"@ || ks.key@ == "delete"@ || ks.key@ == "pageup"@ || ks.key@ == "pagedown"@ || ks.key@ == "f5"@ || ks.key@ == "f6"@ || ks.key@ == "f7"@ || ks.key@ == "f8"@ || ks.key@ == "f9"@ || ks.key@ == "f10"@ || ks.key@ == "f11"@ || ks.key@ == "f12"@,
    ensures
        ({
            let m = ks.modifiers;
            let digit = (0x31 + (if m.shift {
                1int
            } else {
                0
            }) + (if m.alt {
                2int
            } else {
                0
            }) + (if m.control {
                4int
            } else {
                0
            })) as u8;
            let short = key_bytes(alone, app_cursor, meta)->0;
            key_bytes(ks, app_cursor, meta) == Some(
                short.drop_last() + seq![0x3bu8, digit, 0x7e],
            )
        }),
{
    lemma_numbers();
    let n = key_named(ks.key@)->0->Tilde_0;
    let short = tilde_bytes(n, alone.modifiers);
    assert(short.drop_last() =~= seq![0x1bu8, 0x5b] + number_bytes(n as int));
}

/// The first four function keys send ESC `O` and P, Q, R or S, whatever is
/// held with them.
pub proof fn lemma_function_keys(ks: Keystroke, app_cursor: bool, meta: bool)
    requires
        !ks.modifiers.platform,
        !ks.modifiers.function,
    ensures
        ks.key@ == "f1"@ ==> key_bytes(ks, app_cursor, meta) == Some(seq![0x1bu8, 0x4f, 0x50]),
        ks.key@ == "f2"@ ==> key_bytes(ks, app_cursor, meta) == Some(seq![0x1bu8, 0x4f, 0x51]),
        ks.key@ == "f3"@ ==> key_bytes(ks, app_cursor, meta) == Some(seq![0x1bu8, 0x4f, 0x52]),
        ks.key@ == "f4"@ ==> key_bytes(ks, app_cursor, meta) == Some(seq![0x1bu8, 0x4f, 0x53]),
{
    lemma_names_apart();
}

/// Enter sends a carriage return and Escape an escape character. Tab sends a
/// tab, and back-tab with shift; Backspace a delete character, and a
/// backspace with control.
pub proof fn lemma_control_keys(ks: Keystroke, app_cursor: bool, meta: bool)
    requires
        !ks.modifiers.platform,
        !ks.modifiers.function,
    ensures
        ({
            let m = ks.modifiers;
            let sent = key_bytes(ks, app_cursor, meta);
            &&& ks.key@ == "enter"@ ==> sent == Some(seq![0x0du8])
            &&& ks.key@ == "escape"@ ==> sent == Some(seq![0x1bu8])
            &&& ks.key@ == "tab"@ && !m.shift ==> sent == Some(seq![0x09u8])
            &&& ks.key@ == "tab"@ && m.shift ==> sent == Some(seq![0x1bu8, 0x5b, 0x5a])
            &&& ks.key@ == "backspace"@ && !m.control ==> sent == Some(seq![0x7fu8])
            &&& ks.key@ == "backspace"@ && m.control ==> sent == Some(seq![0x08u8])
            &&& ks.key@ == "space"@ && m.control ==> sent == Some(seq![0x00u8])
            &&& ks.key@ == "space"@ && !m.control && !m.alt ==> sent == Some(seq![0x20u8])
            &&& ks.key@ == "space"@ && !m.control && m.alt && !meta ==> sent == Some(seq![0x20u8])
            &&& ks.key@ == "space"@ && !m.control && m.alt && meta ==> sent == Some(
                seq![0x1bu8, 0x20],
            )
        }),
{
    lemma_names_apart();
}

/// Nothing held with cmd or fn reaches the shell, and everything that is a
/// named key, or a single character typed without control, does.
pub proof fn lemma_what_reaches(ks: Keystroke, app_cursor: bool, meta: bool)
    ensures
        ks.modifiers.platform || ks.modifiers.function ==> key_bytes(ks, app_cursor, meta) is None,
        !ks.modifiers.platform && !ks.modifiers.function && !ks.modifiers.control && ks.key@.len()
            == 1 ==> key_bytes(ks, app_cursor, meta) is Some,
{
}

proof fn lemma_single_unnamed(key: Seq<char>)
    requires
        key.len() == 1,
    ensures
        key_named(key) is None,
{
    lemma_names_apart();
    reveal_strlit("enter");
    reveal_strlit("backspace");
    reveal_strlit("tab");
    reveal_strlit("escape");
    reveal_strlit("up");
    reveal_strlit("down");
    reveal_strlit("right");
    reveal_strlit("left");
    reveal_strlit("home");
    reveal_strlit("end");
    reveal_strlit("pageup");
    reveal_strlit("pagedown");
    reveal_strlit("insert");
    reveal_strlit("delete");
    reveal_strlit("f1");
    reveal_strlit("f2");
    reveal_strlit("f3");
    reveal_strlit("f4");
    reveal_strlit("f5");
    reveal_strlit("f6");
    reveal_strlit("f7");
    reveal_strlit("f8");
    reveal_strlit("f9");
    reveal_strlit("f10");
    reveal_strlit("f11");
    reveal_strlit("f12");
    reveal_strlit("space");
}

/// Control with a letter sends the letter's place in the alphabet: the
/// character without its upper bits.
pub proof fn lemma_control_letters(ks: Keystroke, app_cursor: bool, meta: bool)
    requires
        ks.modifiers.control,
        !ks.modifiers.platform,
        !ks.modifiers.function,
        !(ks.modifiers.alt && meta),
        ks.key@.len() == 1,
        'a' <= ks.key@[0] <= 'z',
    ensures
        key_bytes(ks, app_cursor, meta) matches Some(b) && b.len() == 1 && b[0] + 'a' as int - 1
            == ks.key@[0] as int,
{
    lemma_single_unnamed(ks.key@);
}

/// Control with the punctuation after the capital letters sends the
/// character 64 places before it, from NUL for `@` to the unit separator for
/// `_`; the keys that carry these on a US layout without shift do the same,
/// and `?` and `/` send the delete character.
pub proof fn lemma_control_marks(ks: Keystroke, app_cursor: bool, meta: bool)
    requires
        ks.modifiers.control,
        !ks.modifiers.platform,
        !ks.modifiers.function,
        !(ks.modifiers.alt && meta),
        ks.key@.len() == 1,
    ensures
        ({
            let c = ks.key@[0];
            let sent = key_bytes(ks, app_cursor, meta);
            &&& (c == '@' || c == '[' || c == '\\' || c == ']' || c == '^' || c == '_') ==> sent
                == Some(seq![(c as int - 64) as u8])
            &&& c == '2' ==> sent == Some(seq![('@' as int - 64) as u8])
            &&& c == '6' ==> sent == Some(seq![('^' as int - 64) as u8])
            &&& c == '-' ==> sent == Some(seq![('_' as int - 64) as u8])
            &&& (c == '?' || c == '/') ==> sent == Some(seq![0x7fu8])
            &&& c as int > 127 ==> sent is None
        }),
{
    lemma_single_unnamed(ks.key@);
}

/// With Option as Meta, Option and a key of one character send an escape
/// character and then what the key alone sends.
pub proof fn lemma_meta_is_a_prefix(ks: Keystroke, alone: Keystroke, app_cursor: bool)
    requires
        ks.key@ == alone.key@,
        ks.key@.len() == 1,
        ks.modifiers.alt,
        ks.modifiers.control ==> alone.modifiers.control,
        alone.modifiers == (Modifiers { alt: false, ..ks.modifiers }),
        alone.key_char is None,
    ensures
        match key_bytes(alone, app_cursor, true) {
            None => key_bytes(ks, app_cursor, true) is None,
            Some(b) => key_bytes(ks, app_cursor, true) == Some(seq![0x1bu8] + b),
        },
{
    lemma_single_unnamed(ks.key@);
    if let Some(b) = key_bytes(alone, app_cursor, true) {
        if ks.modifiers.control && !ks.modifiers.platform && !ks.modifiers.function {
            assert(seq![0x1bu8] + b =~= seq![0x1bu8, b[0]]);
        }
    }
}

/// Typing sends what was typed: the composed text where there is one, whole
/// and as UTF-8, else the key's own character.
pub proof fn lemma_typing_sends_the_text(ks: Keystroke, app_cursor: bool, meta: bool)
    requires
        !ks.modifiers.platform,
        !ks.modifiers.function,
        !ks.modifiers.control,
        !(ks.modifiers.alt && meta),
        ks.key@.len() == 1,
    ensures
        ks.key_char matches Some(t) ==> key_bytes(ks, app_cursor, meta) == Some(encode_utf8(t@)),
        ks.key_char is None && !ks.modifiers.shift ==> key_bytes(ks, app_cursor, meta) == Some(
            encode_utf8(ks.key@),
        ),
{
    lemma_single_unnamed(ks.key@);
    assert(seq![ks.key@[0]] =~= ks.key@);
}

/// Shift gives a letter its capital, and the other keys of a US layout what
/// is printed above on them: the two rows of characters below stand on the
/// same keys.
pub proof fn lemma_shift_on_a_us_layout(c: char)
    ensures
        'a' <= c <= 'z' ==> shift_char(c) as int - 'A' as int == c as int - 'a' as int,
        forall|i: int|
            0 <= i < 21 ==> shift_char(#[trigger] "1234567890-=[]\\;',./`"@[i])
                == "!@#$%^&*()_+{}|:\"<>?~"@[i],
        c as int > 127 ==> shift_char(c) == c,
{
    reveal_strlit("1234567890-=[]\\;',./`");
    reveal_strlit("!@#$%^&*()_+{}|:\"<>?~");
}

/// Pasted text is pasted in one piece or in two alike, wherever it is cut but
/// between a carriage return and its line feed.
pub proof fn lemma_paste_pieces(a: Seq<char>, b: Seq<char>)
    requires
        !(a.len() > 0 && a.last() == '\r' && b.len() > 0 && b[0] == '\n'),
    ensures
        cleaned(a + b) == cleaned(a) + cleaned(b),
    decreases a.len(),
{
    let s = a + b;
    if a.len() == 0 {
        assert(s =~= b);
        assert(cleaned(a) + cleaned(b) =~= cleaned(b));
    } else if a.len() == 1 {
        assert(s[0] == a[0]);
        assert(s.skip(1) =~= b);
        assert(a.skip(1) =~= Seq::<char>::empty());
        assert(cleaned(a.skip(1)) =~= Seq::<char>::empty());
        assert(cleaned(s) =~= cleaned(a) + cleaned(b));
    } else {
        assert(s[0] == a[0] && s[1] == a[1]);
        assert(s.skip(1) =~= a.skip(1) + b);
        assert(s.skip(2) =~= a.skip(2) + b);
        if a[0] == '\r' && a[1] == '\n' {
            lemma_paste_pieces(a.skip(2), b);
        } else {
            lemma_paste_pieces(a.skip(1), b);
        }
        assert(cleaned(s) =~= cleaned(a) + cleaned(b));
    }
}

/// A paste changes nothing but line ends and escape characters: every other
/// character arrives as itself, a line feed, alone or after a carriage
/// return, as one carriage return, and an escape character not at all.
pub proof fn lemma_paste_keeps_text(c: char)
    ensures
        c != '\n' && c != '\u{1b}' ==> cleaned(seq![c]) == seq![c],
        cleaned(seq!['\n']) == seq!['\r'],
        cleaned(seq!['\r', '\n']) == seq!['\r'],
        cleaned(seq!['\u{1b}']) == Seq::<char>::empty(),
{
    assert(seq![c].skip(1) =~= Seq::<char>::empty());
    assert(seq!['\n'].skip(1) =~= Seq::<char>::empty());
    assert(seq!['\u{1b}'].skip(1) =~= Seq::<char>::empty());
    assert(seq!['\r', '\n'].skip(2) =~= Seq::<char>::empty());
    assert(cleaned(Seq::<char>::empty()) =~= Seq::<char>::empty());
    assert(cleaned(seq!['\n']) =~= seq!['\r']);
    assert(cleaned(seq!['\r', '\n']) =~= seq!['\r']);
    assert(cleaned(seq![c]) =~= if c == '\n' {
        seq!['\r']
    } else if c == '\u{1b}' {
        Seq::empty()
    } else {
        seq![c]
    });
}

/// A bracketed paste is what opens one, ESC `[200~`, the text that a plain
/// paste sends, and what closes it, ESC `[201~`.
pub proof fn lemma_paste_brackets()
    ensures
        paste_open() == seq![0x1bu8, '[' as u8, '2' as u8, '0' as u8, '0' as u8, '~' as u8],
        paste_close() == seq![0x1bu8, '[' as u8, '2' as u8, '0' as u8, '1' as u8, '~' as u8],
{
}

} // verus!
