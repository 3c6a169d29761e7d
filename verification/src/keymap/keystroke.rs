//! A key as the window system reports it.
use vstd::prelude::*;

use crate::text::same;

verus! {

/// The modifier keys held down.
#[derive(Debug, Clone, Copy, PartialEq, Eq, Structural, Default)]
pub struct Modifiers {
    pub control: bool,
    pub alt: bool,
    pub shift: bool,
    /// cmd on macOS, super elsewhere.
    pub platform: bool,
    pub function: bool,
}

impl Modifiers {
    /// Whether any modifier is held.
    pub open spec fn any(self) -> bool {
        self.control || self.alt || self.shift || self.platform || self.function
    }

    /// Whether any modifier is held.
    pub fn modified(&self) -> (r: bool)
        ensures
            r == self.any(),
    {
        self.control || self.alt || self.shift || self.platform || self.function
    }
}

/// One key press: its modifiers, the key's name, and the text it types.
#[derive(Debug, Clone)]
pub struct Keystroke {
    pub modifiers: Modifiers,
    pub key: String,
    pub key_char: Option<String>,
}

impl Keystroke {
    /// A copy of the key press.
    pub fn copy(&self) -> (r: Keystroke)
        ensures
            r == *self,
    {
        let key_char = match &self.key_char {
            None => None,
            Some(c) => Some(c.clone()),
        };
        Keystroke { modifiers: self.modifiers, key: self.key.clone(), key_char }
    }
}

/// How the window system reads one keystroke token of a keymap: the key press
/// it stands for and its canonical spelling. Tokens that it cannot read have
/// no such record.
#[derive(Debug, Clone)]
pub struct KeyParse {
    pub token: String,
    pub text: String,
    pub stroke: Keystroke,
}

/// How `token` reads, by the first record for it.
pub open spec fn parse_of(table: Seq<KeyParse>, token: Seq<char>) -> Option<KeyParse>
    decreases table.len(),
{
    if table.len() == 0 {
        None
    } else if table[0].token@ == token {
        Some(table[0])
    } else {
        parse_of(table.skip(1), token)
    }
}

/// How `token` reads, by the first record for it.
pub fn find_parse<'a>(table: &'a Vec<KeyParse>, token: &str) -> (r: Option<&'a KeyParse>)
    ensures
        match r {
            None => parse_of(table@, token@) is None,
            Some(k) => parse_of(table@, token@) == Some(*k),
        },
{
    let mut i: usize = 0;
    assert(table@.skip(0) =~= table@);
    while i < table.len()
        invariant
            i <= table.len(),
            parse_of(table@, token@) == parse_of(table@.skip(i as int), token@),
        decreases table.len() - i,
    {
        assert(table@.skip(i as int)[0] == table@[i as int]);
        assert(table@.skip(i as int).skip(1) =~= table@.skip(i + 1));
        if same(table[i].token.as_str(), token) {
            return Some(&table[i]);
        }
        i += 1;
    }
    None
}

} // verus!
