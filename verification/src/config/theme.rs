//! The colours that the renderer uses, from the `[colors]` section.
use vstd::prelude::*;

use crate::config::schema::ColorsConfig;
use crate::text::{chars_of, maybe, same, str_views, trim, trim_chars};

verus! {

/// A colour with its opacity, each part out of 255.
#[derive(Debug, Clone, Copy, PartialEq, Eq, Structural)]
pub struct Rgba8 {
    pub r: u8,
    pub g: u8,
    pub b: u8,
    pub a: u8,
}

/// An opaque colour from its six hexadecimal digits as a number.
pub open spec fn opaque(hex: u32) -> Rgba8 {
    Rgba8 {
        r: (hex / 0x10000 % 0x100) as u8,
        g: (hex / 0x100 % 0x100) as u8,
        b: (hex % 0x100) as u8,
        a: 255,
    }
}

/// An opaque colour from its six hexadecimal digits as a number.
pub fn rgb(hex: u32) -> (r: Rgba8)
    ensures
        r == opaque(hex),
{
    Rgba8 {
        r: (hex / 0x10000 % 0x100) as u8,
        g: (hex / 0x100 % 0x100) as u8,
        b: (hex % 0x100) as u8,
        a: 255,
    }
}

/// The value of a hexadecimal digit.
pub open spec fn hex_value(c: char) -> Option<int> {
    if '0' <= c <= '9' {
        Some(c as int - 48)
    } else if 'a' <= c <= 'f' {
        Some(c as int - 87)
    } else if 'A' <= c <= 'F' {
        Some(c as int - 55)
    } else {
        None
    }
}

fn hex_digit(c: char) -> (r: Option<u8>)
    ensures
        match r {
            None => hex_value(c) is None,
            Some(n) => hex_value(c) == Some(n as int) && n < 16,
        },
{
    if c >= '0' && c <= '9' {
        Some(c as u8 - 48)
    } else if c >= 'a' && c <= 'f' {
        Some(c as u8 - 87)
    } else if c >= 'A' && c <= 'F' {
        Some(c as u8 - 55)
    } else {
        None
    }
}

/// Whether every character from the second on is a hexadecimal digit.
pub open spec fn hex_body(s: Seq<char>) -> bool {
    forall|i: int| 1 <= i < s.len() ==> hex_value(#[trigger] s[i]) is Some
}

/// A channel written with one digit at `i`, or with two from there on.
pub open spec fn channel(s: Seq<char>, i: int, long: bool) -> int {
    if long {
        hex_value(s[i])->0 * 16 + hex_value(s[i + 1])->0
    } else {
        hex_value(s[i])->0 * 17
    }
}

/// The colour that `#rgb`, `#rgba`, `#rrggbb` or `#rrggbbaa` stands for.
pub open spec fn hex_colour(text: Seq<char>) -> Option<Rgba8> {
    let s = trim(text);
    let n = s.len();
    if (n == 4 || n == 5 || n == 7 || n == 9) && s[0] == '#' && hex_body(s) {
        let long = n >= 7;
        let w = if long {
            2int
        } else {
            1
        };
        Some(
            Rgba8 {
                r: channel(s, 1, long) as u8,
                g: channel(s, 1 + w, long) as u8,
                b: channel(s, 1 + 2 * w, long) as u8,
                a: if n == 5 || n == 9 {
                    channel(s, 1 + 3 * w, long) as u8
                } else {
                    255
                },
            },
        )
    } else {
        None
    }
}

fn read_channel(s: &[char], i: usize, long: bool) -> (r: u8)
    requires
        1 <= i,
        i + (if long {
            1int
        } else {
            0
        }) < s@.len(),
        hex_body(s@),
    ensures
        r == channel(s@, i as int, long),
{
    assert(hex_value(s@[i as int]) is Some);
    let first: u8 = match hex_digit(s[i]) {
        Some(d) => d,
        None => 0,
    };
    if long {
        assert(hex_value(s@[i + 1]) is Some);
        let second: u8 = match hex_digit(s[i + 1]) {
            Some(d) => d,
            None => 0,
        };
        first * 16 + second
    } else {
        first * 17
    }
}

/// Reads `#rgb`, `#rgba`, `#rrggbb` or `#rrggbbaa`.
pub fn parse_hex(text: &str) -> (r: Option<Rgba8>)
    ensures
        r == hex_colour(text@),
{
    let s = trim_chars(&chars_of(text));
    let n = s.len();
    if !((n == 4 || n == 5 || n == 7 || n == 9) && s[0] == '#') {
        return None;
    }
    let mut i: usize = 1;
    while i < n
        invariant
            1 <= i <= n == s@.len(),
            s@ == trim(text@),
            forall|k: int| 1 <= k < i ==> hex_value(#[trigger] s@[k]) is Some,
        decreases n - i,
    {
        if hex_digit(s[i]).is_none() {
            assert(hex_value(s@[i as int]) is None);
            assert(!hex_body(s@));
            return None;
        }
        i += 1;
    }
    let long = n >= 7;
    let w: usize = if long {
        2
    } else {
        1
    };
    let r = read_channel(&s, 1, long);
    let g = read_channel(&s, 1 + w, long);
    let b = read_channel(&s, 1 + 2 * w, long);
    let a = if n == 5 || n == 9 {
        read_channel(&s, 1 + 3 * w, long)
    } else {
        255
    };
    Some(Rgba8 { r, g, b, a })
}

/// Background, foreground, cursor, selection, and the sixteen ANSI colours.
pub open spec fn catppuccin_mocha() -> Seq<u32> {
    seq![0x11111bu32, 0xcdd6f4, 0xf5e0dc, 0x414458, 0x45475a, 0xf38ba8, 0xa6e3a1, 0xf9e2af, 0x89b4fa, 0xcba6f7, 0x94e2d5, 0xbac2de, 0x585b70, 0xf38ba8, 0xa6e3a1, 0xf9e2af, 0x89b4fa, 0xcba6f7, 0x94e2d5, 0xa6adc8]
}

fn catppuccin_mocha_palette() -> (r: Vec<u32>)
    ensures
        r@ == catppuccin_mocha(),
{
    let r: Vec<u32> = vec![0x11111b, 0xcdd6f4, 0xf5e0dc, 0x414458, 0x45475a, 0xf38ba8, 0xa6e3a1, 0xf9e2af, 0x89b4fa, 0xcba6f7, 0x94e2d5, 0xbac2de, 0x585b70, 0xf38ba8, 0xa6e3a1, 0xf9e2af, 0x89b4fa, 0xcba6f7, 0x94e2d5, 0xa6adc8];
    assert(r@ =~= catppuccin_mocha());
    r
}

/// Background, foreground, cursor, selection, and the sixteen ANSI colours.
pub open spec fn catppuccin_latte() -> Seq<u32> {
    seq![0xeff1f5u32, 0x4c4f69, 0xdc8a78, 0xbcc0cc, 0x5c5f77, 0xd20f39, 0x40a02b, 0xdf8e1d, 0x1e66f5, 0x8839ef, 0x179299, 0xacb0be, 0x6c6f85, 0xd20f39, 0x40a02b, 0xdf8e1d, 0x1e66f5, 0x8839ef, 0x179299, 0xbcc0cc]
}

fn catppuccin_latte_palette() -> (r: Vec<u32>)
    ensures
        r@ == catppuccin_latte(),
{
    let r: Vec<u32> = vec![0xeff1f5, 0x4c4f69, 0xdc8a78, 0xbcc0cc, 0x5c5f77, 0xd20f39, 0x40a02b, 0xdf8e1d, 0x1e66f5, 0x8839ef, 0x179299, 0xacb0be, 0x6c6f85, 0xd20f39, 0x40a02b, 0xdf8e1d, 0x1e66f5, 0x8839ef, 0x179299, 0xbcc0cc];
    assert(r@ =~= catppuccin_latte());
    r
}

/// Background, foreground, cursor, selection, and the sixteen ANSI colours.
pub open spec fn gruvbox_dark() -> Seq<u32> {
    seq![0x282828u32, 0xebdbb2, 0xebdbb2, 0x504945, 0x282828, 0xcc241d, 0x98971a, 0xd79921, 0x458588, 0xb16286, 0x689d6a, 0xa89984, 0x928374, 0xfb4934, 0xb8bb26, 0xfabd2f, 0x83a598, 0xd3869b, 0x8ec07c, 0xebdbb2]
}

fn gruvbox_dark_palette() -> (r: Vec<u32>)
    ensures
        r@ == gruvbox_dark(),
{
    let r: Vec<u32> = vec![0x282828, 0xebdbb2, 0xebdbb2, 0x504945, 0x282828, 0xcc241d, 0x98971a, 0xd79921, 0x458588, 0xb16286, 0x689d6a, 0xa89984, 0x928374, 0xfb4934, 0xb8bb26, 0xfabd2f, 0x83a598, 0xd3869b, 0x8ec07c, 0xebdbb2];
    assert(r@ =~= gruvbox_dark());
    r
}

/// Background, foreground, cursor, selection, and the sixteen ANSI colours.
pub open spec fn tokyonight() -> Seq<u32> {
    seq![0x1a1b26u32, 0xc0caf5, 0xc0caf5, 0x33467c, 0x15161e, 0xf7768e, 0x9ece6a, 0xe0af68, 0x7aa2f7, 0xbb9af7, 0x7dcfff, 0xa9b1d6, 0x414868, 0xf7768e, 0x9ece6a, 0xe0af68, 0x7aa2f7, 0xbb9af7, 0x7dcfff, 0xc0caf5]
}

fn tokyonight_palette() -> (r: Vec<u32>)
    ensures
        r@ == tokyonight(),
{
    let r: Vec<u32> = vec![0x1a1b26, 0xc0caf5, 0xc0caf5, 0x33467c, 0x15161e, 0xf7768e, 0x9ece6a, 0xe0af68, 0x7aa2f7, 0xbb9af7, 0x7dcfff, 0xa9b1d6, 0x414868, 0xf7768e, 0x9ece6a, 0xe0af68, 0x7aa2f7, 0xbb9af7, 0x7dcfff, 0xc0caf5];
    assert(r@ =~= tokyonight());
    r
}

/// Background, foreground, cursor, selection, and the sixteen ANSI colours.
pub open spec fn dracula() -> Seq<u32> {
    seq![0x282a36u32, 0xf8f8f2, 0xf8f8f2, 0x44475a, 0x21222c, 0xff5555, 0x50fa7b, 0xf1fa8c, 0xbd93f9, 0xff79c6, 0x8be9fd, 0xf8f8f2, 0x6272a4, 0xff6e6e, 0x69ff94, 0xffffa5, 0xd6acff, 0xff92df, 0xa4ffff, 0xffffff]
}

fn dracula_palette() -> (r: Vec<u32>)
    ensures
        r@ == dracula(),
{
    let r: Vec<u32> = vec![0x282a36, 0xf8f8f2, 0xf8f8f2, 0x44475a, 0x21222c, 0xff5555, 0x50fa7b, 0xf1fa8c, 0xbd93f9, 0xff79c6, 0x8be9fd, 0xf8f8f2, 0x6272a4, 0xff6e6e, 0x69ff94, 0xffffa5, 0xd6acff, 0xff92df, 0xa4ffff, 0xffffff];
    assert(r@ =~= dracula());
    r
}

/// Background, foreground, cursor, selection, and the sixteen ANSI colours.
pub open spec fn nord() -> Seq<u32> {
    seq![0x2e3440u32, 0xd8dee9, 0xd8dee9, 0x434c5e, 0x3b4252, 0xbf616a, 0xa3be8c, 0xebcb8b, 0x81a1c1, 0xb48ead, 0x88c0d0, 0xe5e9f0, 0x4c566a, 0xbf616a, 0xa3be8c, 0xebcb8b, 0x81a1c1, 0xb48ead, 0x8fbcbb, 0xeceff4]
}

fn nord_palette() -> (r: Vec<u32>)
    ensures
        r@ == nord(),
{
    let r: Vec<u32> = vec![0x2e3440, 0xd8dee9, 0xd8dee9, 0x434c5e, 0x3b4252, 0xbf616a, 0xa3be8c, 0xebcb8b, 0x81a1c1, 0xb48ead, 0x88c0d0, 0xe5e9f0, 0x4c566a, 0xbf616a, 0xa3be8c, 0xebcb8b, 0x81a1c1, 0xb48ead, 0x8fbcbb, 0xeceff4];
    assert(r@ =~= nord());
    r
}

/// Background, foreground, cursor, selection, and the sixteen ANSI colours.
pub open spec fn solarized_dark() -> Seq<u32> {
    seq![0x002b36u32, 0x839496, 0x839496, 0x073642, 0x073642, 0xdc322f, 0x859900, 0xb58900, 0x268bd2, 0xd33682, 0x2aa198, 0xeee8d5, 0x586e75, 0xcb4b16, 0x859900, 0xb58900, 0x268bd2, 0x6c71c4, 0x2aa198, 0xfdf6e3]
}

fn solarized_dark_palette() -> (r: Vec<u32>)
    ensures
        r@ == solarized_dark(),
{
    let r: Vec<u32> = vec![0x002b36, 0x839496, 0x839496, 0x073642, 0x073642, 0xdc322f, 0x859900, 0xb58900, 0x268bd2, 0xd33682, 0x2aa198, 0xeee8d5, 0x586e75, 0xcb4b16, 0x859900, 0xb58900, 0x268bd2, 0x6c71c4, 0x2aa198, 0xfdf6e3];
    assert(r@ =~= solarized_dark());
    r
}

/// Background, foreground, cursor, selection, and the sixteen ANSI colours.
pub open spec fn oxide() -> Seq<u32> {
    seq![0x100d0cu32, 0xe8ddd5, 0xfab387, 0x4a3428, 0x3a2e28, 0xe2725b, 0xa6b86a, 0xe5a458, 0x7d9bb8, 0xc78a92, 0x8fb0a0, 0xc9bcb2, 0x5c4a3d, 0xf0876f, 0xb8cc7a, 0xf5b96a, 0x93b3d4, 0xdda0aa, 0xa3c9b6, 0xe8ddd5]
}

fn oxide_palette() -> (r: Vec<u32>)
    ensures
        r@ == oxide(),
{
    let r: Vec<u32> = vec![0x100d0c, 0xe8ddd5, 0xfab387, 0x4a3428, 0x3a2e28, 0xe2725b, 0xa6b86a, 0xe5a458, 0x7d9bb8, 0xc78a92, 0x8fb0a0, 0xc9bcb2, 0x5c4a3d, 0xf0876f, 0xb8cc7a, 0xf5b96a, 0x93b3d4, 0xdda0aa, 0xa3c9b6, 0xe8ddd5];
    assert(r@ =~= oxide());
    r
}

/// Background, foreground, cursor, selection, and the sixteen ANSI colours.
pub open spec fn ethereal() -> Seq<u32> {
    seq![0x060b1eu32, 0xffcead, 0xffcead, 0x252e56, 0x060b1e, 0xed5b5a, 0x92a593, 0xe9bb4f, 0x7d82d9, 0xc89dc1, 0xa3bfd1, 0xffcead, 0x6d7db6, 0xfaaaa9, 0xc4cfc4, 0xf7dc9c, 0xc2c4f0, 0xead7e7, 0xdfeaf0, 0xffcead]
}

fn ethereal_palette() -> (r: Vec<u32>)
    ensures
        r@ == ethereal(),
{
    let r: Vec<u32> = vec![0x060b1e, 0xffcead, 0xffcead, 0x252e56, 0x060b1e, 0xed5b5a, 0x92a593, 0xe9bb4f, 0x7d82d9, 0xc89dc1, 0xa3bfd1, 0xffcead, 0x6d7db6, 0xfaaaa9, 0xc4cfc4, 0xf7dc9c, 0xc2c4f0, 0xead7e7, 0xdfeaf0, 0xffcead];
    assert(r@ =~= ethereal());
    r
}

/// Background, foreground, cursor, selection, and the sixteen ANSI colours.
pub open spec fn everforest() -> Seq<u32> {
    seq![0x2d353bu32, 0xd3c6aa, 0xd3c6aa, 0x3d484d, 0x2d353b, 0xe67e80, 0xa7c080, 0xdbbc7f, 0x7fbbb3, 0xd699b6, 0x83c092, 0xd3c6aa, 0x475258, 0xe67e80, 0xa7c080, 0xdbbc7f, 0x7fbbb3, 0xd699b6, 0x83c092, 0xd3c6aa]
}

fn everforest_palette() -> (r: Vec<u32>)
    ensures
        r@ == everforest(),
{
    let r: Vec<u32> = vec![0x2d353b, 0xd3c6aa, 0xd3c6aa, 0x3d484d, 0x2d353b, 0xe67e80, 0xa7c080, 0xdbbc7f, 0x7fbbb3, 0xd699b6, 0x83c092, 0xd3c6aa, 0x475258, 0xe67e80, 0xa7c080, 0xdbbc7f, 0x7fbbb3, 0xd699b6, 0x83c092, 0xd3c6aa];
    assert(r@ =~= everforest());
    r
}

/// Background, foreground, cursor, selection, and the sixteen ANSI colours.
pub open spec fn flexoki_light() -> Seq<u32> {
    seq![0xfffcf0u32, 0x100f0f, 0x100f0f, 0xcecdc3, 0xfffcf0, 0xd14d41, 0x879a39, 0xd0a215, 0x205ea6, 0xce5d97, 0x3aa99f, 0x100f0f, 0xb7b5ac, 0xd14d41, 0x879a39, 0xd0a215, 0x4385be, 0xce5d97, 0x3aa99f, 0x100f0f]
}

fn flexoki_light_palette() -> (r: Vec<u32>)
    ensures
        r@ == flexoki_light(),
{
    let r: Vec<u32> = vec![0xfffcf0, 0x100f0f, 0x100f0f, 0xcecdc3, 0xfffcf0, 0xd14d41, 0x879a39, 0xd0a215, 0x205ea6, 0xce5d97, 0x3aa99f, 0x100f0f, 0xb7b5ac, 0xd14d41, 0x879a39, 0xd0a215, 0x4385be, 0xce5d97, 0x3aa99f, 0x100f0f];
    assert(r@ =~= flexoki_light());
    r
}

/// Background, foreground, cursor, selection, and the sixteen ANSI colours.
pub open spec fn hackerman() -> Seq<u32> {
    seq![0x0b0c16u32, 0xddf7ff, 0xddf7ff, 0x1f253a, 0x0b0c16, 0x50f872, 0x4fe88f, 0x50f7d4, 0x829dd4, 0x86a7df, 0x7cf8f7, 0xddf7ff, 0x2d3450, 0x85ff9d, 0x9cf7c2, 0xa4ffec, 0xc4d2ed, 0xcddbf4, 0xd1fffe, 0xddf7ff]
}

fn hackerman_palette() -> (r: Vec<u32>)
    ensures
        r@ == hackerman(),
{
    let r: Vec<u32> = vec![0x0b0c16, 0xddf7ff, 0xddf7ff, 0x1f253a, 0x0b0c16, 0x50f872, 0x4fe88f, 0x50f7d4, 0x829dd4, 0x86a7df, 0x7cf8f7, 0xddf7ff, 0x2d3450, 0x85ff9d, 0x9cf7c2, 0xa4ffec, 0xc4d2ed, 0xcddbf4, 0xd1fffe, 0xddf7ff];
    assert(r@ =~= hackerman());
    r
}

/// Background, foreground, cursor, selection, and the sixteen ANSI colours.
pub open spec fn kanagawa() -> Seq<u32> {
    seq![0x1f1f28u32, 0xdcd7ba, 0xdcd7ba, 0x363646, 0x1f1f28, 0xc34043, 0x76946a, 0xc0a36e, 0x7e9cd8, 0x957fb8, 0x6a9589, 0xdcd7ba, 0x54546d, 0xe82424, 0x98bb6c, 0xe6c384, 0x7fb4ca, 0x938aa9, 0x7aa89f, 0xdcd7ba]
}

fn kanagawa_palette() -> (r: Vec<u32>)
    ensures
        r@ == kanagawa(),
{
    let r: Vec<u32> = vec![0x1f1f28, 0xdcd7ba, 0xdcd7ba, 0x363646, 0x1f1f28, 0xc34043, 0x76946a, 0xc0a36e, 0x7e9cd8, 0x957fb8, 0x6a9589, 0xdcd7ba, 0x54546d, 0xe82424, 0x98bb6c, 0xe6c384, 0x7fb4ca, 0x938aa9, 0x7aa89f, 0xdcd7ba];
    assert(r@ =~= kanagawa());
    r
}

/// Background, foreground, cursor, selection, and the sixteen ANSI colours.
pub open spec fn last_horizon() -> Seq<u32> {
    seq![0x0c0b0cu32, 0xfafcfb, 0xe2dddc, 0x584e51, 0x0c0b0c, 0xc38b7b, 0x87a9b0, 0x6b5e73, 0xb59790, 0xc4d8e2, 0xa5a0b6, 0xfafcfb, 0x584e51, 0xc38b7b, 0x87a9b0, 0x6b5e73, 0xb59790, 0xc4d8e2, 0xa5a0b6, 0xe2dddc]
}

fn last_horizon_palette() -> (r: Vec<u32>)
    ensures
        r@ == last_horizon(),
{
    let r: Vec<u32> = vec![0x0c0b0c, 0xfafcfb, 0xe2dddc, 0x584e51, 0x0c0b0c, 0xc38b7b, 0x87a9b0, 0x6b5e73, 0xb59790, 0xc4d8e2, 0xa5a0b6, 0xfafcfb, 0x584e51, 0xc38b7b, 0x87a9b0, 0x6b5e73, 0xb59790, 0xc4d8e2, 0xa5a0b6, 0xe2dddc];
    assert(r@ =~= last_horizon());
    r
}

/// Background, foreground, cursor, selection, and the sixteen ANSI colours.
pub open spec fn lumon() -> Seq<u32> {
    seq![0x16242du32, 0xd6e2ee, 0xf2fcff, 0x243d56, 0x16242d, 0x4d86b0, 0x5e95bc, 0x6fa4c9, 0x6fb8e3, 0x8bc9eb, 0xb4e4f6, 0xd6e2ee, 0x304860, 0x73a6cb, 0x86b7d8, 0x9dcae5, 0xf2fcff, 0xb1d8ee, 0xd1eef8, 0xf2fcff]
}

fn lumon_palette() -> (r: Vec<u32>)
    ensures
        r@ == lumon(),
{
    let r: Vec<u32> = vec![0x16242d, 0xd6e2ee, 0xf2fcff, 0x243d56, 0x16242d, 0x4d86b0, 0x5e95bc, 0x6fa4c9, 0x6fb8e3, 0x8bc9eb, 0xb4e4f6, 0xd6e2ee, 0x304860, 0x73a6cb, 0x86b7d8, 0x9dcae5, 0xf2fcff, 0xb1d8ee, 0xd1eef8, 0xf2fcff];
    assert(r@ =~= lumon());
    r
}

/// Background, foreground, cursor, selection, and the sixteen ANSI colours.
pub open spec fn lupine() -> Seq<u32> {
    seq![0xfafafau32, 0x212121, 0x000000, 0xd0d0d0, 0xfafafa, 0xc900c4, 0x4a2fd0, 0x026fde, 0x3264eb, 0x8a4ad7, 0x0c67de, 0x212121, 0x9e9e9e, 0xf930fb, 0x9f85e0, 0x358fff, 0x5482ff, 0xb363ff, 0x3986ff, 0x000000]
}

fn lupine_palette() -> (r: Vec<u32>)
    ensures
        r@ == lupine(),
{
    let r: Vec<u32> = vec![0xfafafa, 0x212121, 0x000000, 0xd0d0d0, 0xfafafa, 0xc900c4, 0x4a2fd0, 0x026fde, 0x3264eb, 0x8a4ad7, 0x0c67de, 0x212121, 0x9e9e9e, 0xf930fb, 0x9f85e0, 0x358fff, 0x5482ff, 0xb363ff, 0x3986ff, 0x000000];
    assert(r@ =~= lupine());
    r
}

/// Background, foreground, cursor, selection, and the sixteen ANSI colours.
pub open spec fn matte_black() -> Seq<u32> {
    seq![0x121212u32, 0xbebebe, 0xbebebe, 0x2a2a2a, 0x121212, 0xd35f5f, 0xffc107, 0xb91c1c, 0xe68e0d, 0xd35f5f, 0xbebebe, 0xbebebe, 0x333333, 0xb91c1c, 0xffc107, 0xb90a0a, 0xf59e0b, 0xb91c1c, 0xeaeaea, 0xbebebe]
}

fn matte_black_palette() -> (r: Vec<u32>)
    ensures
        r@ == matte_black(),
{
    let r: Vec<u32> = vec![0x121212, 0xbebebe, 0xbebebe, 0x2a2a2a, 0x121212, 0xd35f5f, 0xffc107, 0xb91c1c, 0xe68e0d, 0xd35f5f, 0xbebebe, 0xbebebe, 0x333333, 0xb91c1c, 0xffc107, 0xb90a0a, 0xf59e0b, 0xb91c1c, 0xeaeaea, 0xbebebe];
    assert(r@ =~= matte_black());
    r
}

/// Background, foreground, cursor, selection, and the sixteen ANSI colours.
pub open spec fn miasma() -> Seq<u32> {
    seq![0x222222u32, 0xc2c2b0, 0xc2c2b0, 0x383838, 0x222222, 0x685742, 0x5f875f, 0xb36d43, 0x78824b, 0xbb7744, 0xc9a554, 0xc2c2b0, 0x666666, 0x685742, 0x5f875f, 0xb36d43, 0x78824b, 0xbb7744, 0xc9a554, 0xc2c2b0]
}

fn miasma_palette() -> (r: Vec<u32>)
    ensures
        r@ == miasma(),
{
    let r: Vec<u32> = vec![0x222222, 0xc2c2b0, 0xc2c2b0, 0x383838, 0x222222, 0x685742, 0x5f875f, 0xb36d43, 0x78824b, 0xbb7744, 0xc9a554, 0xc2c2b0, 0x666666, 0x685742, 0x5f875f, 0xb36d43, 0x78824b, 0xbb7744, 0xc9a554, 0xc2c2b0];
    assert(r@ =~= miasma());
    r
}

/// Background, foreground, cursor, selection, and the sixteen ANSI colours.
pub open spec fn osaka_jade() -> Seq<u32> {
    seq![0x111c18u32, 0xc1c497, 0xf7e8b2, 0x32473b, 0x111c18, 0xff5345, 0x549e6a, 0x459451, 0x509475, 0xd2689c, 0x2dd5b7, 0xc1c497, 0x53685b, 0xdb9f9c, 0x63b07a, 0xe5c736, 0xacd4cf, 0x75bbb3, 0x8cd3cb, 0xf7e8b2]
}

fn osaka_jade_palette() -> (r: Vec<u32>)
    ensures
        r@ == osaka_jade(),
{
    let r: Vec<u32> = vec![0x111c18, 0xc1c497, 0xf7e8b2, 0x32473b, 0x111c18, 0xff5345, 0x549e6a, 0x459451, 0x509475, 0xd2689c, 0x2dd5b7, 0xc1c497, 0x53685b, 0xdb9f9c, 0x63b07a, 0xe5c736, 0xacd4cf, 0x75bbb3, 0x8cd3cb, 0xf7e8b2];
    assert(r@ =~= osaka_jade());
    r
}

/// Background, foreground, cursor, selection, and the sixteen ANSI colours.
pub open spec fn retro_82() -> Seq<u32> {
    seq![0x05182eu32, 0xf6dcac, 0xf6dcac, 0x134e5a, 0x05182e, 0xf85525, 0x028391, 0xe97b3c, 0x3f8f8a, 0x3f8f8a, 0x8cbfb8, 0xf6dcac, 0x2a6b78, 0xf85525, 0x028391, 0xe97b3c, 0xfaa968, 0x3f8f8a, 0x8cbfb8, 0xf6dcac]
}

fn retro_82_palette() -> (r: Vec<u32>)
    ensures
        r@ == retro_82(),
{
    let r: Vec<u32> = vec![0x05182e, 0xf6dcac, 0xf6dcac, 0x134e5a, 0x05182e, 0xf85525, 0x028391, 0xe97b3c, 0x3f8f8a, 0x3f8f8a, 0x8cbfb8, 0xf6dcac, 0x2a6b78, 0xf85525, 0x028391, 0xe97b3c, 0xfaa968, 0x3f8f8a, 0x8cbfb8, 0xf6dcac];
    assert(r@ =~= retro_82());
    r
}

/// Background, foreground, cursor, selection, and the sixteen ANSI colours.
pub open spec fn ristretto() -> Seq<u32> {
    seq![0x2c2525u32, 0xe6d9db, 0xe6d9db, 0x403e41, 0x2c2525, 0xfd6883, 0xadda78, 0xf9cc6c, 0xf38d70, 0xa8a9eb, 0x85dacc, 0xe6d9db, 0x72696a, 0xff8297, 0xc8e292, 0xfcd675, 0xf8a788, 0xbebffd, 0x9bf1e1, 0xe6d9db]
}

fn ristretto_palette() -> (r: Vec<u32>)
    ensures
        r@ == ristretto(),
{
    let r: Vec<u32> = vec![0x2c2525, 0xe6d9db, 0xe6d9db, 0x403e41, 0x2c2525, 0xfd6883, 0xadda78, 0xf9cc6c, 0xf38d70, 0xa8a9eb, 0x85dacc, 0xe6d9db, 0x72696a, 0xff8297, 0xc8e292, 0xfcd675, 0xf8a788, 0xbebffd, 0x9bf1e1, 0xe6d9db];
    assert(r@ =~= ristretto());
    r
}

/// Background, foreground, cursor, selection, and the sixteen ANSI colours.
pub open spec fn rose_pine_dawn() -> Seq<u32> {
    seq![0xfaf4edu32, 0x575279, 0x575279, 0xdfdad9, 0xfaf4ed, 0xb4637a, 0x286983, 0xea9d34, 0x56949f, 0x907aa9, 0xd7827e, 0x575279, 0xcecacd, 0xb4637a, 0x286983, 0xea9d34, 0x56949f, 0x907aa9, 0xd7827e, 0x575279]
}

fn rose_pine_dawn_palette() -> (r: Vec<u32>)
    ensures
        r@ == rose_pine_dawn(),
{
    let r: Vec<u32> = vec![0xfaf4ed, 0x575279, 0x575279, 0xdfdad9, 0xfaf4ed, 0xb4637a, 0x286983, 0xea9d34, 0x56949f, 0x907aa9, 0xd7827e, 0x575279, 0xcecacd, 0xb4637a, 0x286983, 0xea9d34, 0x56949f, 0x907aa9, 0xd7827e, 0x575279];
    assert(r@ =~= rose_pine_dawn());
    r
}

/// Background, foreground, cursor, selection, and the sixteen ANSI colours.
pub open spec fn solitude() -> Seq<u32> {
    seq![0x101315u32, 0xcacccc, 0xa5aeb4, 0x343d41, 0x101315, 0x565d60, 0x9fa5a9, 0xd9dbdc, 0x798186, 0xaeaeae, 0x707070, 0xcacccc, 0x4b4e55, 0xde6145, 0x343d41, 0xc9c2b4, 0x5d6367, 0x9a9a9a, 0x707070, 0xa5aeb4]
}

fn solitude_palette() -> (r: Vec<u32>)
    ensures
        r@ == solitude(),
{
    let r: Vec<u32> = vec![0x101315, 0xcacccc, 0xa5aeb4, 0x343d41, 0x101315, 0x565d60, 0x9fa5a9, 0xd9dbdc, 0x798186, 0xaeaeae, 0x707070, 0xcacccc, 0x4b4e55, 0xde6145, 0x343d41, 0xc9c2b4, 0x5d6367, 0x9a9a9a, 0x707070, 0xa5aeb4];
    assert(r@ =~= solitude());
    r
}

/// Background, foreground, cursor, selection, and the sixteen ANSI colours.
pub open spec fn vantablack() -> Seq<u32> {
    seq![0x000000u32, 0xffffff, 0xffffff, 0x1a1a1a, 0x000000, 0xa4a4a4, 0xb6b6b6, 0xcecece, 0x8d8d8d, 0x9b9b9b, 0xb0b0b0, 0xffffff, 0x7a7a7a, 0xa4a4a4, 0xb6b6b6, 0xcecece, 0x8d8d8d, 0x9b9b9b, 0xb0b0b0, 0xffffff]
}

fn vantablack_palette() -> (r: Vec<u32>)
    ensures
        r@ == vantablack(),
{
    let r: Vec<u32> = vec![0x000000, 0xffffff, 0xffffff, 0x1a1a1a, 0x000000, 0xa4a4a4, 0xb6b6b6, 0xcecece, 0x8d8d8d, 0x9b9b9b, 0xb0b0b0, 0xffffff, 0x7a7a7a, 0xa4a4a4, 0xb6b6b6, 0xcecece, 0x8d8d8d, 0x9b9b9b, 0xb0b0b0, 0xffffff];
    assert(r@ =~= vantablack());
    r
}

/// Background, foreground, cursor, selection, and the sixteen ANSI colours.
pub open spec fn white() -> Seq<u32> {
    seq![0xffffffu32, 0x000000, 0x000000, 0xc0c0c0, 0xffffff, 0x2a2a2a, 0x3a3a3a, 0x4a4a4a, 0x1a1a1a, 0x2e2e2e, 0x3e3e3e, 0x000000, 0x808080, 0x2a2a2a, 0x3a3a3a, 0x4a4a4a, 0x1a1a1a, 0x2e2e2e, 0x3e3e3e, 0x000000]
}

fn white_palette() -> (r: Vec<u32>)
    ensures
        r@ == white(),
{
    let r: Vec<u32> = vec![0xffffff, 0x000000, 0x000000, 0xc0c0c0, 0xffffff, 0x2a2a2a, 0x3a3a3a, 0x4a4a4a, 0x1a1a1a, 0x2e2e2e, 0x3e3e3e, 0x000000, 0x808080, 0x2a2a2a, 0x3a3a3a, 0x4a4a4a, 0x1a1a1a, 0x2e2e2e, 0x3e3e3e, 0x000000];
    assert(r@ =~= white());
    r
}

/// The names of the presets.
pub open spec fn preset_list() -> Seq<Seq<char>> {
    seq!["catppuccin-mocha"@, "catppuccin-latte"@, "dracula"@, "ethereal"@, "everforest"@, "flexoki-light"@, "gruvbox-dark"@, "hackerman"@, "kanagawa"@, "last-horizon"@, "lumon"@, "lupine"@, "matte-black"@, "miasma"@, "nord"@, "osaka-jade"@, "oxide"@, "retro-82"@, "ristretto"@, "rose-pine-dawn"@, "solarized-dark"@, "solitude"@, "tokyonight"@, "vantablack"@, "white"@]
}

/// The names of the presets.
pub fn preset_names() -> (r: Vec<&'static str>)
    ensures
        str_views(r@) == preset_list(),
{
    let r = vec!["catppuccin-mocha", "catppuccin-latte", "dracula", "ethereal", "everforest", "flexoki-light", "gruvbox-dark", "hackerman", "kanagawa", "last-horizon", "lumon", "lupine", "matte-black", "miasma", "nord", "osaka-jade", "oxide", "retro-82", "ristretto", "rose-pine-dawn", "solarized-dark", "solitude", "tokyonight", "vantablack", "white"];
    assert(str_views(r@) =~= preset_list());
    r
}

/// The palette of a preset.
pub open spec fn palette_of(name: Seq<char>) -> Option<Seq<u32>> {
    if name == "catppuccin-mocha"@ {
        Some(catppuccin_mocha())
    } else if name == "catppuccin-latte"@ {
        Some(catppuccin_latte())
    } else if name == "dracula"@ {
        Some(dracula())
    } else if name == "ethereal"@ {
        Some(ethereal())
    } else if name == "everforest"@ {
        Some(everforest())
    } else if name == "flexoki-light"@ {
        Some(flexoki_light())
    } else if name == "gruvbox-dark"@ {
        Some(gruvbox_dark())
    } else if name == "hackerman"@ {
        Some(hackerman())
    } else if name == "kanagawa"@ {
        Some(kanagawa())
    } else if name == "last-horizon"@ {
        Some(last_horizon())
    } else if name == "lumon"@ {
        Some(lumon())
    } else if name == "lupine"@ {
        Some(lupine())
    } else if name == "matte-black"@ {
        Some(matte_black())
    } else if name == "miasma"@ {
        Some(miasma())
    } else if name == "nord"@ {
        Some(nord())
    } else if name == "osaka-jade"@ {
        Some(osaka_jade())
    } else if name == "oxide"@ {
        Some(oxide())
    } else if name == "retro-82"@ {
        Some(retro_82())
    } else if name == "ristretto"@ {
        Some(ristretto())
    } else if name == "rose-pine-dawn"@ {
        Some(rose_pine_dawn())
    } else if name == "solarized-dark"@ {
        Some(solarized_dark())
    } else if name == "solitude"@ {
        Some(solitude())
    } else if name == "tokyonight"@ {
        Some(tokyonight())
    } else if name == "vantablack"@ {
        Some(vantablack())
    } else if name == "white"@ {
        Some(white())
    } else {
        None
    }
}

fn preset(name: &str) -> (r: Option<(&'static str, Vec<u32>)>)
    ensures
        match r {
            None => palette_of(name@) is None,
            Some((n, p)) => n@ == name@ && palette_of(name@) == Some(p@) && p@.len() == 20,
        },
{
    if same(name, "catppuccin-mocha") {
        Some(("catppuccin-mocha", catppuccin_mocha_palette()))
    } else if same(name, "catppuccin-latte") {
        Some(("catppuccin-latte", catppuccin_latte_palette()))
    } else if same(name, "dracula") {
        Some(("dracula", dracula_palette()))
    } else if same(name, "ethereal") {
        Some(("ethereal", ethereal_palette()))
    } else if same(name, "everforest") {
        Some(("everforest", everforest_palette()))
    } else if same(name, "flexoki-light") {
        Some(("flexoki-light", flexoki_light_palette()))
    } else if same(name, "gruvbox-dark") {
        Some(("gruvbox-dark", gruvbox_dark_palette()))
    } else if same(name, "hackerman") {
        Some(("hackerman", hackerman_palette()))
    } else if same(name, "kanagawa") {
        Some(("kanagawa", kanagawa_palette()))
    } else if same(name, "last-horizon") {
        Some(("last-horizon", last_horizon_palette()))
    } else if same(name, "lumon") {
        Some(("lumon", lumon_palette()))
    } else if same(name, "lupine") {
        Some(("lupine", lupine_palette()))
    } else if same(name, "matte-black") {
        Some(("matte-black", matte_black_palette()))
    } else if same(name, "miasma") {
        Some(("miasma", miasma_palette()))
    } else if same(name, "nord") {
        Some(("nord", nord_palette()))
    } else if same(name, "osaka-jade") {
        Some(("osaka-jade", osaka_jade_palette()))
    } else if same(name, "oxide") {
        Some(("oxide", oxide_palette()))
    } else if same(name, "retro-82") {
        Some(("retro-82", retro_82_palette()))
    } else if same(name, "ristretto") {
        Some(("ristretto", ristretto_palette()))
    } else if same(name, "rose-pine-dawn") {
        Some(("rose-pine-dawn", rose_pine_dawn_palette()))
    } else if same(name, "solarized-dark") {
        Some(("solarized-dark", solarized_dark_palette()))
    } else if same(name, "solitude") {
        Some(("solitude", solitude_palette()))
    } else if same(name, "tokyonight") {
        Some(("tokyonight", tokyonight_palette()))
    } else if same(name, "vantablack") {
        Some(("vantablack", vantablack_palette()))
    } else if same(name, "white") {
        Some(("white", white_palette()))
    } else {
        None
    }
}

/// Every preset that is listed has a palette, and no other name has one.
pub proof fn lemma_presets_listed(name: Seq<char>)
    ensures
        palette_of(name) is Some <==> preset_list().contains(name),
        palette_of(name) matches Some(p) ==> p.len() == 20,
{
    let l = preset_list();
    assert(l[0] == "catppuccin-mocha"@);
    assert(l[1] == "catppuccin-latte"@);
    assert(l[2] == "dracula"@);
    assert(l[3] == "ethereal"@);
    assert(l[4] == "everforest"@);
    assert(l[5] == "flexoki-light"@);
    assert(l[6] == "gruvbox-dark"@);
    assert(l[7] == "hackerman"@);
    assert(l[8] == "kanagawa"@);
    assert(l[9] == "last-horizon"@);
    assert(l[10] == "lumon"@);
    assert(l[11] == "lupine"@);
    assert(l[12] == "matte-black"@);
    assert(l[13] == "miasma"@);
    assert(l[14] == "nord"@);
    assert(l[15] == "osaka-jade"@);
    assert(l[16] == "oxide"@);
    assert(l[17] == "retro-82"@);
    assert(l[18] == "ristretto"@);
    assert(l[19] == "rose-pine-dawn"@);
    assert(l[20] == "solarized-dark"@);
    assert(l[21] == "solitude"@);
    assert(l[22] == "tokyonight"@);
    assert(l[23] == "vantablack"@);
    assert(l[24] == "white"@);
    if l.contains(name) {
        let i = choose|i: int| 0 <= i < l.len() && l[i] == name;
    }
}

/// Resolved colors: the runtime type the renderer uses.
#[derive(Debug, Clone, PartialEq)]
pub struct Theme {
    pub background: Rgba8,
    pub foreground: Rgba8,
    pub cursor: Rgba8,
    pub selection_bg: Rgba8,
    /// Text inside a selection; `None` keeps each cell's own colour.
    pub selection_fg: Option<Rgba8>,
    /// Indices 0-7 normal, 8-15 bright.
    pub ansi: Vec<Rgba8>,
    /// The preset this was built from, after light/dark resolution.
    pub preset: &'static str,
}

/// The preset that a name stands for: an unknown one is the default.
pub open spec fn chosen_preset(name: Option<Seq<char>>) -> Seq<char> {
    if name is Some && palette_of(name->0) is Some {
        name->0
    } else {
        "catppuccin-mocha"@
    }
}

/// The colour that a setting says, where it can be read.
pub open spec fn explicit_colour(setting: Option<String>) -> Option<Rgba8> {
    match setting {
        None => None,
        Some(s) => hex_colour(s@),
    }
}

/// The colour that a setting says, else the one of the palette.
pub open spec fn picked(setting: Option<String>, base: Seq<u32>, i: int) -> Rgba8 {
    match explicit_colour(setting) {
        None => opaque(base[i]),
        Some(c) => c,
    }
}

/// Whether a theme is that of a preset with the settings of `[colors]`.
pub open spec fn themed(t: Theme, c: ColorsConfig, name: Option<Seq<char>>) -> bool {
    let base = palette_of(chosen_preset(name))->0;
    &&& t.preset@ == chosen_preset(name)
    &&& t.background == picked(c.background, base, 0)
    &&& t.foreground == picked(c.foreground, base, 1)
    &&& t.cursor == picked(c.cursor, base, 2)
    &&& t.selection_bg == picked(c.selection_bg, base, 3)
    &&& t.selection_fg == explicit_colour(c.selection_fg)
    &&& t.ansi@ == seq![
        picked(c.black, base, 4),
        picked(c.red, base, 5),
        picked(c.green, base, 6),
        picked(c.yellow, base, 7),
        picked(c.blue, base, 8),
        picked(c.magenta, base, 9),
        picked(c.cyan, base, 10),
        picked(c.white, base, 11),
        picked(c.bright_black, base, 12),
        picked(c.bright_red, base, 13),
        picked(c.bright_green, base, 14),
        picked(c.bright_yellow, base, 15),
        picked(c.bright_blue, base, 16),
        picked(c.bright_magenta, base, 17),
        picked(c.bright_cyan, base, 18),
        picked(c.bright_white, base, 19),
    ]
}

/// The preset name that `[colors]` selects for an appearance.
pub open spec fn selected(c: ColorsConfig, dark: bool) -> Option<Seq<char>> {
    let variant = if dark {
        c.preset_dark
    } else {
        c.preset_light
    };
    if c.follow_system && variant is Some {
        maybe(variant)
    } else {
        maybe(c.preset)
    }
}

/// The preset name once the appearance is known. Where none is named, a
/// light appearance that is followed gets the light default.
pub open spec fn resolved_name(c: ColorsConfig, dark: bool) -> Option<Seq<char>> {
    if selected(c, dark) is Some {
        selected(c, dark)
    } else if c.follow_system && !dark {
        Some("catppuccin-latte"@)
    } else {
        None
    }
}

fn pick(setting: &Option<String>, base: &Vec<u32>, i: usize) -> (r: Rgba8)
    requires
        i < base@.len(),
    ensures
        r == picked(*setting, base@, i as int),
{
    match setting {
        None => rgb(base[i]),
        Some(s) => match parse_hex(s.as_str()) {
            None => rgb(base[i]),
            Some(c) => c,
        },
    }
}

impl Theme {
    /// The theme for the plain `preset` key, ignoring `follow_system`.
    pub fn from_config(c: &ColorsConfig) -> (r: Self)
        ensures
            themed(r, *c, maybe(c.preset)),
    {
        match &c.preset {
            None => Self::from_preset(c, None),
            Some(p) => Self::from_preset(c, Some(p.as_str())),
        }
    }

    /// The preset name `[colors]` selects for the given appearance.
    pub fn preset_for(c: &ColorsConfig, dark: bool) -> (r: Option<&str>)
        ensures
            match r {
                None => selected(*c, dark) is None,
                Some(n) => selected(*c, dark) == Some(n@),
            },
    {
        if c.follow_system {
            let variant = if dark {
                &c.preset_dark
            } else {
                &c.preset_light
            };
            if let Some(n) = variant {
                return Some(n.as_str());
            }
        }
        match &c.preset {
            None => None,
            Some(n) => Some(n.as_str()),
        }
    }

    /// Resolve against the system appearance when `follow_system` is on:
    /// dark picks `preset_dark`, light picks `preset_light`, each falling
    /// back to `preset`. When the chosen variant isn't named, dark uses the
    /// default palette and light uses `catppuccin-latte`, so the bare
    /// `follow_system = true` does something visible.
    pub fn resolve(c: &ColorsConfig, dark: bool) -> (r: Self)
        ensures
            themed(r, *c, resolved_name(*c, dark)),
    {
        match Self::preset_for(c, dark) {
            Some(n) => Self::from_preset(c, Some(n)),
            None => if c.follow_system && !dark {
                Self::from_preset(c, Some("catppuccin-latte"))
            } else {
                Self::from_preset(c, None)
            },
        }
    }

    /// Unknown preset names fall back to the default palette; the config
    /// loader surfaces a banner for that case.
    fn from_preset(c: &ColorsConfig, name: Option<&str>) -> (r: Self)
        ensures
            themed(
                r,
                *c,
                match name {
                    None => None,
                    Some(n) => Some(n@),
                },
            ),
    {
        let known = match name {
            None => None,
            Some(n) => preset(n),
        };
        let (preset_name, base) = match known {
            Some(p) => p,
            None => ("catppuccin-mocha", catppuccin_mocha_palette()),
        };
        let selection_fg = match &c.selection_fg {
            None => None,
            Some(s) => parse_hex(s.as_str()),
        };
        let ansi = vec![
            pick(&c.black, &base, 4),
            pick(&c.red, &base, 5),
            pick(&c.green, &base, 6),
            pick(&c.yellow, &base, 7),
            pick(&c.blue, &base, 8),
            pick(&c.magenta, &base, 9),
            pick(&c.cyan, &base, 10),
            pick(&c.white, &base, 11),
            pick(&c.bright_black, &base, 12),
            pick(&c.bright_red, &base, 13),
            pick(&c.bright_green, &base, 14),
            pick(&c.bright_yellow, &base, 15),
            pick(&c.bright_blue, &base, 16),
            pick(&c.bright_magenta, &base, 17),
            pick(&c.bright_cyan, &base, 18),
            pick(&c.bright_white, &base, 19),
        ];
        let theme = Self {
            background: pick(&c.background, &base, 0),
            foreground: pick(&c.foreground, &base, 1),
            cursor: pick(&c.cursor, &base, 2),
            selection_bg: pick(&c.selection_bg, &base, 3),
            selection_fg,
            ansi,
            preset: preset_name,
        };
        proof {
            let want = seq![
                picked(c.black, base@, 4),
                picked(c.red, base@, 5),
                picked(c.green, base@, 6),
                picked(c.yellow, base@, 7),
                picked(c.blue, base@, 8),
                picked(c.magenta, base@, 9),
                picked(c.cyan, base@, 10),
                picked(c.white, base@, 11),
                picked(c.bright_black, base@, 12),
                picked(c.bright_red, base@, 13),
                picked(c.bright_green, base@, 14),
                picked(c.bright_yellow, base@, 15),
                picked(c.bright_blue, base@, 16),
                picked(c.bright_magenta, base@, 17),
                picked(c.bright_cyan, base@, 18),
                picked(c.bright_white, base@, 19),
            ];
            assert(theme.ansi@ =~= want);
        }
        theme
    }
}

// --- What the settings are for ---

/// Whether `[colors]` overrides none of the sixteen ANSI colours.
pub open spec fn plain_ansi(c: ColorsConfig) -> bool {
    &&& explicit_colour(c.black) is None
    &&& explicit_colour(c.red) is None
    &&& explicit_colour(c.green) is None
    &&& explicit_colour(c.yellow) is None
    &&& explicit_colour(c.blue) is None
    &&& explicit_colour(c.magenta) is None
    &&& explicit_colour(c.cyan) is None
    &&& explicit_colour(c.white) is None
    &&& explicit_colour(c.bright_black) is None
    &&& explicit_colour(c.bright_red) is None
    &&& explicit_colour(c.bright_green) is None
    &&& explicit_colour(c.bright_yellow) is None
    &&& explicit_colour(c.bright_blue) is None
    &&& explicit_colour(c.bright_magenta) is None
    &&& explicit_colour(c.bright_cyan) is None
    &&& explicit_colour(c.bright_white) is None
}

/// The sixteen ANSI colours of a theme without overrides are the last sixteen
/// of its preset's palette, in order; the first four are the background, the
/// foreground, the cursor and the selection.
pub proof fn lemma_theme_is_the_palette(t: Theme, c: ColorsConfig, name: Option<Seq<char>>)
    requires
        themed(t, c, name),
    ensures
        palette_of(t.preset@) matches Some(p) && p.len() == 20 && {
            &&& t.ansi@.len() == 16
            &&& plain_ansi(c) ==> forall|n: int|
                0 <= n < 16 ==> #[trigger] t.ansi@[n] == opaque(p[4 + n])
            &&& explicit_colour(c.background) is None ==> t.background == opaque(p[0])
            &&& explicit_colour(c.foreground) is None ==> t.foreground == opaque(p[1])
            &&& explicit_colour(c.cursor) is None ==> t.cursor == opaque(p[2])
            &&& explicit_colour(c.selection_bg) is None ==> t.selection_bg == opaque(p[3])
        },
{
    lemma_presets_listed(chosen_preset(name));
    lemma_presets_listed("catppuccin-mocha"@);
    assert(preset_list()[0] == "catppuccin-mocha"@);
    assert(preset_list().contains("catppuccin-mocha"@));
}

/// A colour that is set in full wins over the preset, for what it is named
/// after and nothing else.
pub proof fn lemma_settings_win(t: Theme, c: ColorsConfig, name: Option<Seq<char>>)
    requires
        themed(t, c, name),
    ensures
        explicit_colour(c.background) matches Some(x) ==> t.background == x,
        explicit_colour(c.foreground) matches Some(x) ==> t.foreground == x,
        explicit_colour(c.cursor) matches Some(x) ==> t.cursor == x,
        explicit_colour(c.selection_bg) matches Some(x) ==> t.selection_bg == x,
        explicit_colour(c.selection_fg) matches Some(x) ==> t.selection_fg == Some(x),
        explicit_colour(c.selection_fg) is None ==> t.selection_fg is None,
{
}

/// A preset is used where it is named and known; else the default one.
pub proof fn lemma_preset_used(t: Theme, c: ColorsConfig, name: Option<Seq<char>>)
    requires
        themed(t, c, name),
    ensures
        name is None ==> t.preset@ == "catppuccin-mocha"@,
        name matches Some(n) ==> t.preset@ == if preset_list().contains(n) {
            n
        } else {
            "catppuccin-mocha"@
        },
{
    if let Some(n) = name {
        lemma_presets_listed(n);
    }
}

/// The system's appearance counts only where it is followed: then a dark one
/// asks for the dark preset and a light one for the light preset, each where
/// it is named; otherwise the plain preset counts.
pub proof fn lemma_appearance(c: ColorsConfig, dark: bool)
    ensures
        !c.follow_system ==> selected(c, dark) == maybe(c.preset) && resolved_name(c, dark)
            == maybe(c.preset),
        c.follow_system && dark && c.preset_dark is Some ==> resolved_name(c, dark) == maybe(
            c.preset_dark,
        ),
        c.follow_system && !dark && c.preset_light is Some ==> resolved_name(c, dark) == maybe(
            c.preset_light,
        ),
        c.follow_system && dark && c.preset_dark is None ==> resolved_name(c, dark) == maybe(
            c.preset,
        ),
        c.follow_system && !dark && c.preset_light is None && c.preset is Some ==> resolved_name(
            c,
            dark,
        ) == maybe(c.preset),
        c.follow_system && !dark && c.preset_light is None && c.preset is None ==> resolved_name(
            c,
            dark,
        ) == Some("catppuccin-latte"@),
{
}

/// How light a colour is: the sum of its parts.
pub open spec fn lightness(c: Rgba8) -> int {
    c.r + c.g + c.b
}

/// Whether text stands out on a palette: its background is much lighter than
/// its foreground where it is a light one, else much darker.
pub open spec fn stands_out(p: Seq<u32>, light: bool) -> bool {
    if light {
        lightness(opaque(p[0])) > lightness(opaque(p[1])) + 200
    } else {
        lightness(opaque(p[0])) + 200 < lightness(opaque(p[1]))
    }
}

/// Text stands out on every preset, dark on the light ones and light on the
/// others.
pub proof fn lemma_presets_are_readable()
    ensures
        stands_out(catppuccin_mocha(), false),
        stands_out(catppuccin_latte(), true),
        stands_out(dracula(), false),
        stands_out(ethereal(), false),
        stands_out(everforest(), false),
        stands_out(flexoki_light(), true),
        stands_out(gruvbox_dark(), false),
        stands_out(hackerman(), false),
        stands_out(kanagawa(), false),
        stands_out(last_horizon(), false),
        stands_out(lumon(), false),
        stands_out(lupine(), true),
        stands_out(matte_black(), false),
        stands_out(miasma(), false),
        stands_out(nord(), false),
        stands_out(osaka_jade(), false),
        stands_out(oxide(), false),
        stands_out(retro_82(), false),
        stands_out(ristretto(), false),
        stands_out(rose_pine_dawn(), true),
        stands_out(solarized_dark(), false),
        stands_out(solitude(), false),
        stands_out(tokyonight(), false),
        stands_out(vantablack(), false),
        stands_out(white(), true),
{
}

/// Six hexadecimal digits are red, green and blue, two digits each.
pub proof fn lemma_opaque_parts(r: u8, g: u8, b: u8)
    ensures
        opaque((r * 0x10000 + g * 0x100 + b) as u32) == (Rgba8 { r, g, b, a: 255 }),
{
    let n = (r * 0x10000 + g * 0x100 + b) as u32;
    assert(n / 0x10000 == r && n / 0x100 % 0x100 == g && n % 0x100 == b) by (nonlinear_arith)
        requires
            n == r * 0x10000 + g * 0x100 + b,
            0 <= r < 256,
            0 <= g < 256,
            0 <= b < 256,
    ;
}

/// A hexadecimal digit stands for its place among the sixteen, in capitals
/// or not.
pub proof fn lemma_hex_digits(d: int)
    ensures
        0 <= d < 16 ==> hex_value("0123456789abcdef"@[d]) == Some(d) && hex_value(
            "0123456789ABCDEF"@[d],
        ) == Some(d),
{
    reveal_strlit("0123456789abcdef");
    reveal_strlit("0123456789ABCDEF");
}

proof fn lemma_coded_tight(s: Seq<char>)
    requires
        s.len() > 1,
        s[0] == '#',
        hex_value(s.last()) is Some,
    ensures
        trim(s) == s,
{
}

/// `#rrggbb` is the opaque colour of these parts, and `#rrggbbaa` the one of
/// these parts and this opacity, each part the value of its two digits.
pub proof fn lemma_long_colours(s: Seq<char>)
    requires
        s.len() == 7 || s.len() == 9,
        s[0] == '#',
        forall|i: int| 1 <= i < s.len() ==> hex_value(#[trigger] s[i]) is Some,
    ensures
        hex_colour(s) matches Some(c) && {
            &&& c.r == 16 * hex_value(s[1])->0 + hex_value(s[2])->0
            &&& c.g == 16 * hex_value(s[3])->0 + hex_value(s[4])->0
            &&& c.b == 16 * hex_value(s[5])->0 + hex_value(s[6])->0
            &&& c.a == if s.len() == 9 {
                16 * hex_value(s[7])->0 + hex_value(s[8])->0
            } else {
                255
            }
        },
{
    assert(hex_value(s[s.len() - 1]) is Some);
    lemma_coded_tight(s);
    assert(hex_value(s[1]) is Some && hex_value(s[2]) is Some && hex_value(s[3]) is Some
        && hex_value(s[4]) is Some && hex_value(s[5]) is Some && hex_value(s[6]) is Some);
    if s.len() == 9 {
        assert(hex_value(s[7]) is Some && hex_value(s[8]) is Some);
    }
}

/// A short colour is the long one with each of its digits doubled.
pub proof fn lemma_short_colours(s: Seq<char>, long: Seq<char>)
    requires
        s.len() == 4 || s.len() == 5,
        s[0] == '#',
        forall|i: int| 1 <= i < s.len() ==> hex_value(#[trigger] s[i]) is Some,
        long.len() == 2 * s.len() - 1,
        long[0] == '#',
        forall|i: int| 1 <= i < long.len() ==> #[trigger] long[i] == s[(i + 1) / 2],
    ensures
        hex_colour(s) is Some,
        hex_colour(s) == hex_colour(long),
{
    assert forall|i: int| 1 <= i < long.len() implies hex_value(#[trigger] long[i]) is Some by {
        assert(hex_value(s[(i + 1) / 2]) is Some);
    }
    lemma_long_colours(long);
    assert(hex_value(s[s.len() - 1]) is Some);
    lemma_coded_tight(s);
    assert(hex_value(s[1]) is Some && hex_value(s[2]) is Some && hex_value(s[3]) is Some);
    assert(long[1] == s[1] && long[2] == s[1] && long[3] == s[2] && long[4] == s[2] && long[5]
        == s[3] && long[6] == s[3]);
    if s.len() == 5 {
        assert(hex_value(s[4]) is Some);
        assert(long[7] == s[4] && long[8] == s[4]);
    }
}

/// Nothing else is a colour: it takes the number sign, hexadecimal digits,
/// and three, four, six or eight of them.
pub proof fn lemma_only_colours_read(s: Seq<char>)
    requires
        hex_colour(s) is Some,
    ensures
        ({
            let t = trim(s);
            &&& t[0] == '#'
            &&& t.len() == 4 || t.len() == 5 || t.len() == 7 || t.len() == 9
            &&& forall|i: int| 1 <= i < t.len() ==> hex_value(#[trigger] t[i]) is Some
        }),
{
}

} // verus!
