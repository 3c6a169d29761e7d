//! The colours of cells, resolved against the theme.
use vstd::prelude::*;

use crate::config::schema::ColorsConfig;
use crate::config::theme::{
    explicit_colour, lemma_theme_is_the_palette, opaque, palette_of, plain_ansi, themed, Rgba8,
    Theme,
};

verus! {

/// The colours that programs name rather than spell out.
#[derive(Debug, Clone, Copy, PartialEq, Eq, Structural)]
pub enum NamedColor {
    Black,
    Red,
    Green,
    Yellow,
    Blue,
    Magenta,
    Cyan,
    White,
    BrightBlack,
    BrightRed,
    BrightGreen,
    BrightYellow,
    BrightBlue,
    BrightMagenta,
    BrightCyan,
    BrightWhite,
    Foreground,
    Background,
    Cursor,
    DimBlack,
    DimRed,
    DimGreen,
    DimYellow,
    DimBlue,
    DimMagenta,
    DimCyan,
    DimWhite,
    BrightForeground,
    DimForeground,
}

/// A cell's colour as the program set it.
#[derive(Debug, Clone, Copy, PartialEq, Eq, Structural)]
pub enum CellColor {
    Spec { r: u8, g: u8, b: u8 },
    Indexed(u8),
    Named(NamedColor),
}

/// How much finer than a byte a shade is.
pub const FINE: u16 = 25;

/// A colour that may have been blended: each channel in twenty-fifths of a
/// byte's step, so that blending twice by two fifths is exact.
#[derive(Debug, Clone, Copy, PartialEq, Eq, Hash, Structural)]
pub struct Shade {
    pub r: u16,
    pub g: u16,
    pub b: u16,
    pub a: u8,
}

/// The shade of a plain colour.
pub open spec fn shade_of(c: Rgba8) -> Shade {
    Shade { r: (c.r * FINE) as u16, g: (c.g * FINE) as u16, b: (c.b * FINE) as u16, a: c.a }
}

/// The shade of an opaque colour.
pub open spec fn solid(r: u8, g: u8, b: u8) -> Shade {
    shade_of(Rgba8 { r, g, b, a: 255 })
}

/// The shade of a plain colour.
pub fn shade(c: Rgba8) -> (s: Shade)
    ensures
        s == shade_of(c),
{
    Shade { r: c.r as u16 * FINE, g: c.g as u16 * FINE, b: c.b as u16 * FINE, a: c.a }
}

/// A channel moved from `a` toward `b`, rounded toward `a`.
pub open spec fn toward(a: int, b: int, percent: int) -> int {
    if b >= a {
        a + (b - a) * percent / 100
    } else {
        a - (a - b) * percent / 100
    }
}

/// `color` blended toward another: 0 percent leaves it as it is, 100 percent
/// is the other. Its opacity stays.
pub open spec fn blended(color: Shade, other: Shade, percent: int) -> Shade {
    Shade {
        r: toward(color.r as int, other.r as int, percent) as u16,
        g: toward(color.g as int, other.g as int, percent) as u16,
        b: toward(color.b as int, other.b as int, percent) as u16,
        a: color.a,
    }
}

fn mix(a: u16, b: u16, percent: u16) -> (r: u16)
    requires
        percent <= 100,
    ensures
        r == toward(a as int, b as int, percent as int),
        a <= r <= b || b <= r <= a,
{
    proof {
        let d = if b >= a {
            b - a
        } else {
            a - b
        };
        assert(0 <= d * percent <= d * 100) by (nonlinear_arith)
            requires
                0 <= d,
                0 <= percent <= 100,
        ;
        assert(d * 100 <= 0x10000 * 100) by (nonlinear_arith)
            requires
                0 <= d <= 0x10000,
        ;
    }
    if b >= a {
        a + ((b - a) as u32 * percent as u32 / 100) as u16
    } else {
        a - ((a - b) as u32 * percent as u32 / 100) as u16
    }
}

/// Blend `color` toward `toward` by `percent` (0 = unchanged, 100 = toward).
pub fn blend(color: Shade, toward: Shade, percent: u16) -> (r: Shade)
    requires
        percent <= 100,
    ensures
        r == blended(color, toward, percent as int),
{
    Shade {
        r: mix(color.r, toward.r, percent),
        g: mix(color.g, toward.g, percent),
        b: mix(color.b, toward.b, percent),
        a: color.a,
    }
}

/// Blending by nothing changes nothing, and by everything gives the other
/// colour.
pub proof fn lemma_blend_ends(color: Shade, other: Shade)
    ensures
        blended(color, other, 0) == color,
        blended(color, other, 100) == (Shade { a: color.a, ..other }),
{
}

/// The value ramp of the 6x6x6 color cube.
pub open spec fn ramp(i: int) -> u8 {
    if i == 0 {
        0
    } else {
        (55 + 40 * i) as u8
    }
}

/// What an indexed color stands for: the sixteen of the theme, then the
/// color cube, then the gray ramp.
pub open spec fn indexed(idx: u8, theme: Theme) -> Shade {
    if idx <= 15 {
        shade_of(theme.ansi@[idx as int])
    } else if idx <= 231 {
        let i = idx - 16;
        solid(ramp(i / 36), ramp(i / 6 % 6), ramp(i % 6))
    } else {
        let v = (8 + 10 * (idx - 232)) as u8;
        solid(v, v, v)
    }
}

/// Whether a theme has its sixteen ANSI colours.
pub open spec fn whole(theme: Theme) -> bool {
    theme.ansi@.len() == 16
}

fn ramp_value(i: u8) -> (r: u8)
    requires
        i < 6,
    ensures
        r == ramp(i as int),
{
    if i == 0 {
        0
    } else {
        55 + 40 * i
    }
}

fn solid_shade(r: u8, g: u8, b: u8) -> (s: Shade)
    ensures
        s == solid(r, g, b),
{
    shade(Rgba8 { r, g, b, a: 255 })
}

pub fn resolve_indexed(idx: u8, theme: &Theme) -> (r: Shade)
    requires
        whole(*theme),
    ensures
        r == indexed(idx, *theme),
{
    if idx <= 15 {
        shade(theme.ansi[idx as usize])
    } else if idx <= 231 {
        // 6x6x6 color cube with the standard value ramp.
        let i = idx - 16;
        solid_shade(ramp_value(i / 36), ramp_value(i / 6 % 6), ramp_value(i % 6))
    } else {
        let v = 8 + 10 * (idx - 232);
        solid_shade(v, v, v)
    }
}

/// How much a dimmed colour is blended toward what is behind it.
pub const DIM_PERCENT: u16 = 40;

/// A colour of the palette, dimmed toward the background.
pub open spec fn dimmed(i: int, theme: Theme) -> Shade {
    blended(shade_of(theme.ansi@[i]), shade_of(theme.background), DIM_PERCENT as int)
}

/// What a named color stands for.
pub open spec fn named_shade(named: NamedColor, theme: Theme) -> Shade {
    match named {
        NamedColor::Black => shade_of(theme.ansi@[0]),
        NamedColor::Red => shade_of(theme.ansi@[1]),
        NamedColor::Green => shade_of(theme.ansi@[2]),
        NamedColor::Yellow => shade_of(theme.ansi@[3]),
        NamedColor::Blue => shade_of(theme.ansi@[4]),
        NamedColor::Magenta => shade_of(theme.ansi@[5]),
        NamedColor::Cyan => shade_of(theme.ansi@[6]),
        NamedColor::White => shade_of(theme.ansi@[7]),
        NamedColor::BrightBlack => shade_of(theme.ansi@[8]),
        NamedColor::BrightRed => shade_of(theme.ansi@[9]),
        NamedColor::BrightGreen => shade_of(theme.ansi@[10]),
        NamedColor::BrightYellow => shade_of(theme.ansi@[11]),
        NamedColor::BrightBlue => shade_of(theme.ansi@[12]),
        NamedColor::BrightMagenta => shade_of(theme.ansi@[13]),
        NamedColor::BrightCyan => shade_of(theme.ansi@[14]),
        NamedColor::BrightWhite => shade_of(theme.ansi@[15]),
        NamedColor::Foreground => shade_of(theme.foreground),
        NamedColor::Background => shade_of(theme.background),
        NamedColor::Cursor => shade_of(theme.cursor),
        NamedColor::BrightForeground => shade_of(theme.foreground),
        NamedColor::DimForeground => blended(
            shade_of(theme.foreground),
            shade_of(theme.background),
            DIM_PERCENT as int,
        ),
        NamedColor::DimBlack => dimmed(0, theme),
        NamedColor::DimRed => dimmed(1, theme),
        NamedColor::DimGreen => dimmed(2, theme),
        NamedColor::DimYellow => dimmed(3, theme),
        NamedColor::DimBlue => dimmed(4, theme),
        NamedColor::DimMagenta => dimmed(5, theme),
        NamedColor::DimCyan => dimmed(6, theme),
        NamedColor::DimWhite => dimmed(7, theme),
    }
}

fn dim(c: Rgba8, theme: &Theme) -> (r: Shade)
    ensures
        r == blended(shade_of(c), shade_of(theme.background), DIM_PERCENT as int),
{
    blend(shade(c), shade(theme.background), DIM_PERCENT)
}

fn resolve_named(named: NamedColor, theme: &Theme) -> (r: Shade)
    requires
        whole(*theme),
    ensures
        r == named_shade(named, *theme),
{
    match named {
        NamedColor::Black => shade(theme.ansi[0]),
        NamedColor::Red => shade(theme.ansi[1]),
        NamedColor::Green => shade(theme.ansi[2]),
        NamedColor::Yellow => shade(theme.ansi[3]),
        NamedColor::Blue => shade(theme.ansi[4]),
        NamedColor::Magenta => shade(theme.ansi[5]),
        NamedColor::Cyan => shade(theme.ansi[6]),
        NamedColor::White => shade(theme.ansi[7]),
        NamedColor::BrightBlack => shade(theme.ansi[8]),
        NamedColor::BrightRed => shade(theme.ansi[9]),
        NamedColor::BrightGreen => shade(theme.ansi[10]),
        NamedColor::BrightYellow => shade(theme.ansi[11]),
        NamedColor::BrightBlue => shade(theme.ansi[12]),
        NamedColor::BrightMagenta => shade(theme.ansi[13]),
        NamedColor::BrightCyan => shade(theme.ansi[14]),
        NamedColor::BrightWhite => shade(theme.ansi[15]),
        NamedColor::Foreground => shade(theme.foreground),
        NamedColor::Background => shade(theme.background),
        NamedColor::Cursor => shade(theme.cursor),
        NamedColor::BrightForeground => shade(theme.foreground),
        NamedColor::DimForeground => dim(theme.foreground, theme),
        NamedColor::DimBlack => dim(theme.ansi[0], theme),
        NamedColor::DimRed => dim(theme.ansi[1], theme),
        NamedColor::DimGreen => dim(theme.ansi[2], theme),
        NamedColor::DimYellow => dim(theme.ansi[3], theme),
        NamedColor::DimBlue => dim(theme.ansi[4], theme),
        NamedColor::DimMagenta => dim(theme.ansi[5], theme),
        NamedColor::DimCyan => dim(theme.ansi[6], theme),
        NamedColor::DimWhite => dim(theme.ansi[7], theme),
    }
}

/// What a cell's color stands for.
pub open spec fn resolved(color: CellColor, theme: Theme) -> Shade {
    match color {
        CellColor::Spec { r, g, b } => solid(r, g, b),
        CellColor::Indexed(idx) => indexed(idx, theme),
        CellColor::Named(named) => named_shade(named, theme),
    }
}

/// Resolve an ANSI color against the theme.
pub fn resolve(color: CellColor, theme: &Theme) -> (s: Shade)
    requires
        whole(*theme),
    ensures
        s == resolved(color, *theme),
{
    match color {
        CellColor::Spec { r, g, b } => solid_shade(r, g, b),
        CellColor::Indexed(idx) => resolve_indexed(idx, theme),
        CellColor::Named(named) => resolve_named(named, theme),
    }
}

/// The colour that answers a query for entry `index` of the terminal's
/// table: the 256 indexed ones, then foreground, background and cursor; any
/// other entry is answered with the foreground.
pub open spec fn queried(index: int, theme: Theme) -> Shade {
    if 0 <= index <= 255 {
        indexed(index as u8, theme)
    } else if index == 257 {
        shade_of(theme.background)
    } else if index == 258 {
        shade_of(theme.cursor)
    } else {
        shade_of(theme.foreground)
    }
}

/// The colour that answers a query for entry `index` of the terminal's table.
pub fn color_request(index: usize, theme: &Theme) -> (r: Shade)
    requires
        whole(*theme),
    ensures
        r == queried(index as int, *theme),
{
    if index <= 255 {
        resolve_indexed(index as u8, theme)
    } else if index == 257 {
        shade(theme.background)
    } else if index == 258 {
        shade(theme.cursor)
    } else {
        shade(theme.foreground)
    }
}

/// Whether every channel of a shade is one of a colour.
pub open spec fn in_range(s: Shade) -> bool {
    s.r <= 255 * FINE && s.g <= 255 * FINE && s.b <= 255 * FINE
}

/// A channel rounded to a byte.
pub open spec fn byte_of(v: u16) -> int {
    (v + FINE / 2) / FINE as int
}

/// Convert to 8-bit RGB, for answering OSC color queries.
pub fn hsla_to_rgb8(color: Shade) -> (r: (u8, u8, u8))
    requires
        in_range(color),
    ensures
        r.0 == byte_of(color.r),
        r.1 == byte_of(color.g),
        r.2 == byte_of(color.b),
{
    (
        ((color.r + FINE / 2) / FINE) as u8,
        ((color.g + FINE / 2) / FINE) as u8,
        ((color.b + FINE / 2) / FINE) as u8,
    )
}

/// A plain colour comes back from its shade as it was.
pub proof fn lemma_shade_round_trip(c: Rgba8)
    ensures
        in_range(shade_of(c)),
        byte_of(shade_of(c).r) == c.r,
        byte_of(shade_of(c).g) == c.g,
        byte_of(shade_of(c).b) == c.b,
{
}

/// Blending stays within the range of colours.
pub proof fn lemma_blend_in_range(color: Shade, other: Shade, percent: int)
    requires
        in_range(color),
        in_range(other),
        0 <= percent <= 100,
    ensures
        in_range(blended(color, other, percent)),
{
    lemma_toward(color.r as int, other.r as int, percent);
    lemma_toward(color.g as int, other.g as int, percent);
    lemma_toward(color.b as int, other.b as int, percent);
}

proof fn lemma_toward(a: int, b: int, percent: int)
    requires
        0 <= a <= 255 * FINE,
        0 <= b <= 255 * FINE,
        0 <= percent <= 100,
    ensures
        0 <= toward(a, b, percent) <= 255 * FINE,
{
    let d = if b >= a {
        b - a
    } else {
        a - b
    };
    assert(0 <= d * percent / 100 <= d) by (nonlinear_arith)
        requires
            0 <= d,
            0 <= percent <= 100,
    ;
}

// --- What the colours of cells are ---

/// The colour that is set under a name is what a cell of that colour shows.
pub proof fn lemma_named_settings(t: Theme, c: ColorsConfig, name: Option<Seq<char>>)
    requires
        themed(t, c, name),
    ensures
        explicit_colour(c.black) matches Some(x) ==> resolved(
            CellColor::Named(NamedColor::Black),
            t,
        ) == shade_of(x),
        explicit_colour(c.red) matches Some(x) ==> resolved(
            CellColor::Named(NamedColor::Red),
            t,
        ) == shade_of(x),
        explicit_colour(c.green) matches Some(x) ==> resolved(
            CellColor::Named(NamedColor::Green),
            t,
        ) == shade_of(x),
        explicit_colour(c.yellow) matches Some(x) ==> resolved(
            CellColor::Named(NamedColor::Yellow),
            t,
        ) == shade_of(x),
        explicit_colour(c.blue) matches Some(x) ==> resolved(
            CellColor::Named(NamedColor::Blue),
            t,
        ) == shade_of(x),
        explicit_colour(c.magenta) matches Some(x) ==> resolved(
            CellColor::Named(NamedColor::Magenta),
            t,
        ) == shade_of(x),
        explicit_colour(c.cyan) matches Some(x) ==> resolved(
            CellColor::Named(NamedColor::Cyan),
            t,
        ) == shade_of(x),
        explicit_colour(c.white) matches Some(x) ==> resolved(
            CellColor::Named(NamedColor::White),
            t,
        ) == shade_of(x),
        explicit_colour(c.bright_black) matches Some(x) ==> resolved(
            CellColor::Named(NamedColor::BrightBlack),
            t,
        ) == shade_of(x),
        explicit_colour(c.bright_red) matches Some(x) ==> resolved(
            CellColor::Named(NamedColor::BrightRed),
            t,
        ) == shade_of(x),
        explicit_colour(c.bright_green) matches Some(x) ==> resolved(
            CellColor::Named(NamedColor::BrightGreen),
            t,
        ) == shade_of(x),
        explicit_colour(c.bright_yellow) matches Some(x) ==> resolved(
            CellColor::Named(NamedColor::BrightYellow),
            t,
        ) == shade_of(x),
        explicit_colour(c.bright_blue) matches Some(x) ==> resolved(
            CellColor::Named(NamedColor::BrightBlue),
            t,
        ) == shade_of(x),
        explicit_colour(c.bright_magenta) matches Some(x) ==> resolved(
            CellColor::Named(NamedColor::BrightMagenta),
            t,
        ) == shade_of(x),
        explicit_colour(c.bright_cyan) matches Some(x) ==> resolved(
            CellColor::Named(NamedColor::BrightCyan),
            t,
        ) == shade_of(x),
        explicit_colour(c.bright_white) matches Some(x) ==> resolved(
            CellColor::Named(NamedColor::BrightWhite),
            t,
        ) == shade_of(x),
{
}

/// The sixteen named colours are the first sixteen indexed ones, in order.
pub proof fn lemma_named_are_indexed(t: Theme)
    ensures
        resolved(CellColor::Named(NamedColor::Black), t) == resolved(CellColor::Indexed(0), t),
        resolved(CellColor::Named(NamedColor::Red), t) == resolved(CellColor::Indexed(1), t),
        resolved(CellColor::Named(NamedColor::Green), t) == resolved(CellColor::Indexed(2), t),
        resolved(CellColor::Named(NamedColor::Yellow), t) == resolved(CellColor::Indexed(3), t),
        resolved(CellColor::Named(NamedColor::Blue), t) == resolved(CellColor::Indexed(4), t),
        resolved(CellColor::Named(NamedColor::Magenta), t) == resolved(CellColor::Indexed(5), t),
        resolved(CellColor::Named(NamedColor::Cyan), t) == resolved(CellColor::Indexed(6), t),
        resolved(CellColor::Named(NamedColor::White), t) == resolved(CellColor::Indexed(7), t),
        resolved(CellColor::Named(NamedColor::BrightBlack), t) == resolved(CellColor::Indexed(8), t),
        resolved(CellColor::Named(NamedColor::BrightRed), t) == resolved(CellColor::Indexed(9), t),
        resolved(CellColor::Named(NamedColor::BrightGreen), t) == resolved(CellColor::Indexed(10), t),
        resolved(CellColor::Named(NamedColor::BrightYellow), t) == resolved(CellColor::Indexed(11), t),
        resolved(CellColor::Named(NamedColor::BrightBlue), t) == resolved(CellColor::Indexed(12), t),
        resolved(CellColor::Named(NamedColor::BrightMagenta), t) == resolved(CellColor::Indexed(13), t),
        resolved(CellColor::Named(NamedColor::BrightCyan), t) == resolved(CellColor::Indexed(14), t),
        resolved(CellColor::Named(NamedColor::BrightWhite), t) == resolved(CellColor::Indexed(15), t),
{
}

/// In a theme without overrides, indexed colour `n` of the first sixteen is
/// entry `4 + n` of the preset's palette.
pub proof fn lemma_indexed_are_the_palette(
    t: Theme,
    c: ColorsConfig,
    name: Option<Seq<char>>,
    n: u8,
)
    requires
        themed(t, c, name),
        plain_ansi(c),
        n < 16,
    ensures
        palette_of(t.preset@) matches Some(p) && resolved(CellColor::Indexed(n), t) == shade_of(
            opaque(p[4 + n]),
        ),
{
    lemma_theme_is_the_palette(t, c, name);
    assert(t.ansi@[n as int] == opaque(palette_of(t.preset@)->0[4 + n]));
}

/// The background, the foreground and the cursor by name are those of the
/// theme.
pub proof fn lemma_named_grounds(t: Theme)
    ensures
        resolved(CellColor::Named(NamedColor::Foreground), t) == shade_of(t.foreground),
        resolved(CellColor::Named(NamedColor::BrightForeground), t) == shade_of(t.foreground),
        resolved(CellColor::Named(NamedColor::Background), t) == shade_of(t.background),
        resolved(CellColor::Named(NamedColor::Cursor), t) == shade_of(t.cursor),
        dims(
            CellColor::Named(NamedColor::DimForeground),
            CellColor::Named(NamedColor::Foreground),
            t,
        ),
{
    lemma_two_fifths(t.foreground, t.background);
}

/// Whether a colour is another one dimmed: three fifths of it and two fifths
/// of the background.
pub open spec fn dims(dim: CellColor, full: CellColor, t: Theme) -> bool {
    let d = resolved(dim, t);
    let f = resolved(full, t);
    let b = shade_of(t.background);
    &&& 5 * d.r == 3 * f.r + 2 * b.r
    &&& 5 * d.g == 3 * f.g + 2 * b.g
    &&& 5 * d.b == 3 * f.b + 2 * b.b
    &&& d.a == f.a
}

proof fn lemma_two_fifths(c: Rgba8, bg: Rgba8)
    ensures
        ({
            let d = blended(shade_of(c), shade_of(bg), DIM_PERCENT as int);
            let f = shade_of(c);
            let b = shade_of(bg);
            &&& 5 * d.r == 3 * f.r + 2 * b.r
            &&& 5 * d.g == 3 * f.g + 2 * b.g
            &&& 5 * d.b == 3 * f.b + 2 * b.b
            &&& d.a == f.a
        }),
{
    lemma_channel_dims(c.r, bg.r);
    lemma_channel_dims(c.g, bg.g);
    lemma_channel_dims(c.b, bg.b);
}

proof fn lemma_channel_dims(a: u8, b: u8)
    ensures
        5 * toward(25 * a, 25 * b, 40) == 3 * (25 * a) + 2 * (25 * b),
        0 <= toward(25 * a, 25 * b, 40) <= 65535,
{
}

/// A dimmed colour is the colour of the same name, two fifths of the way to
/// the background.
pub proof fn lemma_dim_is_dimmed(t: Theme)
    ensures
        dims(CellColor::Named(NamedColor::DimBlack), CellColor::Named(NamedColor::Black), t),
        dims(CellColor::Named(NamedColor::DimRed), CellColor::Named(NamedColor::Red), t),
        dims(CellColor::Named(NamedColor::DimGreen), CellColor::Named(NamedColor::Green), t),
        dims(CellColor::Named(NamedColor::DimYellow), CellColor::Named(NamedColor::Yellow), t),
        dims(CellColor::Named(NamedColor::DimBlue), CellColor::Named(NamedColor::Blue), t),
        dims(CellColor::Named(NamedColor::DimMagenta), CellColor::Named(NamedColor::Magenta), t),
        dims(CellColor::Named(NamedColor::DimCyan), CellColor::Named(NamedColor::Cyan), t),
        dims(CellColor::Named(NamedColor::DimWhite), CellColor::Named(NamedColor::White), t),
{
    lemma_two_fifths(t.ansi@[0], t.background);
    lemma_two_fifths(t.ansi@[1], t.background);
    lemma_two_fifths(t.ansi@[2], t.background);
    lemma_two_fifths(t.ansi@[3], t.background);
    lemma_two_fifths(t.ansi@[4], t.background);
    lemma_two_fifths(t.ansi@[5], t.background);
    lemma_two_fifths(t.ansi@[6], t.background);
    lemma_two_fifths(t.ansi@[7], t.background);
}

/// A colour that is spelled out is shown as spelled.
pub proof fn lemma_spelled_colours(r: u8, g: u8, b: u8, t: Theme)
    ensures
        resolved(CellColor::Spec { r, g, b }, t) == shade_of(Rgba8 { r, g, b, a: 255 }),
{
}

/// The colours from 16 on are a cube of six levels of red, green and blue,
/// blue changing fastest; those from 232 on are grays, from dark to light.
pub proof fn lemma_cube_and_grays(r: int, g: int, b: int, k: int, t: Theme)
    requires
        0 <= r < 6,
        0 <= g < 6,
        0 <= b < 6,
        0 <= k < 24,
    ensures
        ({
            let levels = seq![0u8, 95, 135, 175, 215, 255];
            resolved(CellColor::Indexed((16 + 36 * r + 6 * g + b) as u8), t) == shade_of(
                Rgba8 { r: levels[r], g: levels[g], b: levels[b], a: 255 },
            )
        }),
        ({
            let v = (8 + 10 * k) as u8;
            resolved(CellColor::Indexed((232 + k) as u8), t) == shade_of(
                Rgba8 { r: v, g: v, b: v, a: 255 },
            )
        }),
{
    let i = 36 * r + 6 * g + b;
    assert(i / 36 == r && i / 6 % 6 == g && i % 6 == b) by (nonlinear_arith)
        requires
            i == 36 * r + 6 * g + b,
            0 <= r < 6,
            0 <= g < 6,
            0 <= b < 6,
    ;
    let levels = seq![0u8, 95, 135, 175, 215, 255];
    assert(forall|j: int| 0 <= j < 6 ==> #[trigger] levels[j] == ramp(j));
}

/// A program that asks for an entry of the colour table is told the colour
/// that cells of that index have; entry 256 is the foreground, 257 the
/// background and 258 the cursor.
pub proof fn lemma_answers_are_what_is_shown(t: Theme, idx: u8)
    ensures
        queried(idx as int, t) == resolved(CellColor::Indexed(idx), t),
        queried(256, t) == resolved(CellColor::Named(NamedColor::Foreground), t),
        queried(257, t) == resolved(CellColor::Named(NamedColor::Background), t),
        queried(258, t) == resolved(CellColor::Named(NamedColor::Cursor), t),
{
}

} // verus!
