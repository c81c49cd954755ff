//! The colours of terminal cells.

use vstd::prelude::*;

verus! {

/// Resolved 8-bit RGB color.
#[derive(Clone, Copy, PartialEq, Eq, Structural, Debug)]
pub struct Rgba {
    pub r: u8,
    pub g: u8,
    pub b: u8,
}

impl Rgba {
    /// The colour with the given parts.
    #[verifier::allow_in_spec]
    pub fn new(r: u8, g: u8, b: u8) -> Self
        returns
            (Rgba { r, g, b }),
    {
        Rgba { r, g, b }
    }
}

/// The colours that escape sequences name.
#[derive(Clone, Copy, PartialEq, Eq, Structural, Debug)]
pub enum NamedColor {
    Black,
    Red,
    Green,
    Yellow,
    Blue,
    Magenta,
    Cyan,
    White,
    BrightBlack,
    BrightRed,
    BrightGreen,
    BrightYellow,
    BrightBlue,
    BrightMagenta,
    BrightCyan,
    BrightWhite,
    Foreground,
    Background,
    Cursor,
    DimBlack,
    DimRed,
    DimGreen,
    DimYellow,
    DimBlue,
    DimMagenta,
    DimCyan,
    DimWhite,
    BrightForeground,
    DimForeground,
}

/// The colour of a terminal cell, as escape sequences give it.
#[derive(Clone, Copy, PartialEq, Eq, Structural, Debug)]
pub enum AnsiColor {
    Named(NamedColor),
    Spec(Rgba),
    Indexed(u8),
}

/// Default foreground: a soft off-white.
#[verifier::allow_in_spec]
pub fn default_fg() -> Rgba
    returns
        (Rgba { r: 0xcd, g: 0xd6, b: 0xf4 }),
{
    Rgba::new(0xcd, 0xd6, 0xf4)
}

/// Default background: a near-black with a faint cool tint.
#[verifier::allow_in_spec]
pub fn default_bg() -> Rgba
    returns
        (Rgba { r: 0x11, g: 0x11, b: 0x1b }),
{
    Rgba::new(0x11, 0x11, 0x1b)
}

/// The 16 ANSI base colors (normal 0-7, bright 8-15).
pub open spec fn ansi16(i: int) -> Rgba {
    if i == 0 {
        Rgba { r: 0x45, g: 0x47, b: 0x5a }
    } else if i == 1 {
        Rgba { r: 0xf3, g: 0x8b, b: 0xa8 }
    } else if i == 2 {
        Rgba { r: 0xa6, g: 0xe3, b: 0xa1 }
    } else if i == 3 {
        Rgba { r: 0xf9, g: 0xe2, b: 0xaf }
    } else if i == 4 {
        Rgba { r: 0x89, g: 0xb4, b: 0xfa }
    } else if i == 5 {
        Rgba { r: 0xcb, g: 0xa6, b: 0xf7 }
    } else if i == 6 {
        Rgba { r: 0x94, g: 0xe2, b: 0xd5 }
    } else if i == 7 {
        Rgba { r: 0xba, g: 0xc2, b: 0xde }
    } else if i == 8 {
        Rgba { r: 0x58, g: 0x5b, b: 0x70 }
    } else if i == 9 {
        Rgba { r: 0xf5, g: 0x9f, b: 0xbb }
    } else if i == 10 {
        Rgba { r: 0xb5, g: 0xe8, b: 0xb0 }
    } else if i == 11 {
        Rgba { r: 0xfb, g: 0xe8, b: 0xc0 }
    } else if i == 12 {
        Rgba { r: 0x9c, g: 0xc1, b: 0xff }
    } else if i == 13 {
        Rgba { r: 0xd5, g: 0xb6, b: 0xff }
    } else if i == 14 {
        Rgba { r: 0xa6, g: 0xed, b: 0xe1 }
    } else {
        Rgba { r: 0xf8, g: 0xf8, b: 0xf2 }
    }
}

fn base_color(i: u8) -> (c: Rgba)
    requires
        i < 16,
    ensures
        c == ansi16(i as int),
{
    match i {
        0 => Rgba::new(0x45, 0x47, 0x5a),
        1 => Rgba::new(0xf3, 0x8b, 0xa8),
        2 => Rgba::new(0xa6, 0xe3, 0xa1),
        3 => Rgba::new(0xf9, 0xe2, 0xaf),
        4 => Rgba::new(0x89, 0xb4, 0xfa),
        5 => Rgba::new(0xcb, 0xa6, 0xf7),
        6 => Rgba::new(0x94, 0xe2, 0xd5),
        7 => Rgba::new(0xba, 0xc2, 0xde),
        8 => Rgba::new(0x58, 0x5b, 0x70),
        9 => Rgba::new(0xf5, 0x9f, 0xbb),
        10 => Rgba::new(0xb5, 0xe8, 0xb0),
        11 => Rgba::new(0xfb, 0xe8, 0xc0),
        12 => Rgba::new(0x9c, 0xc1, 0xff),
        13 => Rgba::new(0xd5, 0xb6, 0xff),
        14 => Rgba::new(0xa6, 0xed, 0xe1),
        _ => Rgba::new(0xf8, 0xf8, 0xf2),
    }
}

/// The brightness of step `v` of the color cube.
pub open spec fn cube_level(v: int) -> int {
    if v == 0 {
        0
    } else {
        55 + 40 * v
    }
}

/// The color of a 256-color palette index: the base colors, the 6x6x6 color
/// cube, and a ramp of grays.
pub open spec fn indexed(idx: u8) -> Rgba {
    let i = idx as int;
    if i < 16 {
        ansi16(i)
    } else if i < 232 {
        Rgba {
            r: cube_level(((i - 16) / 36) % 6) as u8,
            g: cube_level(((i - 16) / 6) % 6) as u8,
            b: cube_level((i - 16) % 6) as u8,
        }
    } else {
        let v = (8 + 10 * (i - 232)) as u8;
        Rgba { r: v, g: v, b: v }
    }
}

fn cube_step(v: u8) -> (r: u8)
    requires
        v < 6,
    ensures
        r == cube_level(v as int),
{
    if v == 0 {
        0
    } else {
        55 + v * 40
    }
}

/// Resolves a 256-color palette index to RGB (the standard xterm cube + ramp).
pub fn indexed_to_rgb(idx: u8) -> (c: Rgba)
    ensures
        c == indexed(idx),
{
    if idx < 16 {
        base_color(idx)
    } else if idx < 232 {
        let i: u8 = idx - 16;
        Rgba::new(cube_step((i / 36) % 6), cube_step((i / 6) % 6), cube_step(i % 6))
    } else {
        let v: u8 = 8 + (idx - 232) * 10;
        Rgba::new(v, v, v)
    }
}

/// A color with seven tenths of its brightness.
pub open spec fn dimmed(c: Rgba) -> Rgba {
    Rgba { r: (c.r * 7 / 10) as u8, g: (c.g * 7 / 10) as u8, b: (c.b * 7 / 10) as u8 }
}

/// Darkens a color for the "dim" attribute.
pub fn dim(c: Rgba) -> (r: Rgba)
    ensures
        r == dimmed(c),
{
    Rgba::new(
        (c.r as u16 * 7 / 10) as u8,
        (c.g as u16 * 7 / 10) as u8,
        (c.b as u16 * 7 / 10) as u8,
    )
}

/// Darkens an already-resolved color (for the SGR "dim" attribute).
pub fn dim_rgba(c: Rgba) -> (r: Rgba)
    ensures
        r == dimmed(c),
{
    dim(c)
}

/// The place of a named color among the 16 base colors.
pub open spec fn base_index(n: NamedColor) -> Option<int> {
    match n {
        NamedColor::Black => Some(0),
        NamedColor::Red => Some(1),
        NamedColor::Green => Some(2),
        NamedColor::Yellow => Some(3),
        NamedColor::Blue => Some(4),
        NamedColor::Magenta => Some(5),
        NamedColor::Cyan => Some(6),
        NamedColor::White => Some(7),
        NamedColor::BrightBlack => Some(8),
        NamedColor::BrightRed => Some(9),
        NamedColor::BrightGreen => Some(10),
        NamedColor::BrightYellow => Some(11),
        NamedColor::BrightBlue => Some(12),
        NamedColor::BrightMagenta => Some(13),
        NamedColor::BrightCyan => Some(14),
        NamedColor::BrightWhite => Some(15),
        _ => None,
    }
}

/// The color that a dim name darkens, among the 16 base colors.
pub open spec fn dim_index(n: NamedColor) -> Option<int> {
    match n {
        NamedColor::DimBlack => Some(0),
        NamedColor::DimRed => Some(1),
        NamedColor::DimGreen => Some(2),
        NamedColor::DimYellow => Some(3),
        NamedColor::DimBlue => Some(4),
        NamedColor::DimMagenta => Some(5),
        NamedColor::DimCyan => Some(6),
        NamedColor::DimWhite => Some(7),
        _ => None,
    }
}

/// The color of a name.
pub open spec fn named(n: NamedColor) -> Rgba {
    if base_index(n) is Some {
        ansi16(base_index(n)->0)
    } else if dim_index(n) is Some {
        dimmed(ansi16(dim_index(n)->0))
    } else {
        match n {
            NamedColor::Background => default_bg(),
            NamedColor::BrightForeground => Rgba { r: 0xf8, g: 0xf8, b: 0xf2 },
            NamedColor::DimForeground => Rgba { r: 0x93, g: 0x99, b: 0xb2 },
            _ => default_fg(),
        }
    }
}

/// Resolves a named color to RGB.
pub fn named_to_rgb(named_color: NamedColor) -> (c: Rgba)
    ensures
        c == named(named_color),
{
    match named_color {
        NamedColor::Black => base_color(0),
        NamedColor::Red => base_color(1),
        NamedColor::Green => base_color(2),
        NamedColor::Yellow => base_color(3),
        NamedColor::Blue => base_color(4),
        NamedColor::Magenta => base_color(5),
        NamedColor::Cyan => base_color(6),
        NamedColor::White => base_color(7),
        NamedColor::BrightBlack => base_color(8),
        NamedColor::BrightRed => base_color(9),
        NamedColor::BrightGreen => base_color(10),
        NamedColor::BrightYellow => base_color(11),
        NamedColor::BrightBlue => base_color(12),
        NamedColor::BrightMagenta => base_color(13),
        NamedColor::BrightCyan => base_color(14),
        NamedColor::BrightWhite => base_color(15),
        NamedColor::Foreground => default_fg(),
        NamedColor::Background => default_bg(),
        NamedColor::BrightForeground => Rgba::new(0xf8, 0xf8, 0xf2),
        NamedColor::DimForeground => Rgba::new(0x93, 0x99, 0xb2),
        NamedColor::DimBlack => dim(base_color(0)),
        NamedColor::DimRed => dim(base_color(1)),
        NamedColor::DimGreen => dim(base_color(2)),
        NamedColor::DimYellow => dim(base_color(3)),
        NamedColor::DimBlue => dim(base_color(4)),
        NamedColor::DimMagenta => dim(base_color(5)),
        NamedColor::DimCyan => dim(base_color(6)),
        NamedColor::DimWhite => dim(base_color(7)),
        NamedColor::Cursor => default_fg(),
    }
}

/// The concrete color of a cell color.
pub open spec fn resolved(color: AnsiColor) -> Rgba {
    match color {
        AnsiColor::Named(n) => named(n),
        AnsiColor::Spec(c) => c,
        AnsiColor::Indexed(i) => indexed(i),
    }
}

/// Resolves a cell color into concrete RGB.
pub fn resolve(color: AnsiColor) -> (c: Rgba)
    ensures
        c == resolved(color),
{
    match color {
        AnsiColor::Named(n) => named_to_rgb(n),
        AnsiColor::Spec(c) => c,
        AnsiColor::Indexed(i) => indexed_to_rgb(i),
    }
}

/// The place among the 8 normal colors of a cell color that is one of them.
pub open spec fn normal_index(color: AnsiColor) -> Option<int> {
    match color {
        AnsiColor::Named(n) => match base_index(n) {
            Some(i) if i < 8 => Some(i),
            _ => None,
        },
        AnsiColor::Indexed(i) => if i < 8 {
            Some(i as int)
        } else {
            None
        },
        AnsiColor::Spec(_) => None,
    }
}

/// The concrete color of a foreground: bold text has the bright variants of
/// the 8 normal colors.
pub open spec fn resolved_fg(color: AnsiColor, bold: bool) -> Rgba {
    if bold && normal_index(color) is Some {
        ansi16(normal_index(color)->0 + 8)
    } else {
        resolved(color)
    }
}

fn bright_of(n: NamedColor) -> (r: Option<u8>)
    ensures
        match normal_index(AnsiColor::Named(n)) {
            Some(i) => r == Some((i + 8) as u8) && 0 <= i < 8,
            None => r is None,
        },
{
    match n {
        NamedColor::Black => Some(8),
        NamedColor::Red => Some(9),
        NamedColor::Green => Some(10),
        NamedColor::Yellow => Some(11),
        NamedColor::Blue => Some(12),
        NamedColor::Magenta => Some(13),
        NamedColor::Cyan => Some(14),
        NamedColor::White => Some(15),
        _ => None,
    }
}

/// Resolves a foreground color, promoting the 8 normal ANSI colors to their
/// bright variants when the cell is bold.
pub fn resolve_fg(color: AnsiColor, bold: bool) -> (c: Rgba)
    ensures
        c == resolved_fg(color, bold),
{
    if bold {
        match color {
            AnsiColor::Named(n) => {
                if let Some(i) = bright_of(n) {
                    return base_color(i);
                }
            },
            AnsiColor::Indexed(i) => {
                if i < 8 {
                    return base_color(i + 8);
                }
            },
            AnsiColor::Spec(_) => {},
        }
    }
    resolve(color)
}

/// A color that a program gives by its three parts is shown as it is, bold or
/// not.
pub proof fn law_true_color_is_exact(c: Rgba, bold: bool)
    ensures
        resolved(AnsiColor::Spec(c)) == c,
        resolved_fg(AnsiColor::Spec(c), bold) == c,
{
}

/// The sixteen base colors are the same by their names and by their numbers.
pub proof fn law_base_colors_by_name_and_number(n: NamedColor, idx: u8)
    requires
        base_index(n) == Some(idx as int),
    ensures
        named(n) == indexed(idx),
{
}

/// Dimming never makes a part of a color brighter.
pub proof fn law_dim_is_darker(c: Rgba)
    ensures
        dimmed(c).r <= c.r,
        dimmed(c).g <= c.g,
        dimmed(c).b <= c.b,
{
}

/// Bold text in one of the eight normal colors has the bright variant, by name
/// and by number; other colors are as they are.
pub proof fn law_bold_is_bright(i: u8, n: NamedColor, color: AnsiColor)
    ensures
        i < 8 ==> resolved_fg(AnsiColor::Indexed(i), true) == resolved(
            AnsiColor::Indexed((i + 8) as u8),
        ),
        i >= 8 ==> resolved_fg(AnsiColor::Indexed(i), true) == resolved(AnsiColor::Indexed(i)),
        resolved_fg(color, false) == resolved(color),
        resolved_fg(AnsiColor::Named(n), true) == (match n {
            NamedColor::Black => named(NamedColor::BrightBlack),
            NamedColor::Red => named(NamedColor::BrightRed),
            NamedColor::Green => named(NamedColor::BrightGreen),
            NamedColor::Yellow => named(NamedColor::BrightYellow),
            NamedColor::Blue => named(NamedColor::BrightBlue),
            NamedColor::Magenta => named(NamedColor::BrightMagenta),
            NamedColor::Cyan => named(NamedColor::BrightCyan),
            NamedColor::White => named(NamedColor::BrightWhite),
            _ => named(n),
        }),
{
}

/// The names of the normal colors are those of the first eight numbers, in the
/// order of the standard, and the bright ones those of the next eight.
pub proof fn law_names_are_numbers()
    ensures
        named(NamedColor::Black) == indexed(0),
        named(NamedColor::Red) == indexed(1),
        named(NamedColor::Green) == indexed(2),
        named(NamedColor::Yellow) == indexed(3),
        named(NamedColor::Blue) == indexed(4),
        named(NamedColor::Magenta) == indexed(5),
        named(NamedColor::Cyan) == indexed(6),
        named(NamedColor::White) == indexed(7),
        named(NamedColor::BrightBlack) == indexed(8),
        named(NamedColor::BrightRed) == indexed(9),
        named(NamedColor::BrightGreen) == indexed(10),
        named(NamedColor::BrightYellow) == indexed(11),
        named(NamedColor::BrightBlue) == indexed(12),
        named(NamedColor::BrightMagenta) == indexed(13),
        named(NamedColor::BrightCyan) == indexed(14),
        named(NamedColor::BrightWhite) == indexed(15),
{
}

/// The sixteen base colors are sixteen different ones, and none is the default
/// background.
pub proof fn law_base_colors_differ(i: u8, j: u8)
    requires
        i < 16,
        j < 16,
        i != j,
    ensures
        indexed(i) != indexed(j),
        indexed(i) != default_bg(),
{
}

/// A dim name is its color at seven tenths of the brightness of each part,
/// rounded down.
pub proof fn law_dim_names_are_dimmed(c: Rgba)
    ensures
        10 * dimmed(c).r <= 7 * c.r < 10 * dimmed(c).r + 10,
        10 * dimmed(c).g <= 7 * c.g < 10 * dimmed(c).g + 10,
        10 * dimmed(c).b <= 7 * c.b < 10 * dimmed(c).b + 10,
        named(NamedColor::DimBlack) == dimmed(named(NamedColor::Black)),
        named(NamedColor::DimRed) == dimmed(named(NamedColor::Red)),
        named(NamedColor::DimGreen) == dimmed(named(NamedColor::Green)),
        named(NamedColor::DimYellow) == dimmed(named(NamedColor::Yellow)),
        named(NamedColor::DimBlue) == dimmed(named(NamedColor::Blue)),
        named(NamedColor::DimMagenta) == dimmed(named(NamedColor::Magenta)),
        named(NamedColor::DimCyan) == dimmed(named(NamedColor::Cyan)),
        named(NamedColor::DimWhite) == dimmed(named(NamedColor::White)),
{
}

/// The numbers from 16 on are a cube of six steps of red, green and blue each,
/// in that order; a part is off at step 0 and then 95, 135, 175, 215 and 255.
pub proof fn law_color_cube(r: int, g: int, b: int)
    requires
        0 <= r < 6,
        0 <= g < 6,
        0 <= b < 6,
    ensures
        ({
            let c = indexed((16 + 36 * r + 6 * g + b) as u8);
            &&& c.r == (if r == 0 { 0 } else { 95 + 40 * (r - 1) })
            &&& c.g == (if g == 0 { 0 } else { 95 + 40 * (g - 1) })
            &&& c.b == (if b == 0 { 0 } else { 95 + 40 * (b - 1) })
        }),
{
}

/// The last 24 numbers are grays, from nearly black in steps of ten.
pub proof fn law_gray_ramp(i: u8)
    requires
        i >= 232,
    ensures
        indexed(i).r == indexed(i).g == indexed(i).b,
        indexed(232).r == 8,
        i > 232 ==> indexed(i).r == indexed((i - 1) as u8).r + 10,
{
}

/// A color as one number, red first.
pub open spec fn packed(c: Rgba) -> int {
    c.r * 0x10000 + c.g * 0x100 + c.b
}

/// The palette: sixteen pastel colors, the bright ones behind the normal ones.
pub proof fn law_the_palette(i: u8)
    requires
        i < 16,
    ensures
        packed(indexed(i)) == seq![
            0x45475aint,
            0xf38ba8,
            0xa6e3a1,
            0xf9e2af,
            0x89b4fa,
            0xcba6f7,
            0x94e2d5,
            0xbac2de,
            0x585b70,
            0xf59fbb,
            0xb5e8b0,
            0xfbe8c0,
            0x9cc1ff,
            0xd5b6ff,
            0xa6ede1,
            0xf8f8f2,
        ][i as int],
{
}

/// The colors of text and of the pane behind it, by name: normal, bright and dim
/// text, and the cursor like normal text.
pub proof fn law_text_colors()
    ensures
        named(NamedColor::Foreground) == default_fg(),
        named(NamedColor::Background) == default_bg(),
        packed(named(NamedColor::BrightForeground)) == 0xf8f8f2,
        packed(named(NamedColor::DimForeground)) == 0x9399b2,
        named(NamedColor::Cursor) == default_fg(),
{
}

} // verus!
