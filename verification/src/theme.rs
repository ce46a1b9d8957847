//! The colours of the two themes.

use vstd::prelude::*;

verus! {

#[derive(Clone, Copy, PartialEq, Eq, Structural, Debug)]
pub struct Rgb {
    pub r: u8,
    pub g: u8,
    pub b: u8,
}

/// The colour written as `0xRRGGBB`.
pub open spec fn colour(hex: u32) -> Rgb {
    Rgb { r: (hex / 65536 % 256) as u8, g: (hex / 256 % 256) as u8, b: (hex % 256) as u8 }
}

pub fn rgb(hex: u32) -> (c: Rgb)
    ensures
        c == colour(hex),
{
    Rgb { r: (hex / 65536 % 256) as u8, g: (hex / 256 % 256) as u8, b: (hex % 256) as u8 }
}

#[derive(Clone, Copy)]
pub struct Palette {
    pub ground: Rgb,
    pub surface: Rgb,
    pub sunk: Rgb,
    pub line: Rgb,
    pub line_soft: Rgb,
    pub ink: Rgb,
    pub ink_2: Rgb,
    pub ink_3: Rgb,
    /// The accent as a fill: the same in both themes, and never text on a light ground.
    pub teal_bright: Rgb,
    /// The accent as text.
    pub teal: Rgb,
    pub teal_wash: Rgb,
    pub amber: Rgb,
    pub dark: bool,
}

pub open spec fn light() -> Palette {
    Palette {
        ground: colour(0xEEF3F1),
        surface: colour(0xFFFFFF),
        sunk: colour(0xE4EBE8),
        line: colour(0xD2DEDA),
        line_soft: colour(0xE2EAE7),
        ink: colour(0x16211F),
        ink_2: colour(0x475854),
        ink_3: colour(0x778783),
        teal_bright: colour(0x5BB8A8),
        teal: colour(0x2C7568),
        teal_wash: colour(0xE2F1ED),
        amber: colour(0x9A6612),
        dark: false,
    }
}

pub open spec fn dark() -> Palette {
    Palette {
        ground: colour(0x0D1615),
        surface: colour(0x161F1D),
        sunk: colour(0x101817),
        line: colour(0x2A3735),
        line_soft: colour(0x202B29),
        ink: colour(0xE8F0ED),
        ink_2: colour(0xA3B4B0),
        ink_3: colour(0x74857F),
        teal_bright: colour(0x5BB8A8),
        teal: colour(0x5BB8A8),
        teal_wash: colour(0x15302B),
        amber: colour(0xD9A03C),
        dark: true,
    }
}

pub open spec fn theme(is_dark: bool) -> Palette {
    if is_dark {
        dark()
    } else {
        light()
    }
}

/// The text colour on top of an accent fill.
pub open spec fn over_accent(p: Palette) -> Rgb {
    if p.dark {
        colour(0x0D1615)
    } else {
        colour(0xFFFFFF)
    }
}

/// What a setting asks for.
pub open spec fn asks_dark(setting: Option<Seq<char>>) -> bool {
    match setting {
        Some(s) => s == "dark"@,
        None => false,
    }
}

/// The colours of one of the two themes.
pub fn palette(is_dark: bool) -> (p: Palette)
    ensures
        p == theme(is_dark),
{
    if is_dark {
        Palette {
            ground: rgb(0x0D1615),
            surface: rgb(0x161F1D),
            sunk: rgb(0x101817),
            line: rgb(0x2A3735),
            line_soft: rgb(0x202B29),
            ink: rgb(0xE8F0ED),
            ink_2: rgb(0xA3B4B0),
            ink_3: rgb(0x74857F),
            teal_bright: rgb(0x5BB8A8),
            teal: rgb(0x5BB8A8),
            teal_wash: rgb(0x15302B),
            amber: rgb(0xD9A03C),
            dark: true,
        }
    } else {
        Palette {
            ground: rgb(0xEEF3F1),
            surface: rgb(0xFFFFFF),
            sunk: rgb(0xE4EBE8),
            line: rgb(0xD2DEDA),
            line_soft: rgb(0xE2EAE7),
            ink: rgb(0x16211F),
            ink_2: rgb(0x475854),
            ink_3: rgb(0x778783),
            teal_bright: rgb(0x5BB8A8),
            teal: rgb(0x2C7568),
            teal_wash: rgb(0xE2F1ED),
            amber: rgb(0x9A6612),
            dark: false,
        }
    }
}

/// The text colour on top of an accent fill.
pub fn on_accent(p: &Palette) -> (c: Rgb)
    ensures
        c == over_accent(*p),
{
    if p.dark {
        rgb(0x0D1615)
    } else {
        rgb(0xFFFFFF)
    }
}

/// Dark only where it was asked for by name.
pub fn prefers_dark(setting: &Option<String>) -> (r: bool)
    ensures
        r == asks_dark(crate::drive::opt_text(*setting)),
{
    match setting {
        Some(s) => crate::text::same(s.as_str(), "dark"),
        None => false,
    }
}

/// A colour is written red first, then green, then blue, eight bits each.
pub proof fn law_how_a_colour_is_written(r: u8, g: u8, b: u8, hex: u32)
    requires
        hex == r * 0x1_0000 + g * 0x100 + b,
    ensures
        colour(hex) == (Rgb { r, g, b }),
{
    assert(hex as int / 65536 % 256 == r);
    assert(hex as int / 256 % 256 == g);
    assert(hex as int % 256 == b);
}

/// The ground is light in the light theme and dark in the dark one, and the text the other way
/// round; the accent as a fill is the same in both, and what stands on it is white in the light
/// theme and as dark as the ground in the dark one.
pub proof fn law_what_the_two_themes_share(is_dark: bool)
    ensures
        theme(is_dark).dark == is_dark,
        theme(true).teal_bright == theme(false).teal_bright,
        theme(false).ground.r >= 0xE0 && theme(false).ground.g >= 0xE0 && theme(false).ground.b
            >= 0xE0,
        theme(true).ground.r < 0x20 && theme(true).ground.g < 0x20 && theme(true).ground.b < 0x20,
        theme(false).ink.r < 0x30 && theme(false).ink.g < 0x30 && theme(false).ink.b < 0x30,
        theme(true).ink.r >= 0xE0 && theme(true).ink.g >= 0xE0 && theme(true).ink.b >= 0xE0,
        over_accent(theme(true)) == theme(true).ground,
        over_accent(theme(false)) == (Rgb { r: 255, g: 255, b: 255 }),
{
    law_how_a_colour_is_written(0xEE, 0xF3, 0xF1, 0xEEF3F1);
    law_how_a_colour_is_written(0x0D, 0x16, 0x15, 0x0D1615);
    law_how_a_colour_is_written(0x16, 0x21, 0x1F, 0x16211F);
    law_how_a_colour_is_written(0xE8, 0xF0, 0xED, 0xE8F0ED);
    law_how_a_colour_is_written(0xFF, 0xFF, 0xFF, 0xFFFFFF);
}

/// Only the one word asks for the dark theme; nothing set is the light one.
pub proof fn law_which_setting_is_dark(setting: Seq<char>)
    ensures
        asks_dark(Some(setting)) <==> setting == seq!['d', 'a', 'r', 'k'],
        !asks_dark(None),
{
    reveal_strlit("dark");
    assert("dark"@ =~= seq!['d', 'a', 'r', 'k']);
}

} // verus!
