//! Colours of the 16-bit RGB 5-6-5 display format: packing, gradients and
//! contrast helpers.

use vstd::prelude::*;

verus! {

/// A colour in RGB 5-6-5 format: red in the top five bits, green in the
/// six below, blue in the low five.
pub type Rgb565 = u16;

/// The colour with channels `r`, `g`, `b`, each cut to its width (five,
/// six and five bits).
pub open spec fn spec_rgb565(r: u8, g: u8, b: u8) -> Rgb565 {
    ((r % 32) as int * 2048 + (g % 64) as int * 32 + (b % 32) as int) as u16
}

/// Packs three channels, each cut to its width.
pub fn rgb565(r: u8, g: u8, b: u8) -> (c: Rgb565)
    ensures
        c == spec_rgb565(r, g, b),
{
    let r5 = (r & 31) as u16;
    let g6 = (g & 63) as u16;
    let b5 = (b & 31) as u16;
    assert(r & 31 == r % 32 && g & 63 == g % 64 && b & 31 == b % 32) by (bit_vector);
    r5 * 2048 + g6 * 32 + b5
}

/// The red channel (0–31).
pub open spec fn spec_red(c: Rgb565) -> u8 {
    (c / 2048) as u8
}

/// The green channel (0–63).
pub open spec fn spec_green(c: Rgb565) -> u8 {
    (c / 32 % 64) as u8
}

/// The blue channel (0–31).
pub open spec fn spec_blue(c: Rgb565) -> u8 {
    (c % 32) as u8
}

pub fn red(c: Rgb565) -> (r: u8)
    ensures
        r == spec_red(c),
        r < 32,
{
    (c / 2048) as u8
}

pub fn green(c: Rgb565) -> (r: u8)
    ensures
        r == spec_green(c),
        r < 64,
{
    (c / 32 % 64) as u8
}

pub fn blue(c: Rgb565) -> (r: u8)
    ensures
        r == spec_blue(c),
        r < 32,
{
    (c % 32) as u8
}

/// Unpacking a packed colour gives back its channels.
pub proof fn lemma_channels(r: u8, g: u8, b: u8)
    ensures
        spec_red(spec_rgb565(r, g, b)) == r % 32,
        spec_green(spec_rgb565(r, g, b)) == g % 64,
        spec_blue(spec_rgb565(r, g, b)) == b % 32,
{
}

/// `percent` of 255.
pub open spec fn share(percent: u8) -> u8 {
    (percent as int * 255 / 100) as u8
}

/// Red at 0 % to green at 100 %.
pub fn gradient_red_green(percent: u8) -> (c: Rgb565)
    requires
        percent <= 100,
    ensures
        c == spec_rgb565(share((100 - percent) as u8), share(percent), 0),
{
    let r = ((100 - percent as u16) * 255 / 100) as u8;
    let g = (percent as u16 * 255 / 100) as u8;
    rgb565(r, g, 0)
}

/// Blue at 0 % to red at 100 %.
pub fn gradient_blue_red(percent: u8) -> (c: Rgb565)
    requires
        percent <= 100,
    ensures
        c == spec_rgb565(share(percent), 0, share((100 - percent) as u8)),
{
    let r = (percent as u16 * 255 / 100) as u8;
    let b = ((100 - percent as u16) * 255 / 100) as u8;
    rgb565(r, 0, b)
}

/// Cyan at 0 % to magenta at 100 %.
pub fn gradient_cyan_magenta(percent: u8) -> (c: Rgb565)
    requires
        percent <= 100,
    ensures
        c == spec_rgb565(share(percent), share((100 - percent) as u8), 255),
{
    let r = (percent as u16 * 255 / 100) as u8;
    let g = ((100 - percent as u16) * 255 / 100) as u8;
    rgb565(r, g, 255)
}

/// A grey of `percent` brightness (the share wraps past 100 %).
pub fn grayscale(percent: u8) -> (c: Rgb565)
    ensures
        c == spec_rgb565(share(percent), share(percent), share(percent)),
{
    let v = (percent as u16 * 255 / 100) as u8;
    rgb565(v, v, v)
}

/// The rainbow colour at `progress` (0–255): six segments from red
/// through yellow, green, cyan and blue to magenta.
pub open spec fn spec_rainbow(progress: u8) -> Rgb565 {
    let segment = progress as int * 6 / 256;
    let rem = (progress as int * 6 % 256) as u8;
    if segment == 0 {
        spec_rgb565(255, rem, 0)
    } else if segment == 1 {
        spec_rgb565((255 - rem) as u8, 255, 0)
    } else if segment == 2 {
        spec_rgb565(0, 255, rem)
    } else if segment == 3 {
        spec_rgb565(0, (255 - rem) as u8, 255)
    } else if segment == 4 {
        spec_rgb565(rem, 0, 255)
    } else {
        spec_rgb565(255, 0, (255 - rem) as u8)
    }
}

pub fn rainbow(progress: u8) -> (c: Rgb565)
    ensures
        c == spec_rainbow(progress),
{
    let segment = progress as u16 * 6 / 256;
    let remainder = (progress as u16 * 6 % 256) as u8;
    if segment == 0 {
        rgb565(255, remainder, 0)
    } else if segment == 1 {
        rgb565(255 - remainder, 255, 0)
    } else if segment == 2 {
        rgb565(0, 255, remainder)
    } else if segment == 3 {
        rgb565(0, 255 - remainder, 255)
    } else if segment == 4 {
        rgb565(remainder, 0, 255)
    } else {
        rgb565(255, 0, 255 - remainder)
    }
}

/// One channel mixed: `ratio` 0 is `a`, 255 is `b`.
pub open spec fn mix(a: u8, b: u8, ratio: u8) -> u8 {
    ((a as int * (255 - ratio) + b as int * ratio) / 255) as u8
}

fn mix_channel(a: u8, b: u8, ratio: u8) -> (r: u8)
    requires
        a < 64,
        b < 64,
    ensures
        r == mix(a, b, ratio),
{
    let inv: u16 = 255 - ratio as u16;
    proof {
        assert(a as int * inv as int <= 63 * 255) by (nonlinear_arith)
            requires
                a < 64,
                inv <= 255,
        ;
        assert(b as int * ratio as int <= 63 * 255) by (nonlinear_arith)
            requires
                b < 64,
                ratio <= 255,
        ;
    }
    let s: u16 = a as u16 * inv + b as u16 * ratio as u16;
    (s / 255) as u8
}

/// `color_a` and `color_b` mixed channel by channel at `ratio` (0 gives
/// `color_a`, 255 gives `color_b`).
pub fn blend(color_a: Rgb565, color_b: Rgb565, ratio: u8) -> (c: Rgb565)
    ensures
        c == spec_rgb565(
            mix(spec_red(color_a), spec_red(color_b), ratio),
            mix(spec_green(color_a), spec_green(color_b), ratio),
            mix(spec_blue(color_a), spec_blue(color_b), ratio),
        ),
{
    let r = mix_channel(red(color_a), red(color_b), ratio);
    let g = mix_channel(green(color_a), green(color_b), ratio);
    let b = mix_channel(blue(color_a), blue(color_b), ratio);
    rgb565(r, g, b)
}

/// Each channel raised by `amount`, stopping at 255 before it is cut to
/// its width.
pub fn brighter(color: Rgb565, amount: u8) -> (c: Rgb565)
    ensures
        c == spec_rgb565(
            (if spec_red(color) + amount > 255 { 255 } else { spec_red(color) + amount }) as u8,
            (if spec_green(color) + amount > 255 { 255 } else { spec_green(color) + amount }) as u8,
            (if spec_blue(color) + amount > 255 { 255 } else { spec_blue(color) + amount }) as u8,
        ),
{
    rgb565(red(color).saturating_add(amount), green(color).saturating_add(amount), blue(color).saturating_add(amount))
}

/// Each channel lowered by `amount`, stopping at 0.
pub fn darker(color: Rgb565, amount: u8) -> (c: Rgb565)
    ensures
        c == spec_rgb565(
            (if spec_red(color) < amount { 0 } else { spec_red(color) - amount }) as u8,
            (if spec_green(color) < amount { 0 } else { spec_green(color) - amount }) as u8,
            (if spec_blue(color) < amount { 0 } else { spec_blue(color) - amount }) as u8,
        ),
{
    rgb565(red(color).saturating_sub(amount), green(color).saturating_sub(amount), blue(color).saturating_sub(amount))
}

/// Weighted brightness of a colour's channels.
pub open spec fn spec_luminance(c: Rgb565) -> u8 {
    ((spec_red(c) as int * 54 + spec_green(c) as int * 183 + spec_blue(c) as int * 18) / 255) as u8
}

pub fn luminance(color: Rgb565) -> (l: u8)
    ensures
        l == spec_luminance(color),
{
    let r = red(color) as u16;
    let g = green(color) as u16;
    let b = blue(color) as u16;
    ((r * 54 + g * 183 + b * 18) / 255) as u8
}

/// Black on bright backgrounds, white otherwise.
pub open spec fn spec_readable_text_color(bg: Rgb565) -> Rgb565 {
    if spec_luminance(bg) > 128 {
        BLACK
    } else {
        WHITE
    }
}

pub fn readable_text_color(bg: Rgb565) -> (c: Rgb565)
    ensures
        c == spec_readable_text_color(bg),
{
    if luminance(bg) > 128 {
        BLACK
    } else {
        WHITE
    }
}

/// `fg` when its brightness differs from `bg`'s by at least `min_diff`,
/// else black or white, whichever reads on `bg`.
pub fn ensure_contrast(bg: Rgb565, fg: Rgb565, min_diff: u8) -> (c: Rgb565)
    ensures
        c == (if spec_luminance(bg) - spec_luminance(fg) >= min_diff || spec_luminance(fg) - spec_luminance(bg)
            >= min_diff {
            fg
        } else {
            spec_readable_text_color(bg)
        }),
{
    let bg_lum = luminance(bg) as i16;
    let fg_lum = luminance(fg) as i16;
    let diff = if bg_lum >= fg_lum {
        bg_lum - fg_lum
    } else {
        fg_lum - bg_lum
    };
    if diff >= min_diff as i16 {
        fg
    } else {
        readable_text_color(bg)
    }
}

// ───────────────────────────────────────────────────────────────────────
// NAMED COLOURS (each channel cut to its width, as packing does)

/// The colour made of `(255, 255, 255)`.
pub const WHITE: Rgb565 = 0xFFFF;
/// The colour made of `(0, 0, 0)`.
pub const BLACK: Rgb565 = 0x0000;
/// The colour made of `(128, 128, 128)`.
pub const GRAY: Rgb565 = 0x0000;
/// The colour made of `(255, 255, 0)`.
pub const YELLOW: Rgb565 = 0xFFE0;
/// The colour made of `(0, 255, 255)`.
pub const CYAN: Rgb565 = 0x07FF;
/// The colour made of `(255, 0, 0)`.
pub const RED: Rgb565 = 0xF800;
/// The colour made of `(0, 255, 0)`.
pub const GREEN: Rgb565 = 0x07E0;
/// The colour made of `(0, 0, 255)`.
pub const BLUE: Rgb565 = 0x001F;
/// The colour made of `(255, 0, 255)`.
pub const MAGENTA: Rgb565 = 0xF81F;
/// The colour made of `(255, 165, 0)`.
pub const ORANGE: Rgb565 = 0xFCA0;
/// The colour made of `(128, 0, 128)`.
pub const PURPLE: Rgb565 = 0x0000;
/// The colour made of `(0, 255, 0)`.
pub const LIME: Rgb565 = 0x07E0;
/// The colour made of `(255, 192, 203)`.
pub const PINK: Rgb565 = 0xF80B;
/// The colour made of `(0, 128, 128)`.
pub const TEAL: Rgb565 = 0x0000;
/// The colour made of `(0, 0, 128)`.
pub const NAVY: Rgb565 = 0x0000;
/// The colour made of `(128, 0, 0)`.
pub const MAROON: Rgb565 = 0x0000;
/// The colour made of `(128, 128, 0)`.
pub const OLIVE: Rgb565 = 0x0000;
/// The colour made of `(255, 127, 80)`.
pub const CORAL: Rgb565 = 0xFFF0;
/// The colour made of `(255, 215, 0)`.
pub const GOLD: Rgb565 = 0xFAE0;
/// The colour made of `(192, 192, 192)`.
pub const SILVER: Rgb565 = 0x0000;
/// The colour made of `(64, 64, 64)`.
pub const DARK_GRAY: Rgb565 = 0x0000;
/// The colour made of `(211, 211, 211)`.
pub const LIGHT_GRAY: Rgb565 = 0x9A73;
/// The colour made of `(135, 206, 235)`.
pub const SKY_BLUE: Rgb565 = 0x39CB;
/// The colour made of `(250, 128, 114)`.
pub const SALMON: Rgb565 = 0xD012;
/// The colour made of `(64, 224, 208)`.
pub const TURQUOISE: Rgb565 = 0x0410;
/// The colour made of `(238, 130, 238)`.
pub const VIOLET: Rgb565 = 0x704E;
/// The colour made of `(139, 69, 19)`.
pub const BROWN: Rgb565 = 0x58B3;
/// The colour made of `(245, 245, 220)`.
pub const BEIGE: Rgb565 = 0xAEBC;
/// The colour made of `(220, 20, 60)`.
pub const CRIMSON: Rgb565 = 0xE29C;
/// The colour made of `(153, 50, 204)`.
pub const DARK_ORCHID: Rgb565 = 0xCE4C;

/// Every named colour is the packing of its channels.
pub proof fn lemma_named_colours()
    ensures
        WHITE == spec_rgb565(255, 255, 255),
        BLACK == spec_rgb565(0, 0, 0),
        GRAY == spec_rgb565(128, 128, 128),
        YELLOW == spec_rgb565(255, 255, 0),
        CYAN == spec_rgb565(0, 255, 255),
        RED == spec_rgb565(255, 0, 0),
        GREEN == spec_rgb565(0, 255, 0),
        BLUE == spec_rgb565(0, 0, 255),
        MAGENTA == spec_rgb565(255, 0, 255),
        ORANGE == spec_rgb565(255, 165, 0),
        PURPLE == spec_rgb565(128, 0, 128),
        LIME == spec_rgb565(0, 255, 0),
        PINK == spec_rgb565(255, 192, 203),
        TEAL == spec_rgb565(0, 128, 128),
        NAVY == spec_rgb565(0, 0, 128),
        MAROON == spec_rgb565(128, 0, 0),
        OLIVE == spec_rgb565(128, 128, 0),
        CORAL == spec_rgb565(255, 127, 80),
        GOLD == spec_rgb565(255, 215, 0),
        SILVER == spec_rgb565(192, 192, 192),
        DARK_GRAY == spec_rgb565(64, 64, 64),
        LIGHT_GRAY == spec_rgb565(211, 211, 211),
        SKY_BLUE == spec_rgb565(135, 206, 235),
        SALMON == spec_rgb565(250, 128, 114),
        TURQUOISE == spec_rgb565(64, 224, 208),
        VIOLET == spec_rgb565(238, 130, 238),
        BROWN == spec_rgb565(139, 69, 19),
        BEIGE == spec_rgb565(245, 245, 220),
        CRIMSON == spec_rgb565(220, 20, 60),
        DARK_ORCHID == spec_rgb565(153, 50, 204),
{
}

} // verus!
