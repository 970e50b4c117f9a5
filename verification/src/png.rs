//! PNG images turned into RGB 5-6-5 pixels (transparent ones left out),
//! and the pixels to draw for an image placed on screen, whole or scaled
//! down.

use vstd::prelude::*;

use crate::gui::colors::{rgb565, spec_rgb565, Rgb565};

verus! {

/// The decoder refused the image.
#[derive(Clone, Copy, PartialEq, Eq, Structural)]
pub struct PngError;

/// How the samples of a decoded image are laid out.
#[derive(Clone, Copy, PartialEq, Eq, Structural)]
pub enum ColorType {
    Gray,
    GrayAlpha,
    Rgb,
    Rgba,
    Indexed,
}

/// A decoded image as the decoder hands it over: size, layout, sample
/// bytes, and the palette entry (RGBA) of every index.
pub struct DecodedPng {
    pub width: u32,
    pub height: u32,
    pub color: ColorType,
    pub pixels: Vec<u8>,
    pub palette: Vec<[u8; 4]>,
}

/// What `minipng` decodes from `data`: width, height, layout, sample bytes
/// and palette, or `None` when it refuses the data.
pub uninterp spec fn png_decoding(data: Seq<u8>) -> Option<(u32, u32, ColorType, Seq<u8>, Seq<Seq<u8>>)>;

/// Plain view of a palette.
pub open spec fn palette_view(p: Seq<[u8; 4]>) -> Seq<Seq<u8>> {
    p.map_values(|e: [u8; 4]| e@)
}

/// `minipng::decode_png_header`, then `minipng::decode_png` into a buffer
/// of the header's `required_bytes`. The result is `png_decoding` of the
/// bytes; the palette holds `ImageData::palette(i)` for each of the 256
/// indices. Which decoding error occurred is not kept.
#[verifier::external_body]
fn decode(data: &[u8]) -> (r: Result<DecodedPng, PngError>)
    ensures
        match r {
            Ok(d) => png_decoding(data@) == Some((d.width, d.height, d.color, d.pixels@, palette_view(d.palette@)))
                && d.palette@.len() == 256,
            Err(_) => png_decoding(data@) is None,
        },
{
    let header = minipng::decode_png_header(data).map_err(|_| PngError)?;
    let mut buffer = vec![0u8; header.required_bytes()];
    let img = minipng::decode_png(data, &mut buffer).map_err(|_| PngError)?;
    let color = match img.color_type() {
        minipng::ColorType::Gray => ColorType::Gray,
        minipng::ColorType::GrayAlpha => ColorType::GrayAlpha,
        minipng::ColorType::Rgb => ColorType::Rgb,
        minipng::ColorType::Rgba => ColorType::Rgba,
        minipng::ColorType::Indexed => ColorType::Indexed,
    };
    let palette = (0..=255u8).map(|i| img.palette(i)).collect();
    Ok(DecodedPng { width: img.width(), height: img.height(), color, pixels: img.pixels().to_vec(), palette })
}

/// A 24-bit colour `0xRRGGBB` in RGB 5-6-5: the top five, six and five
/// bits of its channels.
pub open spec fn spec_from_rgb888(rgb: u32) -> Rgb565 {
    spec_rgb565((rgb / 0x10000 % 256 / 8) as u8, (rgb / 0x100 % 256 / 4) as u8, (rgb % 256 / 8) as u8)
}

pub fn from_rgb888(rgb: u32) -> (c: Rgb565)
    ensures
        c == spec_from_rgb888(rgb),
{
    let r = (rgb / 0x10000 % 256 / 8) as u8;
    let g = (rgb / 0x100 % 256 / 4) as u8;
    let b = (rgb % 256 / 8) as u8;
    rgb565(r, g, b)
}

/// The colour of red, green and blue bytes.
pub open spec fn rgb_pixel(r: u8, g: u8, b: u8) -> Rgb565 {
    spec_from_rgb888((r as int * 0x10000 + g as int * 0x100 + b as int) as u32)
}

fn pixel_of(r: u8, g: u8, b: u8) -> (c: Rgb565)
    ensures
        c == rgb_pixel(r, g, b),
{
    from_rgb888((r as u32) * 0x10000 + (g as u32) * 0x100 + (b as u32))
}

/// The pixels of decoded samples: palette colours (index 0 transparent),
/// greys, or RGB, with a zero alpha transparent; samples left over at the
/// end are dropped.
pub open spec fn converted(color: ColorType, px: Seq<u8>, pal: Seq<Seq<u8>>) -> Seq<Option<Rgb565>> {
    match color {
        ColorType::Indexed => Seq::new(
            px.len(),
            |i: int|
                if px[i] == 0 {
                    None
                } else {
                    Some(rgb_pixel(pal[px[i] as int][0], pal[px[i] as int][1], pal[px[i] as int][2]))
                },
        ),
        ColorType::Gray => Seq::new(px.len(), |i: int| Some(rgb_pixel(px[i], px[i], px[i]))),
        ColorType::GrayAlpha => Seq::new(
            px.len() / 2,
            |i: int|
                if px[2 * i + 1] == 0 {
                    None
                } else {
                    Some(rgb_pixel(px[2 * i], px[2 * i], px[2 * i]))
                },
        ),
        ColorType::Rgb => Seq::new(px.len() / 3, |i: int| Some(rgb_pixel(px[3 * i], px[3 * i + 1], px[3 * i + 2]))),
        ColorType::Rgba => Seq::new(
            px.len() / 4,
            |i: int|
                if px[4 * i + 3] == 0 {
                    None
                } else {
                    Some(rgb_pixel(px[4 * i], px[4 * i + 1], px[4 * i + 2]))
                },
        ),
    }
}

/// In a grey-and-alpha image a pixel is transparent exactly when its
/// alpha sample is zero, whatever its grey; an opaque pixel has the colour
/// a plain grey image gives its grey sample, whatever its alpha.
pub proof fn lemma_gray_alpha_pixels(px: Seq<u8>, pal: Seq<Seq<u8>>, i: int)
    requires
        0 <= i < px.len() / 2,
    ensures
        converted(ColorType::GrayAlpha, px, pal).len() == px.len() / 2,
        converted(ColorType::GrayAlpha, px, pal)[i] is None <==> px[2 * i + 1] == 0,
        px[2 * i + 1] != 0 ==> converted(ColorType::GrayAlpha, px, pal)[i] == converted(
            ColorType::Gray,
            seq![px[2 * i]],
            pal,
        )[0],
{
}

/// In an RGBA image a pixel is transparent exactly when its alpha sample
/// is zero; an opaque pixel has the colour an RGB image gives its three
/// colour samples, whatever its alpha.
pub proof fn lemma_rgba_pixels(px: Seq<u8>, pal: Seq<Seq<u8>>, i: int)
    requires
        0 <= i < px.len() / 4,
    ensures
        converted(ColorType::Rgba, px, pal).len() == px.len() / 4,
        converted(ColorType::Rgba, px, pal)[i] is None <==> px[4 * i + 3] == 0,
        px[4 * i + 3] != 0 ==> converted(ColorType::Rgba, px, pal)[i] == converted(
            ColorType::Rgb,
            seq![px[4 * i], px[4 * i + 1], px[4 * i + 2]],
            pal,
        )[0],
{
    assert(4 * i + 3 < px.len()) by (nonlinear_arith)
        requires
            0 <= i < px.len() / 4,
    ;
}

/// In a palette image a pixel is transparent exactly when its index is
/// zero; others take their palette entry's red, green and blue, the
/// colour an RGB image gives those bytes.
pub proof fn lemma_indexed_pixels(px: Seq<u8>, pal: Seq<Seq<u8>>, i: int)
    requires
        0 <= i < px.len(),
    ensures
        converted(ColorType::Indexed, px, pal).len() == px.len(),
        converted(ColorType::Indexed, px, pal)[i] is None <==> px[i] == 0,
        px[i] != 0 ==> converted(ColorType::Indexed, px, pal)[i] == converted(
            ColorType::Rgb,
            seq![pal[px[i] as int][0], pal[px[i] as int][1], pal[px[i] as int][2]],
            pal,
        )[0],
{
}

/// Sample bytes per pixel.
pub open spec fn step_of(color: ColorType) -> int {
    match color {
        ColorType::Indexed | ColorType::Gray => 1,
        ColorType::GrayAlpha => 2,
        ColorType::Rgb => 3,
        ColorType::Rgba => 4,
    }
}

fn pixel_at(color: ColorType, px: &Vec<u8>, pal: &Vec<[u8; 4]>, i: usize) -> (p: Option<Rgb565>)
    requires
        pal@.len() == 256,
        (i + 1) * step_of(color) <= px@.len(),
    ensures
        p == converted(color, px@, palette_view(pal@))[i as int],
{
    let len = px.len();
    assert(len == px@.len());
    match color {
        ColorType::Indexed => {
            let idx = px[i];
            if idx == 0 {
                None
            } else {
                let e = pal[idx as usize];
                Some(pixel_of(e[0], e[1], e[2]))
            }
        },
        ColorType::Gray => Some(pixel_of(px[i], px[i], px[i])),
        ColorType::GrayAlpha => {
            if px[2 * i + 1] == 0 {
                None
            } else {
                Some(pixel_of(px[2 * i], px[2 * i], px[2 * i]))
            }
        },
        ColorType::Rgb => Some(pixel_of(px[3 * i], px[3 * i + 1], px[3 * i + 2])),
        ColorType::Rgba => {
            if px[4 * i + 3] == 0 {
                None
            } else {
                Some(pixel_of(px[4 * i], px[4 * i + 1], px[4 * i + 2]))
            }
        },
    }
}

fn convert(color: ColorType, px: &Vec<u8>, pal: &Vec<[u8; 4]>) -> (r: Vec<Option<Rgb565>>)
    requires
        pal@.len() == 256,
    ensures
        r@ == converted(color, px@, palette_view(pal@)),
{
    let mut out: Vec<Option<Rgb565>> = Vec::new();
    let step: usize = match color {
        ColorType::Indexed | ColorType::Gray => 1,
        ColorType::GrayAlpha => 2,
        ColorType::Rgb => 3,
        ColorType::Rgba => 4,
    };
    let n = px.len() / step;
    let ghost target = converted(color, px@, palette_view(pal@));
    assert(target.len() == n);
    let mut i: usize = 0;
    while i < n
        invariant
            pal@.len() == 256,
            n == px@.len() as int / (step as int),
            step == step_of(color),
            target == converted(color, px@, palette_view(pal@)),
            target.len() == n,
            i <= n,
            out@ == target.take(i as int),
        decreases n - i,
    {
        assert((i + 1) * step <= px@.len()) by (nonlinear_arith)
            requires
                i < n,
                n == px@.len() as int / (step as int),
                step >= 1,
        ;
        let p = pixel_at(color, px, pal, i);
        out.push(p);
        assert(out@ =~= target.take(i + 1));
        i = i + 1;
    }
    assert(target.take(n as int) =~= target);
    out
}

/// A decoded image: its size and one pixel per position, row after row
/// (`None` where transparent).
pub struct Png {
    width: u32,
    height: u32,
    pixels: Vec<Option<Rgb565>>,
}

impl Png {
    pub closed spec fn spec_width(&self) -> u32 {
        self.width
    }

    pub closed spec fn spec_height(&self) -> u32 {
        self.height
    }

    pub closed spec fn spec_pixels(&self) -> Seq<Option<Rgb565>> {
        self.pixels@
    }

    /// Decodes `png_data` and converts its samples to pixels (see
    /// `converted`); a refusal of the decoder is returned as the error.
    pub fn load_from_bytes(png_data: &[u8]) -> (r: Result<Png, PngError>)
        ensures
            match png_decoding(png_data@) {
                None => r is Err,
                Some((w, h, c, px, pal)) => r is Ok && r->Ok_0.spec_width() == w && r->Ok_0.spec_height() == h
                    && r->Ok_0.spec_pixels() == converted(c, px, pal),
            },
    {
        match decode(png_data) {
            Ok(d) => {
                let pixels = convert(d.color, &d.pixels, &d.palette);
                Ok(Png { width: d.width, height: d.height, pixels })
            },
            Err(e) => Err(e),
        }
    }

    pub fn width(&self) -> (r: u32)
        ensures
            r == self.spec_width(),
    {
        self.width
    }

    pub fn height(&self) -> (r: u32)
        ensures
            r == self.spec_height(),
    {
        self.height
    }

    pub fn pixels(&self) -> (r: &[Option<Rgb565>])
        ensures
            r@ == self.spec_pixels(),
    {
        self.pixels.as_slice()
    }
}

} // verus!

verus! {

// ───────────────────────────────────────────────────────────────────────
// PLACING AN IMAGE ON SCREEN

/// The points drawn for the first `n` pixels, in order, of an image `w`
/// wide placed with its top-left corner at `(x, y)`: each opaque pixel at
/// its column and row.
pub open spec fn placed(pixels: Seq<Option<Rgb565>>, w: int, x: int, y: int, n: int) -> Seq<(i32, i32, Rgb565)>
    decreases n,
{
    if n <= 0 {
        seq![]
    } else {
        let before = placed(pixels, w, x, y, n - 1);
        match pixels[n - 1] {
            Some(c) => before.push(((x + (n - 1) % w) as i32, (y + (n - 1) / w) as i32, c)),
            None => before,
        }
    }
}

/// How many multiples of `s` lie below `n`.
pub open spec fn samples(n: int, s: int) -> int {
    (n + s - 1) / s
}

/// The points drawn for the first `k` sampled columns of sampled row `j`
/// of an image `w` wide shrunk by `s`: source pixel `(k' * s, j * s)`, if
/// opaque, lands at `(x + k', y + j)`.
pub open spec fn scaled_row(pixels: Seq<Option<Rgb565>>, w: int, s: int, x: int, y: int, j: int, k: int) -> Seq<
    (i32, i32, Rgb565),
>
    decreases k,
{
    if k <= 0 {
        seq![]
    } else {
        let before = scaled_row(pixels, w, s, x, y, j, k - 1);
        match pixels[j * s * w + (k - 1) * s] {
            Some(c) => before.push(((x + (k - 1)) as i32, (y + j) as i32, c)),
            None => before,
        }
    }
}

/// The points drawn for the first `j` sampled rows of an image `w` by
/// `h` shrunk by `s`, row after row.
pub open spec fn scaled_rows(pixels: Seq<Option<Rgb565>>, w: int, h: int, s: int, x: int, y: int, j: int) -> Seq<
    (i32, i32, Rgb565),
>
    decreases j,
{
    if j <= 0 {
        seq![]
    } else {
        scaled_rows(pixels, w, h, s, x, y, j - 1) + scaled_row(pixels, w, s, x, y, j - 1, samples(w, s))
    }
}

/// The image's size and position keep every index and coordinate in
/// range.
pub open spec fn placement_ok(png: Png, x: i32, y: i32) -> bool {
    &&& png.spec_width() * png.spec_height() <= u32::MAX
    &&& png.spec_pixels().len() >= png.spec_width() * png.spec_height()
    &&& png.spec_width() <= i32::MAX && png.spec_height() <= i32::MAX
    &&& x + png.spec_width() <= i32::MAX
    &&& y + png.spec_height() <= i32::MAX
}

proof fn lemma_row_major(row: int, col: int, w: int)
    requires
        0 <= row,
        0 <= col < w,
    ensures
        (row * w + col) / w == row,
        (row * w + col) % w == col,
{
    vstd::arithmetic::div_mod::lemma_fundamental_div_mod_converse(row * w + col, w, row, col);
}

proof fn lemma_inside(row: int, col: int, w: int, h: int)
    requires
        0 <= row < h,
        0 <= col < w,
    ensures
        row * w + col < w * h,
        row * w + col + 1 <= w * h,
{
    assert(row * w + col < w * h) by (nonlinear_arith)
        requires
            0 <= row < h,
            0 <= col < w,
    ;
}

/// The points of `png` drawn at `(x, y)`: every opaque pixel at its
/// column and row, row after row.
pub fn draw_png(png: &Png, x: i32, y: i32) -> (r: Vec<(i32, i32, Rgb565)>)
    requires
        placement_ok(*png, x, y),
    ensures
        r@ == placed(png.spec_pixels(), png.spec_width() as int, x as int, y as int, png.spec_width() * png.spec_height()),
{
    let w = png.width();
    let h = png.height();
    let pixels = png.pixels();
    let ghost px = png.spec_pixels();
    let mut out: Vec<(i32, i32, Rgb565)> = Vec::new();
    let mut row: u32 = 0;
    while row < h
        invariant
            w == png.spec_width(),
            h == png.spec_height(),
            pixels@ == px,
            px == png.spec_pixels(),
            placement_ok(*png, x, y),
            row <= h,
            out@ == placed(px, w as int, x as int, y as int, row * w),
        decreases h - row,
    {
        let mut col: u32 = 0;
        while col < w
            invariant
                w == png.spec_width(),
                h == png.spec_height(),
                pixels@ == px,
                px == png.spec_pixels(),
                placement_ok(*png, x, y),
                row < h,
                col <= w,
                out@ == placed(px, w as int, x as int, y as int, row * w + col),
            decreases w - col,
        {
            proof {
                lemma_inside(row as int, col as int, w as int, h as int);
                lemma_row_major(row as int, col as int, w as int);
            }
            let idx = (row * w + col) as usize;
            if let Some(color) = pixels[idx] {
                out.push((x + col as i32, y + row as i32, color));
            }
            col = col + 1;
        }
        assert(row * w + w == (row + 1) * w) by (nonlinear_arith);
        row = row + 1;
    }
    assert(h * w == w * h) by (nonlinear_arith);
    out
}

proof fn lemma_last_sample(n: int, s: int, k: int)
    requires
        s >= 1,
        0 <= k * s < n,
        n - k * s <= s,
    ensures
        samples(n, s) == k + 1,
{
    assert(n + s - 1 == (k + 1) * s + (n - k * s - 1)) by (nonlinear_arith);
    vstd::arithmetic::div_mod::lemma_fundamental_div_mod_converse(n + s - 1, s, k + 1, n - k * s - 1);
}

proof fn lemma_no_samples(s: int)
    requires
        s >= 1,
    ensures
        samples(0, s) == 0,
{
    vstd::arithmetic::div_mod::lemma_fundamental_div_mod_converse(s - 1, s, 0, s - 1);
}

/// The points of `png` drawn at `(x, y)` shrunk by `scale`: the top-left
/// pixel of each `scale`-square block, if opaque, at the block's column
/// and row. A scale of 0 draws the image whole.
pub fn draw_png_scaled(png: &Png, x: i32, y: i32, scale: u32) -> (r: Vec<(i32, i32, Rgb565)>)
    requires
        placement_ok(*png, x, y),
    ensures
        scale == 0 ==> r@ == placed(
            png.spec_pixels(),
            png.spec_width() as int,
            x as int,
            y as int,
            png.spec_width() * png.spec_height(),
        ),
        scale > 0 ==> r@ == scaled_rows(
            png.spec_pixels(),
            png.spec_width() as int,
            png.spec_height() as int,
            scale as int,
            x as int,
            y as int,
            samples(png.spec_height() as int, scale as int),
        ),
{
    if scale == 0 {
        return draw_png(png, x, y);
    }
    let w = png.width();
    let h = png.height();
    let s = scale;
    let pixels = png.pixels();
    let ghost px = png.spec_pixels();
    let mut out: Vec<(i32, i32, Rgb565)> = Vec::new();
    if h == 0 || w == 0 {
        proof {
            lemma_no_samples(s as int);
        }
        if h == 0 {
            return out;
        }
    }
    let ghost rows = samples(h as int, s as int);
    let ghost cols = samples(w as int, s as int);
    let mut row: u32 = 0;
    let mut j: u32 = 0;
    loop
        invariant_except_break
            row < h,
            out@ == scaled_rows(px, w as int, h as int, s as int, x as int, y as int, j as int),
        invariant
            w == png.spec_width(),
            h == png.spec_height(),
            h > 0,
            s >= 1,
            pixels@ == px,
            px == png.spec_pixels(),
            placement_ok(*png, x, y),
            rows == samples(h as int, s as int),
            cols == samples(w as int, s as int),
            w == 0 ==> cols == 0,
            row == j * s,
            j <= row,
        ensures
            out@ == scaled_rows(px, w as int, h as int, s as int, x as int, y as int, rows),
        decreases h - row,
    {
        let ghost before = out@;
        let mut col: u32 = 0;
        let mut k: u32 = 0;
        if w > 0 {
            loop
                invariant_except_break
                    col < w,
                    out@ == before + scaled_row(px, w as int, s as int, x as int, y as int, j as int, k as int),
                invariant
                    w == png.spec_width(),
                    h == png.spec_height(),
                    w > 0,
                    s >= 1,
                    pixels@ == px,
                    px == png.spec_pixels(),
                    placement_ok(*png, x, y),
                    cols == samples(w as int, s as int),
                    row < h,
                    row == j * s,
                    j <= row,
                    col == k * s,
                    k <= col,
                ensures
                    out@ == before + scaled_row(px, w as int, s as int, x as int, y as int, j as int, cols),
                decreases w - col,
            {
                proof {
                    lemma_inside(row as int, col as int, w as int, h as int);
                }
                let idx = (row * w + col) as usize;
                if let Some(color) = pixels[idx] {
                    out.push((x + k as i32, y + j as i32, color));
                }
                assert(before + scaled_row(px, w as int, s as int, x as int, y as int, j as int, k + 1) =~= out@);
                if s >= w - col {
                    proof {
                        lemma_last_sample(w as int, s as int, k as int);
                    }
                    break;
                }
                col = col + s;
                k = k + 1;
                assert(col == k * s) by (nonlinear_arith)
                    requires
                        col == (k - 1) * s + s,
                ;
            }
        }
        assert(out@ =~= scaled_rows(px, w as int, h as int, s as int, x as int, y as int, j + 1));
        if s >= h - row {
            proof {
                lemma_last_sample(h as int, s as int, j as int);
            }
            break;
        }
        row = row + s;
        j = j + 1;
        assert(row == j * s) by (nonlinear_arith)
            requires
                row == (j - 1) * s + s,
        ;
    }
    out
}

} // verus!
