//! The app mark: from the bytes of a PNG file to pixels.

use vstd::prelude::*;

verus! {

/// An image of straight RGBA, eight bits a channel.
pub struct Image {
    pub width: u32,
    pub height: u32,
    pub rgba: Vec<u8>,
}

/// What the bytes of a decoded pixel are.
#[derive(Clone, Copy, PartialEq, Eq, Structural)]
pub enum Channels {
    Gray,
    GrayAlpha,
    Rgb,
    Rgba,
    Indexed,
}

impl Channels {
    pub open spec fn count(self) -> int {
        match self {
            Channels::Gray | Channels::Indexed => 1,
            Channels::GrayAlpha => 2,
            Channels::Rgb => 3,
            Channels::Rgba => 4,
        }
    }
}

/// The width and height in the header of a PNG file.
pub uninterp spec fn png_size(bytes: Seq<u8>) -> Option<(u32, u32)>;

/// What stands before the image data of a PNG file: how many bytes the decoded frame takes,
/// what the stored pixels are, and how long the palette is.
pub uninterp spec fn png_ahead(bytes: Seq<u8>) -> Option<(usize, Channels, Option<usize>)>;

/// The decoded frame of a PNG file: width, height, channels and pixels.
pub uninterp spec fn png_frame(bytes: Seq<u8>) -> Option<(u32, u32, Channels, Seq<u8>)>;

/// A frame of four channels whose bits can all be counted.
pub open spec fn countable(size: Option<(u32, u32)>) -> bool {
    size matches Some(s) && 32 * (s.0 * s.1) <= usize::MAX
}

/// Nothing in the palette of indexed pixels but whole colours, and no more of them than an
/// index of eight bits can name.
pub open spec fn sound(ahead: (usize, Channels, Option<usize>)) -> bool {
    ahead.1 is Indexed ==> match ahead.2 {
        Some(n) => n % 3 == 0 && n <= 768,
        None => true,
    }
}

/// `Decoder::read_header_info` of the `png` crate: the size of the picture, a function of the
/// bytes alone.
#[verifier::external_body]
fn header_size(bytes: &[u8]) -> (r: Option<(u32, u32)>)
    ensures
        r == png_size(bytes@),
{
    let mut decoder = png::Decoder::new(bytes);
    decoder.read_header_info().ok().map(|info| (info.width, info.height))
}

/// `Decoder::read_info` of the `png` crate, with palettes and low depths to be expanded and
/// deep samples to be cut to eight bits: `Reader::output_buffer_size`, and the colour type and
/// the length of the palette in `Reader::info`, all functions of the bytes alone. The crate
/// multiplies the size out, so it must fit.
#[verifier::external_body]
fn frame_ahead(bytes: &[u8]) -> (r: Option<(usize, Channels, Option<usize>)>)
    requires
        countable(png_size(bytes@)),
    ensures
        r == png_ahead(bytes@),
{
    let mut decoder = png::Decoder::new(bytes);
    decoder.set_transformations(png::Transformations::EXPAND | png::Transformations::STRIP_16);
    let reader = decoder.read_info().ok()?;
    let channels = match reader.info().color_type {
        png::ColorType::Grayscale => Channels::Gray,
        png::ColorType::GrayscaleAlpha => Channels::GrayAlpha,
        png::ColorType::Rgb => Channels::Rgb,
        png::ColorType::Rgba => Channels::Rgba,
        png::ColorType::Indexed => Channels::Indexed,
    };
    Some((reader.output_buffer_size(), channels, reader.info().palette.as_ref().map(|p| p.len())))
}

/// A frame as the `png` crate decodes it.
struct Frame {
    width: u32,
    height: u32,
    channels: Channels,
    pixels: Vec<u8>,
}

/// `Reader::next_frame` of the `png` crate, under the same transformations, into a buffer of
/// the size that the frame takes: a function of the bytes alone. Every sample has eight bits
/// then, so the pixels are as many bytes as width, height and channels make. What the pixels
/// are stays unsaid. The crate indexes a palette by whole colours, so it must be sound.
#[verifier::external_body]
fn next_frame(bytes: &[u8], size: usize) -> (r: Option<Frame>)
    requires
        countable(png_size(bytes@)),
        match png_ahead(bytes@) {
            Some(a) => a.0 == size && sound(a),
            None => false,
        },
    ensures
        match r {
            Some(f) => png_frame(bytes@) == Some((f.width, f.height, f.channels, f.pixels@))
                && f.pixels@.len() == f.channels.count() * (f.width * f.height),
            None => png_frame(bytes@) is None,
        },
{
    let mut decoder = png::Decoder::new(bytes);
    decoder.set_transformations(png::Transformations::EXPAND | png::Transformations::STRIP_16);
    let mut pixels = vec![0u8; size];
    let info = decoder.read_info().ok()?.next_frame(&mut pixels).ok()?;
    pixels.truncate(info.buffer_size());
    let channels = match info.color_type {
        png::ColorType::Grayscale => Channels::Gray,
        png::ColorType::GrayscaleAlpha => Channels::GrayAlpha,
        png::ColorType::Rgb => Channels::Rgb,
        png::ColorType::Rgba => Channels::Rgba,
        png::ColorType::Indexed => Channels::Indexed,
    };
    Some(Frame { width: info.width, height: info.height, channels, pixels })
}

/// The pixels with all four channels; a palette that was not expanded has none.
pub open spec fn expanded(c: Channels, px: Seq<u8>) -> Option<Seq<u8>> {
    match c {
        Channels::Rgba => Some(px),
        Channels::Rgb => Some(
            Seq::new(
                (px.len() / 3 * 4) as nat,
                |i: int|
                    if i % 4 == 3 {
                        255u8
                    } else {
                        px[i / 4 * 3 + i % 4]
                    },
            ),
        ),
        Channels::GrayAlpha => Some(
            Seq::new(
                (px.len() / 2 * 4) as nat,
                |i: int|
                    if i % 4 == 3 {
                        px[i / 4 * 2 + 1]
                    } else {
                        px[i / 4 * 2]
                    },
            ),
        ),
        Channels::Gray => Some(
            Seq::new(
                (px.len() * 4) as nat,
                |i: int|
                    if i % 4 == 3 {
                        255u8
                    } else {
                        px[i / 4]
                    },
            ),
        ),
        Channels::Indexed => None,
    }
}

/// Gives every pixel four channels.
pub fn to_rgba(c: Channels, px: Vec<u8>) -> (r: Option<Vec<u8>>)
    ensures
        match expanded(c, px@) {
            Some(v) => r is Some && r->0@ == v,
            None => r is None,
        },
{
    let mut out: Vec<u8> = Vec::new();
    let mut i: usize = 0;
    match c {
        Channels::Rgba => {
            return Some(px);
        },
        Channels::Indexed => {
            return None;
        },
        Channels::Rgb => {
            let ghost want = expanded(c, px@)->0;
            while px.len() - i >= 3
                invariant
                    i <= px.len(),
                    i % 3 == 0,
                    want == expanded(Channels::Rgb, px@)->0,
                    out@ == want.take(i / 3 * 4),
                decreases px.len() - i,
            {
                let ghost at = (i / 3 * 4) as int;
                assert(at / 4 == i / 3 && (at + 1) / 4 == i / 3 && (at + 2) / 4 == i / 3 && (at + 3)
                    / 4 == i / 3);
                out.push(px[i]);
                out.push(px[i + 1]);
                out.push(px[i + 2]);
                out.push(255);
                assert(out@ =~= want.take(at + 4));
                i += 3;
            }
            assert(want.take(i / 3 * 4) =~= want);
        },
        Channels::GrayAlpha => {
            let ghost want = expanded(c, px@)->0;
            while px.len() - i >= 2
                invariant
                    i <= px.len(),
                    i % 2 == 0,
                    want == expanded(Channels::GrayAlpha, px@)->0,
                    out@ == want.take(i / 2 * 4),
                decreases px.len() - i,
            {
                let ghost at = (i / 2 * 4) as int;
                assert(at / 4 == i / 2 && (at + 1) / 4 == i / 2 && (at + 2) / 4 == i / 2 && (at + 3)
                    / 4 == i / 2);
                out.push(px[i]);
                out.push(px[i]);
                out.push(px[i]);
                out.push(px[i + 1]);
                assert(out@ =~= want.take(at + 4));
                i += 2;
            }
            assert(want.take(i / 2 * 4) =~= want);
        },
        Channels::Gray => {
            let ghost want = expanded(c, px@)->0;
            while i < px.len()
                invariant
                    i <= px.len(),
                    want == expanded(Channels::Gray, px@)->0,
                    out@ == want.take(i * 4),
                decreases px.len() - i,
            {
                let ghost at = (i * 4) as int;
                assert(at / 4 == i && (at + 1) / 4 == i && (at + 2) / 4 == i && (at + 3) / 4 == i);
                out.push(px[i]);
                out.push(px[i]);
                out.push(px[i]);
                out.push(255);
                assert(out@ =~= want.take(at + 4));
                i += 1;
            }
            assert(want.take(i * 4) =~= want);
        },
    }
    Some(out)
}

/// The image that a PNG file holds, if it holds one: its size can be reckoned with, its
/// palette is sound, and what follows can be decoded.
pub open spec fn image_of(bytes: Seq<u8>) -> Option<(u32, u32, Seq<u8>)> {
    if !countable(png_size(bytes)) {
        None
    } else {
        match (png_ahead(bytes), png_frame(bytes)) {
            (Some(a), Some(f)) => match expanded(f.2, f.3) {
                Some(px) => if sound(a) {
                    Some((f.0, f.1, px))
                } else {
                    None
                },
                None => None,
            },
            _ => None,
        }
    }
}

/// Whether a frame of the size can be reckoned with.
pub fn is_countable(size: &Option<(u32, u32)>) -> (r: bool)
    ensures
        r == countable(*size),
{
    match size {
        Some(s) => {
            let (w, h) = *s;
            assert(0 <= w * h <= 0xffff_ffff * 0xffff_ffff) by (nonlinear_arith)
                requires
                    0 <= w <= 0xffff_ffff,
                    0 <= h <= 0xffff_ffff,
            ;
            32 * (w as u128 * h as u128) <= usize::MAX as u128
        },
        None => false,
    }
}

/// Whether the palette can be used.
pub fn is_sound(channels: Channels, palette: Option<usize>) -> (r: bool)
    ensures
        forall|need: usize| r == #[trigger] sound((need, channels, palette)),
{
    if let Channels::Indexed = channels {
        match palette {
            Some(n) => n % 3 == 0 && n <= 768,
            None => true,
        }
    } else {
        true
    }
}

/// Decodes to four channels of eight bits, however the file was written.
pub fn decode(bytes: &[u8]) -> (r: Option<Image>)
    ensures
        match r {
            Some(i) => image_of(bytes@) == Some((i.width, i.height, i.rgba@)) && i.rgba@.len() == 4
                * (i.width * i.height),
            None => image_of(bytes@) is None,
        },
{
    if !is_countable(&header_size(bytes)) {
        return None;
    }
    let (size, stored, palette) = match frame_ahead(bytes) {
        Some(a) => a,
        None => {
            return None;
        },
    };
    if !is_sound(stored, palette) {
        return None;
    }
    let f = match next_frame(bytes, size) {
        Some(f) => f,
        None => {
            return None;
        },
    };
    let ghost area = (f.width * f.height) as int;
    match to_rgba(f.channels, f.pixels) {
        Some(rgba) => {
            proof {
                assert(area >= 0) by (nonlinear_arith)
                    requires
                        area == f.width * f.height,
                ;
                if f.channels is Rgb {
                    assert((3 * area) / 3 == area);
                } else if f.channels is GrayAlpha {
                    assert((2 * area) / 2 == area);
                }
            }
            Some(Image { width: f.width, height: f.height, rgba })
        },
        None => None,
    }
}

/// The icon of the window, from its file.
pub fn window(png: &[u8]) -> (r: Option<Image>)
    ensures
        match r {
            Some(i) => image_of(png@) == Some((i.width, i.height, i.rgba@)) && i.rgba@.len() == 4 * (
            i.width * i.height),
            None => image_of(png@) is None,
        },
{
    decode(png)
}

/// The mark of the header, from its file.
pub fn header(png: &[u8]) -> (r: Option<Image>)
    ensures
        match r {
            Some(i) => image_of(png@) == Some((i.width, i.height, i.rgba@)) && i.rgba@.len() == 4 * (
            i.width * i.height),
            None => image_of(png@) is None,
        },
{
    decode(png)
}

/// A pixel without an alpha channel of its own is opaque.
pub proof fn law_no_alpha_means_opaque(c: Channels, px: Seq<u8>, i: int)
    requires
        c is Gray || c is Rgb,
        0 <= i,
        4 * i + 3 < expanded(c, px)->0.len(),
    ensures
        expanded(c, px)->0[4 * i + 3] == 255,
{
    assert((4 * i + 3) % 4 == 3);
}

/// Every pixel keeps its channels: a grey one has its grey for red, green and blue alike, and
/// what it had of an alpha channel is its alpha. There are as many pixels after as before.
pub proof fn law_every_pixel_keeps_its_channels(c: Channels, px: Seq<u8>, n: int, i: int)
    requires
        !(c is Indexed),
        px.len() == c.count() * n,
        0 <= i < n,
    ensures
        expanded(c, px) is Some,
        expanded(c, px)->0.len() == 4 * n,
        ({
            let out = expanded(c, px)->0;
            let now = (out[4 * i], out[4 * i + 1], out[4 * i + 2], out[4 * i + 3]);
            match c {
                Channels::Rgba => now == (px[4 * i], px[4 * i + 1], px[4 * i + 2], px[4 * i + 3]),
                Channels::Rgb => now == (px[3 * i], px[3 * i + 1], px[3 * i + 2], 255u8),
                Channels::GrayAlpha => now == (px[2 * i], px[2 * i], px[2 * i], px[2 * i + 1]),
                _ => now == (px[i], px[i], px[i], 255u8),
            }
        }),
{
    let out = expanded(c, px)->0;
    assert((4 * i) / 4 == i && (4 * i + 1) / 4 == i && (4 * i + 2) / 4 == i && (4 * i + 3) / 4
        == i);
    assert((4 * i) % 4 == 0 && (4 * i + 1) % 4 == 1 && (4 * i + 2) % 4 == 2 && (4 * i + 3) % 4
        == 3);
}

/// A palette that was not expanded gives no pixels, and one is sound only where it is made of
/// whole colours, at most one for each byte there is.
pub proof fn law_which_palettes_are_sound(need: usize, c: Channels, n: usize, k: int, over: int)
    requires
        n == 3 * k + over,
        0 <= over < 3,
    ensures
        expanded(Channels::Indexed, Seq::empty()) is None,
        !(c is Indexed) ==> sound((need, c, Some(n))),
        sound((need, Channels::Indexed, None)),
        sound((need, Channels::Indexed, Some(n))) <==> over == 0 && k <= 256,
{
}

} // verus!
