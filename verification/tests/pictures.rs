//! Icons and the whole-number side of drawing.

use kevat::fields::{
    contains, find, is_blank, lines_of, replace, split_once, split_whitespace, trim, whitespace,
};
use kevat::icon::{decode, header, is_countable, is_sound, to_rgba, window, Channels};
use kevat::raster::{pack, span, unpack, ClipBox, Texture};

fn file(width: u32, height: u32, color: png::ColorType, data: &[u8]) -> Vec<u8> {
    let mut out = Vec::new();
    let mut e = png::Encoder::new(&mut out, width, height);
    e.set_color(color);
    e.set_depth(png::BitDepth::Eight);
    let mut w = e.write_header().unwrap();
    w.write_image_data(data).unwrap();
    w.finish().unwrap();
    out
}

#[test]
fn every_kind_of_png_becomes_rgba() {
    let rgba = [1, 2, 3, 4, 5, 6, 7, 8];
    let i = window(&file(2, 1, png::ColorType::Rgba, &rgba)).unwrap();
    assert_eq!((i.width, i.height, i.rgba), (2, 1, rgba.to_vec()));
    let i = header(&file(1, 2, png::ColorType::Rgb, &[1, 2, 3, 4, 5, 6])).unwrap();
    assert_eq!((i.width, i.height, i.rgba), (1, 2, vec![1, 2, 3, 255, 4, 5, 6, 255]));
    let i = decode(&file(2, 1, png::ColorType::GrayscaleAlpha, &[9, 8, 7, 6])).unwrap();
    assert_eq!(i.rgba, [9, 9, 9, 8, 7, 7, 7, 6]);
    let i = decode(&file(2, 1, png::ColorType::Grayscale, &[9, 8])).unwrap();
    assert_eq!(i.rgba, [9, 9, 9, 255, 8, 8, 8, 255]);
}

#[test]
fn palettes_and_deep_samples_are_expanded() {
    let mut out = Vec::new();
    let mut e = png::Encoder::new(&mut out, 2, 1);
    e.set_color(png::ColorType::Indexed);
    e.set_depth(png::BitDepth::Eight);
    e.set_palette(vec![10, 20, 30, 40, 50, 60]);
    let mut w = e.write_header().unwrap();
    w.write_image_data(&[1, 0]).unwrap();
    w.finish().unwrap();
    assert_eq!(decode(&out).unwrap().rgba, [40, 50, 60, 255, 10, 20, 30, 255]);
    let mut out = Vec::new();
    let mut e = png::Encoder::new(&mut out, 1, 1);
    e.set_color(png::ColorType::Grayscale);
    e.set_depth(png::BitDepth::Sixteen);
    let mut w = e.write_header().unwrap();
    w.write_image_data(&[0xAB, 0xCD]).unwrap();
    w.finish().unwrap();
    assert_eq!(decode(&out).unwrap().rgba, [0xAB, 0xAB, 0xAB, 255]);
}

#[test]
fn what_is_no_png_has_no_image() {
    assert!(window(b"").is_none());
    assert!(header(b"not a picture").is_none());
    let mut cut = file(4, 4, png::ColorType::Grayscale, &[7; 16]);
    cut.truncate(cut.len() - 20);
    assert!(decode(&cut).is_none());
    assert!(to_rgba(Channels::Indexed, vec![1, 2]).is_none());
    // An odd byte at the end makes no pixel.
    assert_eq!(to_rgba(Channels::Rgb, vec![1, 2, 3, 4]).unwrap(), [1, 2, 3, 255]);
}

/// One chunk of a PNG file, with its checksum.
fn chunk(kind: &[u8; 4], data: &[u8]) -> Vec<u8> {
    let mut body = kind.to_vec();
    body.extend_from_slice(data);
    let mut crc = u32::MAX;
    for b in &body {
        crc ^= u32::from(*b);
        for _ in 0..8 {
            crc = if crc & 1 == 1 { (crc >> 1) ^ 0xEDB8_8320 } else { crc >> 1 };
        }
    }
    let mut out = (data.len() as u32).to_be_bytes().to_vec();
    out.extend_from_slice(&body);
    out.extend_from_slice(&(!crc).to_be_bytes());
    out
}

fn ihdr(width: u32, height: u32, depth: u8, kind: u8) -> Vec<u8> {
    let mut d = width.to_be_bytes().to_vec();
    d.extend_from_slice(&height.to_be_bytes());
    d.extend_from_slice(&[depth, kind, 0, 0, 0]);
    chunk(b"IHDR", &d)
}

/// Image data that is stored, not compressed.
fn idat(data: &[u8]) -> Vec<u8> {
    let n = data.len() as u16;
    let mut d = vec![0x78, 0x01, 1];
    d.extend_from_slice(&n.to_le_bytes());
    d.extend_from_slice(&(!n).to_le_bytes());
    d.extend_from_slice(data);
    let (mut a, mut b) = (1u32, 0u32);
    for x in data {
        a = (a + u32::from(*x)) % 65_521;
        b = (b + a) % 65_521;
    }
    d.extend_from_slice(&(b << 16 | a).to_be_bytes());
    chunk(b"IDAT", &d)
}

fn png_of(chunks: &[Vec<u8>]) -> Vec<u8> {
    let mut out = vec![0x89, b'P', b'N', b'G', 13, 10, 26, 10];
    for c in chunks {
        out.extend_from_slice(c);
    }
    out.extend_from_slice(&chunk(b"IEND", &[]));
    out
}

#[test]
fn a_palette_of_broken_colours_makes_no_picture() {
    let with = |palette: usize| {
        let colours: Vec<u8> = (0..palette).map(|i| (i % 251) as u8).collect();
        decode(&png_of(&[ihdr(1, 1, 8, 3), chunk(b"PLTE", &colours), idat(&[0, 1])]))
    };
    assert_eq!(with(6).unwrap().rgba, [3, 4, 5, 255]);
    assert_eq!(with(768).unwrap().rgba, [3, 4, 5, 255]);
    for bad in [1, 2, 5, 767, 769, 771, 3000] {
        assert!(with(bad).is_none(), "{bad}");
    }
    // Pixels that are no indices need no palette, whatever it holds.
    let rgb = png_of(&[ihdr(1, 1, 8, 2), chunk(b"PLTE", &[1]), idat(&[0, 7, 8, 9])]);
    assert_eq!(decode(&rgb).unwrap().rgba, [7, 8, 9, 255]);
    assert!(decode(&png_of(&[ihdr(1, 1, 8, 3), idat(&[0, 1])])).is_none());
    assert!(is_sound(Channels::Indexed, Some(768)) && !is_sound(Channels::Indexed, Some(771)));
    assert!(is_sound(Channels::Rgb, Some(1)) && is_sound(Channels::Indexed, None));
}

#[test]
fn a_size_past_counting_makes_no_picture() {
    let mut fctl = vec![0, 0, 0, 0];
    for n in [1u32, 1, 0, 0] {
        fctl.extend_from_slice(&n.to_be_bytes());
    }
    fctl.extend_from_slice(&[0; 6]);
    let huge = png_of(&[
        ihdr(1 << 31, 1 << 31, 8, 3),
        chunk(b"acTL", &[0, 0, 0, 1, 0, 0, 0, 0]),
        chunk(b"fcTL", &fctl),
        chunk(b"PLTE", &[1, 2, 3]),
        chunk(b"tRNS", &[9]),
        idat(&[0, 0]),
    ]);
    assert!(decode(&huge).is_none());
    assert!(is_countable(&Some((64, 64))));
    assert!(!is_countable(&Some((u32::MAX, u32::MAX))));
    assert!(!is_countable(&None));
}

#[test]
fn a_patch_is_cut_off_at_the_edge() {
    let mut t = Texture::new(4, 3, vec![0; 12]);
    t.patch(2, 1, 3, 5, &(1..=15).collect());
    let rows: Vec<Vec<u32>> =
        (0..3).map(|y| (0..4).map(|x| t.pixel(x, y)).collect()).collect();
    assert_eq!(rows, [vec![0, 0, 0, 0], vec![0, 0, 1, 2], vec![0, 0, 4, 5]]);
    t.patch(9, 9, 1, 1, &vec![99]);
    t.patch(usize::MAX, 0, 1, 1, &vec![99]);
    assert!(t.px.iter().all(|p| *p != 99));
    t.patch(0, 0, 4, 3, &(100..112).collect());
    assert_eq!((t.pixel(0, 0), t.pixel(3, 2)), (100, 111));
}

#[test]
fn spans_never_wrap() {
    assert_eq!(span(-50, -3, 0, 100), None);
    assert_eq!(span(-50, 7, 0, 100), Some((0, 7)));
    assert_eq!(span(90, 500, 10, 100), Some((90, 100)));
    assert_eq!(span(5, 5, 0, 100), None);
    assert_eq!(span(i64::MIN, i64::MAX, 3, 4), Some((3, 4)));
    assert!(ClipBox { x0: 3, y0: 0, x1: 3, y1: 9 }.is_empty());
    assert!(!ClipBox { x0: 3, y0: 0, x1: 4, y1: 9 }.is_empty());
}

#[test]
fn packing_keeps_the_colour() {
    assert_eq!(pack(0x12, 0x34, 0x56), 0x123456);
    assert_eq!(unpack(0xFF123456), (0x12, 0x34, 0x56));
    for c in [(0, 0, 0), (255, 255, 255), (1, 128, 254)] {
        assert_eq!(unpack(pack(c.0, c.1, c.2)), c);
    }
}

fn chars(s: &str) -> Vec<char> {
    s.chars().collect()
}

fn text(v: &[char]) -> String {
    v.iter().collect()
}

#[test]
fn text_is_taken_apart_as_the_standard_library_does() {
    for s in ["", "a", " a  b\tc ", "x - y - z", "\u{2003}é\u{a0}ü\u{85}", "- ", " \n\r\n", "a\r\nb\rc\n\nd\r"] {
        let c = chars(s);
        let words: Vec<String> = split_whitespace(&c).iter().map(|w| text(w)).collect();
        assert_eq!(words, s.split_whitespace().collect::<Vec<_>>(), "{s:?}");
        let lines: Vec<String> = lines_of(&c).iter().map(|l| text(l)).collect();
        assert_eq!(lines, s.lines().collect::<Vec<_>>(), "{s:?}");
        assert_eq!(text(&trim(&c)), s.trim(), "{s:?}");
        assert_eq!(is_blank(&c), s.trim().is_empty(), "{s:?}");
        let cut = split_once(&c, &chars(" - ")).map(|(a, b)| (text(&a), text(&b)));
        let want = s.split_once(" - ").map(|(a, b)| (a.to_string(), b.to_string()));
        assert_eq!(cut, want, "{s:?}");
        assert_eq!(contains(&c, &chars("b\t")), s.contains("b\t"));
        assert_eq!(text(&replace(&c, &chars(" "), &chars("__"))), s.replace(' ', "__"));
    }
    assert_eq!(text(&replace(&chars("aaa"), &chars("aa"), &chars("b"))), "ba");
    assert_eq!(find(&chars("abab"), &chars("ba")), Some(1));
    assert_eq!(find(&chars("abab"), &chars("x")), None);
    for u in 0..=0x10FFFFu32 {
        if let Some(c) = char::from_u32(u) {
            assert_eq!(whitespace(c), c.is_whitespace(), "{u:x}");
        }
    }
}
