use agrega::base::RenderingBase;
use agrega::color::{Rgb8, Rgba8};
use agrega::pixel::Pixel;
use agrega::pixfmt::Pixfmt;
use agrega::text::{draw_glyph, draw_text, string_width, AggFontError, GlyphBitmap, XAlign, YAlign};

fn white(w: usize, h: usize) -> RenderingBase<Pixfmt<Rgb8>> {
    let mut pix = Pixfmt::<Rgb8>::new(w, h);
    pix.fill(Rgb8::white());
    RenderingBase::new(pix)
}

fn reds(base: &RenderingBase<Pixfmt<Rgb8>>) -> Vec<(usize, usize, u8)> {
    let mut v = Vec::new();
    for y in 0..base.pixf.height() {
        for x in 0..base.pixf.width() {
            let p = base.pixf.raw((x, y));
            assert!(p.r == p.g && p.g == p.b);
            if p.r != 255 {
                v.push((x, y, p.r));
            }
        }
    }
    v
}

fn glyph_a() -> GlyphBitmap {
    GlyphBitmap {
        left: 0,
        top: 2,
        rows: 2,
        width: 2,
        pitch: 3,
        buffer: vec![255, 128, 9, 0, 255, 9],
        advance_x: 3 * 64 + 32,
        advance_y: 0,
    }
}

fn glyph_b() -> GlyphBitmap {
    GlyphBitmap {
        left: -1,
        top: 1,
        rows: 1,
        width: 3,
        pitch: 3,
        buffer: vec![255, 255, 255],
        advance_x: 100,
        advance_y: 0,
    }
}

#[test]
fn glyph_is_painted_row_by_row() {
    let mut base = white(6, 5);
    draw_glyph(&glyph_a(), 2, 3, Rgba8::black(), &mut base);
    assert_eq!(reds(&base), vec![(2, 1, 0), (3, 1, 127), (3, 2, 0)]);
}

#[test]
fn glyph_is_clipped_to_the_image() {
    let mut base = white(3, 2);
    draw_glyph(&glyph_a(), 2, 3, Rgba8::black(), &mut base);
    assert_eq!(reds(&base), vec![(2, 1, 0)]);
    let mut base = white(3, 2);
    draw_glyph(&glyph_a(), -1, 2, Rgba8::black(), &mut base);
    assert_eq!(reds(&base), vec![(0, 0, 127), (0, 1, 0)]);
    let mut base = white(3, 2);
    draw_glyph(&glyph_a(), 50, 50, Rgba8::black(), &mut base);
    draw_glyph(&GlyphBitmap { rows: 0, buffer: Vec::new(), ..glyph_a() }, 0, 0, Rgba8::black(), &mut base);
    assert!(reds(&base).is_empty());
}

#[test]
fn width_of_a_text_is_the_sum_of_its_advances() {
    assert_eq!(string_width(&vec![glyph_a(), glyph_b()]), 324);
    assert_eq!(string_width(&Vec::new()), 0);
    let back = GlyphBitmap { advance_x: -64, ..glyph_b() };
    assert_eq!(string_width(&vec![glyph_a(), back]), 160);
}

#[test]
fn text_is_centred_and_the_pen_advances() {
    let mut base = white(10, 6);
    draw_text(&vec![glyph_a(), glyph_b()], 256, 5, 1, Rgba8::black(), &mut base);
    assert_eq!(
        reds(&base),
        vec![(2, 1, 0), (3, 1, 127), (3, 2, 0), (5, 2, 0), (6, 2, 0), (7, 2, 0)]
    );
}

#[test]
fn pen_moves_down_and_rounds_halves_away_from_zero() {
    let dot = |advance_x: i64, advance_y: i64| GlyphBitmap {
        left: 0,
        top: 0,
        rows: 1,
        width: 1,
        pitch: 1,
        buffer: vec![255],
        advance_x,
        advance_y,
    };
    let mut base = white(8, 8);
    draw_text(
        &vec![dot(96, 32), dot(-32, 95), dot(0, 0)],
        -64,
        4,
        4,
        Rgba8::new(0, 0, 0, 255),
        &mut base,
    );
    // The width is 64: the pen starts one pixel to the left (64 / 128 rounds
    // to 1) and one pixel further up (-64 / 128 rounds to -1).
    assert_eq!(reds(&base), vec![(3, 3, 0), (5, 4, 0), (4, 5, 0)]);
}

#[test]
fn text_color_is_blended() {
    let mut base = white(4, 4);
    draw_text(&vec![glyph_b()], 0, 1, 2, Rgba8::new(0, 0, 0, 192), &mut base);
    // 100 / 128 rounds to 1.
    assert_eq!(reds(&base), vec![(0, 1, 63), (1, 1, 63)]);
}

#[test]
fn font_errors_and_alignment() {
    let e = AggFontError::from(String::from("no font"));
    assert!(matches!(e, AggFontError::Io(ref s) if s == "no font"));
    let e = AggFontError::from(freetype::error::Error::InvalidHandle);
    assert!(matches!(e, AggFontError::Ft(freetype::error::Error::InvalidHandle)));
    assert_ne!(XAlign::Left, XAlign::Right);
    assert_ne!(YAlign::Top, YAlign::Bottom);
    assert_eq!(XAlign::Center, XAlign::Center);
}
