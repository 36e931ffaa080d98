use agrega::color::Rgba8;
use agrega::pattern::{LineImagePattern, LineImagePatternPow2};
use agrega::pixel::{Pixel, PixelSource};
use agrega::pixfmt::Pixfmt;
use agrega::rend::PatternFilterBilinear;

fn color(x: usize, y: usize) -> Rgba8 {
    Rgba8::new(10 * x as u8 + 100, 20 * y as u8 + 40, (x + y) as u8, 255 - x as u8)
}

fn image(w: usize, h: usize) -> Pixfmt<Rgba8> {
    let mut pix = Pixfmt::<Rgba8>::new(w, h);
    for y in 0..h {
        for x in 0..w {
            pix.set((x, y), color(x, y));
        }
    }
    pix
}

const NONE: Rgba8 = Rgba8 { r: 0, g: 0, b: 0, a: 0 };

#[test]
fn filter_reads_pixels_and_between_them() {
    let pix = image(3, 3);
    let f = PatternFilterBilinear::new();
    assert_eq!(f.dilation(), 1);
    assert_eq!(f.pixel_low_res(&pix, 2, 1), color(2, 1));
    assert_eq!(f.pixel_high_res(&pix, 256, 0), color(1, 0));
    assert_eq!(f.pixel_high_res(&pix, 128, 0), Rgba8::new(105, 40, 0, 254));
    assert_eq!(f.pixel_high_res(&pix, 0, 64), Rgba8::new(100, 45, 0, 255));
    // Three quarters of the way to the right and a quarter of the way down.
    let (a, b, c, d) = (color(1, 1), color(2, 1), color(1, 2), color(2, 2));
    let mix = |p: u8, q: u8, r: u8, s: u8| {
        ((64 * 192 * p as u32 + 192 * 192 * q as u32 + 64 * 64 * r as u32 + 192 * 64 * s as u32)
            >> 16) as u8
    };
    assert_eq!(
        f.pixel_high_res(&pix, 256 + 192, 256 + 64),
        Rgba8::new(mix(a.r, b.r, c.r, d.r), mix(a.g, b.g, c.g, d.g), mix(a.b, b.b, c.b, d.b), mix(a.a, b.a, c.a, d.a))
    );
}

#[test]
fn pattern_frames_the_image_and_repeats_it() {
    let mut pat = LineImagePattern::new(PatternFilterBilinear::new());
    assert_eq!((pat.dilation, pat.dilation_hr), (2, 512));
    assert_eq!((pat.pix.width(), pat.pix.height()), (1, 1));
    pat.create(&image(3, 2));
    assert_eq!((pat.pix.width(), pat.pix.height()), (7, 6));
    assert_eq!((pat.pattern_width(), pat.line_width(), pat.width()), (768, 384, 2));
    assert_eq!(pat.offset_y_hr, 640);
    for y in 0..6 {
        for x in 0..7 {
            let expected = if (2..4).contains(&y) { color((x + 1) % 3, y - 2) } else { NONE };
            assert_eq!(pat.pix.get((x, y)), expected, "{} {}", x, y);
        }
    }
}

#[test]
fn pattern_of_a_single_column_repeats_it_everywhere() {
    let mut pat = LineImagePattern::new(PatternFilterBilinear::new());
    pat.create(&image(1, 3));
    assert_eq!((pat.pix.width(), pat.pix.height()), (5, 7));
    assert_eq!((pat.pattern_width(), pat.line_width(), pat.width()), (256, 512, 3));
    for y in 0..7 {
        for x in 0..5 {
            let expected = if (2..5).contains(&y) { color(0, y - 2) } else { NONE };
            assert_eq!(pat.pix.get((x, y)), expected, "{} {}", x, y);
        }
    }
}

#[test]
fn pattern_period_is_a_power_of_two() {
    for (w, period) in [(1usize, 256i64), (2, 512), (3, 512), (4, 1024), (5, 1024), (8, 2048), (9, 2048)] {
        let mut pat = LineImagePatternPow2::new(PatternFilterBilinear::new());
        assert_eq!(pat.mask, 255);
        pat.create(&image(w, 2));
        assert_eq!(pat.pattern_width(), period, "{}", w);
        assert_eq!(pat.mask as i64, period - 1);
        assert_eq!((pat.line_width(), pat.width()), (384, 2));
    }
}

#[test]
fn pattern_is_read_along_and_across_the_line() {
    let mut pat = LineImagePatternPow2::new(PatternFilterBilinear::new());
    pat.create(&image(4, 2));
    // Half a pixel above the middle of the line lies the first row of the image.
    assert_eq!(pat.pixel(0, -128), color(0, 0));
    assert_eq!(pat.pixel(256, -128), color(1, 0));
    assert_eq!(pat.pixel(3 * 256, 128), color(3, 1));
    // The middle of the line lies between the two rows.
    assert_eq!(pat.pixel(512, 0), Rgba8::new(120, 50, 2, 253));
    // Positions are counted round the pattern.
    assert_eq!(pat.pixel(1024 + 256, -128), color(1, 0));
    assert_eq!(pat.pixel(-1024 + 512, 128), color(2, 1));
    // Behind the last column the first one follows.
    assert_eq!(pat.pixel(3 * 256 + 128, -128), Rgba8::new(115, 40, 1, 253));
    // Above the image there is nothing.
    assert_eq!(pat.pixel(0, -128 - 256), NONE);
    assert_eq!(pat.pixel(0, -256), Rgba8::new(50, 20, 0, 127));
}
