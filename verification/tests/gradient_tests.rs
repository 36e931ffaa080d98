use agrega::color::Rgb8;
use agrega::gradient::{GradientX, Interpolator, SpanGradient};

fn palette(n: u8) -> Vec<Rgb8> {
    (0..n).map(|i| Rgb8::new(i, 10 * i, 100 + i)).collect()
}

fn indices(span: &[Rgb8]) -> Vec<u8> {
    span.iter().map(|c| c.r).collect()
}

#[test]
fn interpolator_walks_both_axes() {
    let mut it = Interpolator::new();
    assert!(it.li_x.is_none() && it.li_y.is_none());
    assert_eq!((it.subpixel_shift(), it.subpixel_scale()), (8, 256));
    it.inc();
    assert!(it.li_x.is_none());
    it.begin(0, 50, 1000, 50, 7);
    let mut seen = Vec::new();
    for _ in 0..7 {
        seen.push(it.coordinates());
        it.inc();
    }
    assert_eq!(seen.iter().map(|p| p.0).collect::<Vec<_>>(), vec![0, 143, 286, 429, 572, 715, 857]);
    assert!(seen.iter().all(|p| p.1 == 50));
    assert_eq!(it.coordinates(), (1000, 50));
}

#[test]
fn span_gets_the_colors_of_its_places() {
    let g = SpanGradient::new(GradientX {}, &palette(4), 0, 160);
    assert_eq!((g.subpixel_shift(), g.subpixel_scale()), (4, 16));
    assert_eq!((g.d1, g.d2), (0, 160));
    let span = g.generate(0, 0, 10 * 256, 0, 10);
    assert_eq!(indices(&span), vec![0, 0, 0, 1, 1, 2, 2, 2, 3, 3]);
    assert_eq!(span[3], Rgb8::new(1, 10, 101));
    let back = g.generate(2560, 77, 0, -900, 10);
    assert_eq!(indices(&back), vec![3, 3, 3, 2, 2, 2, 1, 1, 0, 0]);
    assert!(g.generate(0, 0, 2560, 0, 0).is_empty());
}

#[test]
fn gradient_is_clamped_at_both_ends() {
    let g = SpanGradient::new(GradientX {}, &palette(3), 32, 96);
    assert_eq!(indices(&g.generate(128, 0, 8 * 256 + 128, 0, 8)), vec![0, 0, 0, 1, 1, 2, 2, 2]);
    let g = SpanGradient::new(GradientX {}, &palette(2), -80, 80);
    assert_eq!(
        indices(&g.generate(-5 * 256, 0, 5 * 256, 0, 10)),
        vec![0, 0, 0, 0, 0, 1, 1, 1, 1, 1]
    );
}

#[test]
fn gradient_without_length_is_one_unit_long() {
    let mut g = SpanGradient::new(GradientX {}, &palette(5), 100, 100);
    g.prepare();
    assert_eq!(indices(&g.generate(0, 0, 2560, 0, 10)), vec![0, 0, 0, 0, 0, 0, 0, 4, 4, 4]);
    let g = SpanGradient::new(GradientX {}, &palette(5), 100, 20);
    assert_eq!(indices(&g.generate(0, 0, 2560, 0, 10)), vec![0, 0, 0, 0, 0, 0, 0, 4, 4, 4]);
}
