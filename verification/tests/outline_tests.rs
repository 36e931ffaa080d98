use agrega::base::RenderingBase;
use agrega::color::{Rgb8, Rgba8};
use agrega::outline::{RasterizerOutline, RendererOutline, RendererPrimitives, Subpixel};
use agrega::paths::Vertex;
use agrega::pixel::Pixel;
use agrega::pixfmt::Pixfmt;
use agrega::rend::BresehamInterpolator;

fn white(w: usize, h: usize) -> RenderingBase<Pixfmt<Rgb8>> {
    let mut pix = Pixfmt::<Rgb8>::new(w, h);
    pix.fill(Rgb8::white());
    RenderingBase::new(pix)
}

fn dark(base: &RenderingBase<Pixfmt<Rgb8>>) -> Vec<(usize, usize)> {
    let (w, h) = (base.pixf.width(), base.pixf.height());
    let mut v = Vec::new();
    for y in 0..h {
        for x in 0..w {
            if base.pixf.raw((x, y)) != Rgb8::white() {
                v.push((x, y));
            }
        }
    }
    v
}

fn sp(v: i64) -> Subpixel {
    Subpixel::from(v)
}

#[test]
fn subpixel_conversions() {
    assert_eq!(sp(300).value(), 300);
    assert_eq!(i64::from(sp(300)), 1);
    assert_eq!(i64::from(sp(-1)), -1);
    assert_eq!(i64::from(sp(255)), 0);
    assert_eq!(Subpixel::default(), sp(0));
}

#[test]
fn interpolator_walks_a_steep_line() {
    let mut li = BresehamInterpolator::new(sp(3 * 256), sp(7 * 256 + 100), sp(256), sp(0));
    assert!(li.ver);
    assert_eq!((li.len, li.inc), (7, -1));
    let mut dots = Vec::new();
    for _ in 0..li.len {
        dots.push((li.x2, li.y1));
        li.vstep();
    }
    assert_eq!(dots, vec![(3, 7), (2, 6), (2, 5), (2, 4), (1, 3), (1, 2), (1, 1)]);
}

#[test]
fn interpolator_walks_a_flat_line() {
    let mut li = BresehamInterpolator::new(sp(-2 * 256), sp(300), sp(2 * 256), sp(-300));
    assert!(!li.ver);
    assert_eq!((li.len, li.inc), (4, 1));
    let mut dots = Vec::new();
    for _ in 0..li.len {
        dots.push((li.x1, li.y2));
        li.hstep();
    }
    assert_eq!(dots, vec![(-2, 1), (-1, 0), (0, 0), (1, -1)]);
    assert_eq!(BresehamInterpolator::new(sp(5 * 256), sp(5 * 256), sp(5 * 256 + 255), sp(5 * 256 + 255)).len, 0);
}

#[test]
fn line_leaves_out_its_last_pixel() {
    let mut base = white(5, 3);
    {
        let mut ren = RendererOutline::with_base(&mut base);
        assert_eq!((ren.x, ren.y), (sp(0), sp(0)));
        assert_eq!(ren.line_color, Rgba8::black());
        ren.line_to_sp(sp(3 * 256 + 128), sp(256 + 200));
        assert_eq!((ren.x, ren.y), (sp(3 * 256 + 128), sp(256 + 200)));
    }
    assert_eq!(dark(&base), vec![(0, 0), (1, 0), (2, 1)]);
}

#[test]
fn line_within_one_pixel_draws_nothing() {
    let mut base = white(8, 8);
    {
        let mut ren = RendererOutline::with_base(&mut base);
        ren.line_sp(sp(5 * 256), sp(5 * 256), sp(5 * 256 + 255), sp(5 * 256 + 255));
        ren.move_to_sp(sp(256), sp(256));
        ren.line_to_sp(sp(256 + 7), sp(256 + 9));
    }
    assert!(dark(&base).is_empty());
}

#[test]
fn line_is_clipped_to_the_image() {
    let mut base = white(3, 3);
    {
        let mut ren = RendererOutline::with_base(&mut base);
        ren.line_sp(sp(-2 * 256), sp(300), sp(2 * 256), sp(-300));
        ren.line_sp(sp(3 * 256), sp(7 * 256 + 100), sp(256), sp(0));
    }
    assert_eq!(dark(&base), vec![(0, 0), (1, 1), (1, 2)]);
}

#[test]
fn line_color_is_blended() {
    let mut base = white(3, 1);
    {
        let mut ren: RendererPrimitives<Pixfmt<Rgb8>> = RendererOutline::with_base(&mut base);
        ren.line_color(Rgba8::new(0, 0, 0, 192));
        ren.fill_color(Rgb8::new(1, 2, 3));
        assert_eq!(ren.fill_color, Rgba8::new(1, 2, 3, 255));
        ren.line_sp(sp(0), sp(0), sp(2 * 256), sp(0));
        assert_eq!(ren.as_bytes(), &[63, 63, 63, 63, 63, 63, 255, 255, 255][..]);
    }
}

#[test]
fn triangle_outline() {
    let mut base = white(100, 100);
    {
        let mut ren = RendererOutline::with_base(&mut base);
        ren.line_color(Rgba8::black());
        let mut ras = RasterizerOutline::with_primitive(&mut ren);
        let path = vec![
            Vertex::move_to(10 * 256, 10 * 256),
            Vertex::line_to(50 * 256, 90 * 256),
            Vertex::line_to(90 * 256, 10 * 256),
            Vertex::close_polygon(0, 0),
        ];
        ras.add_path(&path);
        assert_eq!(ras.vertices, 0);
        assert_eq!((ras.start_x, ras.start_y), (sp(10 * 256), sp(10 * 256)));
    }
    let found = dark(&base);
    assert_eq!(found.len(), 240);
    for p in [(10, 10), (10, 11), (11, 12), (49, 89), (50, 90), (50, 89), (51, 88), (89, 11), (90, 10), (11, 10), (50, 10)] {
        assert!(found.contains(&p), "{:?}", p);
    }
    for p in [(9, 10), (91, 10), (50, 91), (50, 50), (12, 12)] {
        assert!(!found.contains(&p), "{:?}", p);
    }
}

#[test]
fn open_path_is_not_closed_with_two_vertices() {
    let mut base = white(6, 6);
    {
        let mut ren = RendererOutline::with_base(&mut base);
        let mut ras = RasterizerOutline::with_primitive(&mut ren);
        ras.move_to_sp(sp(256), sp(256));
        ras.line_to_sp(sp(4 * 256), sp(256));
        assert_eq!(ras.vertices, 2);
        ras.close();
        assert_eq!(ras.vertices, 0);
    }
    assert_eq!(dark(&base), vec![(1, 1), (2, 1), (3, 1)]);
    let mut base = white(6, 6);
    {
        let mut ren = RendererOutline::with_base(&mut base);
        let mut ras = RasterizerOutline::with_primitive(&mut ren);
        ras.add_path(&vec![
            Vertex::move_to(256, 256),
            Vertex::line_to(4 * 256, 256),
            Vertex::line_to(4 * 256, 4 * 256),
        ]);
        assert_eq!(ras.vertices, 3);
        ras.close();
    }
    assert_eq!(
        dark(&base),
        vec![(1, 1), (2, 1), (3, 1), (4, 1), (2, 2), (4, 2), (3, 3), (4, 3), (4, 4)]
    );
}
