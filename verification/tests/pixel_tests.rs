use agrega::base::RenderingBase;
use agrega::color::{Gray8, Rgb8, Rgba8, Rgba8pre};
use agrega::pixel::{Pixel, PixelSource};
use agrega::pixfmt::Pixfmt;
use agrega::rast::{FillingRule, RasterizerScanline};
use agrega::paths::Vertex;
use agrega::rend::{
    render_all_paths, render_scanline_aa_solid, render_scanline_bin_solid, render_scanlines,
    render_scanlines_aa_solid, render_scanlines_bin_solid, Render, RenderData,
    RenderingScanlineAASolid, RenderingScanlineBinSolid,
};
use agrega::scan::ScanlineU8;

fn rgb(pix: &Pixfmt<Rgb8>, x: usize, y: usize) -> [u8; 3] {
    pix.raw((x, y)).into_array3()
}

fn white(w: usize, h: usize) -> Pixfmt<Rgb8> {
    let mut pix = Pixfmt::<Rgb8>::new(w, h);
    pix.fill(Rgb8::white());
    pix
}

#[test]
fn new_image_is_zero_and_clear_is_255() {
    let mut pix = Pixfmt::<Rgb8>::new(3, 2);
    assert_eq!(pix.size(), 18);
    assert_eq!((pix.width(), pix.height()), (3, 2));
    assert_eq!(pix.as_bytes(), &[0u8; 18][..]);
    pix.clear();
    assert_eq!(pix.as_bytes(), &[255u8; 18][..]);
    assert_eq!(Pixfmt::<Rgba8>::new(3, 2).size(), 24);
    assert_eq!(Pixfmt::<Rgba8pre>::new(1, 1).as_bytes(), &[0u8; 4][..]);
    assert_eq!((Pixfmt::<Rgb8>::bpp(), Pixfmt::<Rgba8>::bpp(), Pixfmt::<Rgba8pre>::bpp()), (3, 4, 4));
    assert_eq!(Pixfmt::<Rgb8>::cover_mask(), 255);
}

#[test]
fn set_and_get_pixels() {
    let mut pix = Pixfmt::<Rgb8>::new(3, 2);
    pix.set((1, 1), Rgba8::new(10, 20, 30, 40));
    assert_eq!(rgb(&pix, 1, 1), [10, 20, 30]);
    assert_eq!(pix.get((1, 1)), Rgba8::new(10, 20, 30, 255));
    assert_eq!(&pix.as_bytes()[12..15], &[10, 20, 30]);
    assert_eq!(pix.as_bytes().iter().filter(|&&b| b != 0).count(), 3);
    let mut pix = Pixfmt::<Rgba8>::new(2, 2);
    pix.set((0, 1), Rgba8::new(10, 20, 30, 40));
    assert_eq!(pix.get((0, 1)), Rgba8::new(10, 20, 30, 40));
    assert_eq!(&pix.as_bytes()[8..12], &[10, 20, 30, 40]);
    pix.set((1, 0), Rgb8::new(1, 2, 3));
    assert_eq!(pix.get((1, 0)), Rgba8::new(1, 2, 3, 255));
    let mut pix = Pixfmt::<Rgba8pre>::new(2, 2);
    pix.set((1, 1), Rgba8pre::new(5, 6, 7, 8));
    assert_eq!(pix.get((1, 1)), Rgba8::new(5, 6, 7, 8));
}

#[test]
fn setn_and_fill() {
    let mut pix = Pixfmt::<Rgb8>::new(4, 2);
    pix.setn((1, 0), 3, Rgb8::new(1, 2, 3));
    assert_eq!(pix.as_bytes(), &[0, 0, 0, 1, 2, 3, 1, 2, 3, 1, 2, 3, 0, 0, 0, 0, 0, 0, 0, 0, 0, 0, 0, 0][..]);
    pix.fill(Rgb8::new(9, 8, 7));
    assert!(pix.as_bytes().chunks(3).all(|p| p == [9, 8, 7]));
    let mut pix = Pixfmt::<Rgba8pre>::new(2, 1);
    pix.setn((0, 0), 2, Rgba8pre::new(1, 2, 3, 4));
    assert_eq!(pix.as_bytes(), &[1, 2, 3, 4, 1, 2, 3, 4][..]);
    let mut pix = Pixfmt::<Rgba8>::new(2, 1);
    pix.fill(Rgba8::new(1, 2, 3, 4));
    assert_eq!(pix.as_bytes(), &[1, 2, 3, 4, 1, 2, 3, 4][..]);
    pix.setn((0, 0), 0, Rgba8::black());
    assert_eq!(pix.as_bytes(), &[1, 2, 3, 4, 1, 2, 3, 4][..]);
}

#[test]
fn blending_by_format() {
    let mut pix = white(2, 1);
    pix.blend_pix((0, 0), Rgb8::black(), 192);
    assert_eq!(rgb(&pix, 0, 0), [63, 63, 63]);
    assert_eq!(rgb(&pix, 1, 0), [255, 255, 255]);
    let mut pix = Pixfmt::<Rgb8>::new(1, 1);
    pix.set((0, 0), Rgb8::new(10, 20, 30));
    pix.blend_pix((0, 0), Rgba8::new(200, 100, 50, 128), 100);
    assert_eq!(rgb(&pix, 0, 0), [47, 36, 34]);
    assert_eq!(pix.over(Rgb8::new(10, 20, 30), Rgb8::new(200, 100, 50), 128, 255), Rgb8::new(105, 60, 40));
    assert_eq!(pix.over(Rgb8::new(10, 20, 30), Rgb8::new(200, 100, 50), 255, 256 + 7), Rgb8::new(15, 22, 31));

    let mut pix = Pixfmt::<Rgba8>::new(1, 1);
    pix.set((0, 0), Rgba8::new(10, 20, 30, 40));
    pix.blend_pix((0, 0), Rgba8::new(200, 100, 50, 128), 255);
    assert_eq!(pix.get((0, 0)), Rgba8::new(105, 60, 40, 148));
    pix.set((0, 0), Rgba8::new(10, 20, 30, 40));
    pix.blend_pix((0, 0), Rgba8::new(200, 100, 50, 128), 100);
    assert_eq!(pix.get((0, 0)), Rgba8::new(47, 36, 34, 82));
    assert_eq!(pix.over(Rgba8::white(), Rgba8::black(), 64), Rgba8::new(191, 191, 191, 255));

    let mut pix = Pixfmt::<Rgba8pre>::new(1, 1);
    pix.set((0, 0), Rgba8pre::new(10, 20, 30, 40));
    pix.blend_pix((0, 0), Rgba8pre::new(200, 100, 50, 128), 255);
    assert_eq!(pix.get((0, 0)), Rgba8::new(205, 110, 65, 148));
    pix.set((0, 0), Rgba8pre::new(10, 20, 30, 40));
    pix.blend_pix((0, 0), Rgba8pre::new(200, 100, 50, 128), 100);
    assert_eq!(pix.get((0, 0)), Rgba8::new(86, 55, 44, 82));
    assert_eq!(
        pix.over(Rgba8pre::new(0, 0, 0, 0), Rgba8pre::new(200, 100, 50, 255), 255, 255),
        Rgba8pre::new(200, 100, 50, 255)
    );
}

#[test]
fn gray_pixels() {
    let mut pix = Pixfmt::<Gray8> { rbuf: agrega::buffer::RenderingBuffer::from_vec(vec![100, 9, 7, 8], 2, 1, 2), phantom: Default::default() };
    assert_eq!(pix.raw((0, 0)), Gray8::new_with_alpha(100, 9));
    assert_eq!(pix.raw((1, 0)), Gray8::new_with_alpha(7, 8));
    assert_eq!(pix.over((0, 0), Gray8::new(200), 77), Gray8::new_with_alpha(130, 77));
}

#[test]
fn copy_or_blend_chooses_by_alpha_and_cover() {
    let mut pix = white(4, 1);
    pix.copy_or_blend_pix((0, 0), Rgba8::new(1, 2, 3, 0));
    pix.copy_or_blend_pix((1, 0), Rgba8::new(1, 2, 3, 255));
    pix.copy_or_blend_pix((2, 0), Rgba8::new(0, 0, 0, 192));
    pix.copy_or_blend_pix_with_cover((3, 0), Rgba8::new(0, 0, 0, 255), 192);
    assert_eq!(
        pix.as_bytes(),
        &[255, 255, 255, 1, 2, 3, 63, 63, 63, 63, 63, 63][..]
    );
    pix.copy_or_blend_pix_with_cover((0, 0), Rgba8::new(9, 9, 9, 255), 255);
    pix.copy_or_blend_pix_with_cover((1, 0), Rgba8::new(9, 9, 9, 0), 255);
    assert_eq!(&pix.as_bytes()[0..6], &[9, 9, 9, 1, 2, 3]);
}

#[test]
fn lines_and_spans_on_an_image() {
    let mut pix = white(4, 3);
    pix.blend_hline(1, 1, 2, Rgb8::black(), 255);
    assert_eq!(rgb(&pix, 0, 1), [255; 3]);
    assert_eq!(rgb(&pix, 1, 1), [0; 3]);
    assert_eq!(rgb(&pix, 2, 1), [0; 3]);
    assert_eq!(rgb(&pix, 3, 1), [255; 3]);
    pix.blend_hline(0, 0, 4, Rgb8::black(), 192);
    assert!((0..4).all(|x| rgb(&pix, x, 0) == [63; 3]));
    pix.blend_vline(3, 0, 3, Rgba8::new(0, 0, 0, 0), 255);
    assert_eq!(rgb(&pix, 3, 2), [255; 3]);
    pix.blend_vline(3, 1, 2, Rgb8::new(1, 2, 3), 255);
    assert_eq!(rgb(&pix, 3, 0), [63; 3]);
    assert_eq!(rgb(&pix, 3, 1), [1, 2, 3]);
    assert_eq!(rgb(&pix, 3, 2), [1, 2, 3]);
    let mut pix = white(4, 3);
    pix.blend_solid_hspan(1, 2, 3, Rgb8::black(), &[0, 192, 255]);
    assert_eq!(rgb(&pix, 1, 2), [255; 3]);
    assert_eq!(rgb(&pix, 2, 2), [63; 3]);
    assert_eq!(rgb(&pix, 3, 2), [0; 3]);
    pix.blend_solid_vspan(0, 0, 2, Rgb8::black(), &[192, 255]);
    assert_eq!(rgb(&pix, 0, 0), [63; 3]);
    assert_eq!(rgb(&pix, 0, 1), [0; 3]);
    assert_eq!(rgb(&pix, 0, 2), [255; 3]);
}

#[test]
fn color_spans() {
    let colors = [Rgba8::new(0, 0, 0, 255), Rgba8::new(0, 0, 0, 192), Rgba8::new(9, 9, 9, 0)];
    let mut pix = white(3, 3);
    pix.blend_color_hspan(0, 0, 3, &colors, &[], 255);
    assert_eq!(pix.as_bytes()[0..9], [0, 0, 0, 63, 63, 63, 255, 255, 255]);
    pix.blend_color_hspan(0, 1, 3, &colors, &[192, 255, 255], 0);
    assert_eq!(pix.as_bytes()[9..18], [63, 63, 63, 63, 63, 63, 255, 255, 255]);
    pix.blend_color_vspan(2, 0, 2, &colors[0..2], &[], 192);
    assert_eq!(rgb(&pix, 2, 0), [63; 3]);
    assert_eq!(rgb(&pix, 2, 1), [110; 3]);
    pix.blend_color_hspan(0, 0, 0, &colors[0..0], &[], 255);
}

#[test]
fn copies_are_clipped() {
    let mut pix = Pixfmt::<Rgb8>::new(3, 2);
    pix.copy_pixel(3, 0, Rgb8::white());
    pix.copy_pixel(0, 2, Rgb8::white());
    assert_eq!(pix.as_bytes(), &[0u8; 18][..]);
    pix.copy_pixel(2, 1, Rgb8::white());
    assert_eq!(rgb(&pix, 2, 1), [255; 3]);
    pix.copy_hline(1, 0, 10, Rgb8::new(1, 1, 1));
    assert_eq!(pix.as_bytes()[0..9], [0, 0, 0, 1, 1, 1, 1, 1, 1]);
    pix.copy_vline(0, 1, 10, Rgb8::new(2, 2, 2));
    assert_eq!(rgb(&pix, 0, 0), [0; 3]);
    assert_eq!(rgb(&pix, 0, 1), [2; 3]);
    pix.copy_hline(0, 5, 2, Rgb8::white());
    pix.copy_vline(5, 0, 2, Rgb8::white());
    pix.copy_hline(0, 0, 0, Rgb8::white());
    assert_eq!(rgb(&pix, 0, 0), [0; 3]);
}

#[test]
fn drop_alpha_keeps_the_colors() {
    let mut pix = Pixfmt::<Rgba8pre>::new(2, 1);
    pix.set((0, 0), Rgba8pre::new(1, 2, 3, 4));
    pix.set((1, 0), Rgba8pre::new(5, 6, 7, 8));
    let rgb = pix.drop_alpha();
    assert_eq!(rgb.as_bytes(), &[1, 2, 3, 5, 6, 7][..]);
    assert_eq!((rgb.width(), rgb.height()), (2, 1));
    assert_eq!(pix.clone().as_bytes(), pix.as_bytes());
}

#[test]
fn rendering_base_clips() {
    let mut base = RenderingBase::new(white(4, 3));
    assert_eq!(base.limits(), (0, 3, 0, 2));
    base.blend_hline(-5, 1, 1, Rgb8::black(), 255);
    assert_eq!(base.as_bytes()[12..24], [0, 0, 0, 0, 0, 0, 255, 255, 255, 255, 255, 255]);
    base.blend_hline(9, 0, 2, Rgb8::black(), 192);
    assert_eq!(base.as_bytes()[0..12], [255, 255, 255, 255, 255, 255, 63, 63, 63, 63, 63, 63]);
    base.blend_hline(0, 3, 3, Rgb8::black(), 255);
    base.blend_hline(0, -1, 3, Rgb8::black(), 255);
    base.blend_hline(4, 2, 9, Rgb8::black(), 255);
    base.blend_hline(-9, 2, -1, Rgb8::black(), 255);
    assert_eq!(base.as_bytes()[24..36], [255u8; 12]);
    base.blend_solid_hspan(-2, 2, 4, Rgb8::black(), &[255, 255, 192, 255, 7]);
    assert_eq!(base.as_bytes()[24..36], [63, 63, 63, 0, 0, 0, 255, 255, 255, 255, 255, 255]);
    base.blend_solid_hspan(2, 2, 4, Rgb8::black(), &[192, 255, 9, 9]);
    assert_eq!(base.as_bytes()[30..36], [63, 63, 63, 0, 0, 0]);
    base.blend_solid_hspan(4, 2, 2, Rgb8::black(), &[255, 255]);
    base.blend_solid_hspan(-4, 2, 4, Rgb8::black(), &[255; 4]);
    base.blend_solid_hspan(0, 5, 2, Rgb8::black(), &[255; 2]);
    assert_eq!(base.as_bytes()[24..30], [63, 63, 63, 0, 0, 0]);
    base.clear(Rgb8::white());
    base.blend_solid_vspan(1, -1, 5, Rgb8::black(), &[1, 192, 255, 192, 1]);
    assert_eq!((0..3).map(|y| base.pixf.raw((1, y)).r).collect::<Vec<_>>(), vec![63, 0, 63]);
    base.blend_solid_vspan(4, 0, 2, Rgb8::black(), &[255; 2]);
    assert_eq!(base.as_bytes().iter().filter(|&&b| b != 255).count(), 9);
}

#[test]
fn rendering_base_clips_color_spans_and_blends_images() {
    let colors = [Rgba8::new(0, 0, 0, 255), Rgba8::new(0, 0, 0, 192), Rgba8::new(9, 9, 9, 255)];
    let mut base = RenderingBase::new(white(2, 2));
    base.blend_color_hspan(-1, 0, 3, &colors, &[], 255);
    assert_eq!(base.as_bytes()[0..6], [63, 63, 63, 9, 9, 9]);
    base.blend_color_vspan(1, 1, 3, &colors, &[255, 255, 255], 0);
    assert_eq!(base.as_bytes()[6..12], [255, 255, 255, 0, 0, 0]);
    base.blend_color_hspan(0, 7, 3, &colors, &[], 255);
    base.blend_color_vspan(7, 0, 3, &colors, &[], 255);
    assert_eq!(base.as_bytes()[6..9], [255, 255, 255]);
    let mut other = Pixfmt::<Rgba8>::new(2, 2);
    other.fill(Rgba8::new(0, 0, 0, 255));
    let mut base = RenderingBase::new(white(2, 2));
    base.blend_from(&other, 192);
    assert_eq!(base.as_bytes(), &[63u8; 12][..]);
}

fn triangle(ras: &mut RasterizerScanline) {
    ras.move_to(10 * 256, 10 * 256);
    ras.line_to(50 * 256, 90 * 256);
    ras.line_to(90 * 256, 10 * 256);
}

#[test]
fn triangle_is_painted_black_on_white() {
    let mut base = RenderingBase::new(white(100, 100));
    let mut ras = RasterizerScanline::new();
    triangle(&mut ras);
    render_scanlines_aa_solid(&mut ras, &mut base, Rgb8::black());
    let px = |x: usize, y: usize| base.pixf.raw((x, y)).r;
    assert_eq!(px(50, 50), 0);
    assert_eq!(px(10, 10), 63);
    assert_eq!(px(11, 10), 0);
    assert_eq!(px(89, 10), 63);
    assert_eq!(px(9, 10), 255);
    assert_eq!(px(90, 10), 255);
    assert_eq!(px(50, 9), 255);
    assert_eq!(px(49, 89), 255 - 64);
    assert_eq!(px(50, 89), 255 - 64);
    assert_eq!(px(50, 90), 255);
    assert_eq!(px(30, 50), 63);
    let dark: u64 = (0..100).flat_map(|y| (0..100).map(move |x| (x, y))).map(|(x, y)| 255 - px(x, y) as u64).sum();
    assert!((dark as f64 / 255.0 - 3200.0).abs() <= 1.0);
    assert!(base.as_bytes().chunks(3).all(|p| p[0] == p[1] && p[1] == p[2]));
}

#[test]
fn all_renderers_paint_the_same_triangle() {
    let mut expected = RenderingBase::new(white(100, 100));
    let mut ras = RasterizerScanline::new();
    triangle(&mut ras);
    render_scanlines_aa_solid(&mut ras, &mut expected, Rgb8::black());

    let mut base = RenderingBase::new(white(100, 100));
    {
        let mut ren = RenderingScanlineAASolid::with_base(&mut base);
        ren.color(Rgba8::black());
        let mut ras = RasterizerScanline::new();
        triangle(&mut ras);
        render_scanlines(&mut ras, &mut ren);
        assert_eq!(ren.as_bytes(), expected.as_bytes());
    }
    assert_eq!(base.as_bytes(), expected.as_bytes());

    let mut by_rows = RenderingBase::new(white(100, 100));
    let mut ras = RasterizerScanline::new();
    triangle(&mut ras);
    let mut sl = ScanlineU8::new();
    assert!(ras.rewind_scanlines());
    sl.reset(ras.min_x(), ras.max_x());
    while ras.sweep_scanline(&mut sl) {
        render_scanline_aa_solid(&sl, &mut by_rows, Rgb8::black());
    }
    assert_eq!(by_rows.as_bytes(), expected.as_bytes());
}

#[test]
fn bin_renderer_covers_fully() {
    let mut base = RenderingBase::new(white(100, 100));
    let mut ras = RasterizerScanline::new();
    triangle(&mut ras);
    render_scanlines_bin_solid(&mut ras, &mut base, Rgb8::black());
    let px = |x: usize, y: usize| base.pixf.raw((x, y)).r;
    assert_eq!(px(10, 10), 0);
    assert_eq!(px(89, 10), 0);
    assert_eq!(px(9, 10), 255);
    assert_eq!(px(49, 89), 0);
    assert_eq!(px(48, 89), 255);
    assert!(base.as_bytes().iter().all(|&b| b == 0 || b == 255));

    let mut other = RenderingBase::new(white(100, 100));
    {
        let mut ren = RenderingScanlineBinSolid::with_base(&mut other);
        let mut ras = RasterizerScanline::new();
        triangle(&mut ras);
        render_scanlines(&mut ras, &mut ren);
    }
    assert_eq!(other.as_bytes(), base.as_bytes());

    let mut sl = ScanlineU8::new();
    sl.add_span(1, 2, 7);
    sl.finalize(0);
    let mut small = RenderingBase::new(white(4, 1));
    render_scanline_bin_solid(&sl, &mut small, Rgba8::new(0, 0, 0, 192));
    assert_eq!(small.as_bytes(), &[255, 255, 255, 63, 63, 63, 63, 63, 63, 255, 255, 255][..]);
}

#[test]
fn rendering_follows_rule_and_clip_box() {
    let paint = |rule: FillingRule, clip: bool| {
        let mut base = RenderingBase::new(white(10, 10));
        let mut ras = RasterizerScanline::new();
        ras.set_filling_rule(rule);
        if clip {
            ras.clip_box(0, 0, 7 * 256, 10 * 256);
        }
        for (a, b) in [(0i64, 8i64), (2, 6)] {
            ras.move_to(a * 256, a * 256);
            ras.line_to(b * 256, a * 256);
            ras.line_to(b * 256, b * 256);
            ras.line_to(a * 256, b * 256);
            ras.close_polygon();
        }
        render_scanlines_aa_solid(&mut ras, &mut base, Rgb8::black());
        (0..10).map(|x| base.pixf.raw((x, 3)).r).collect::<Vec<_>>()
    };
    assert_eq!(paint(FillingRule::NonZero, false), vec![0, 0, 0, 0, 0, 0, 0, 0, 255, 255]);
    assert_eq!(paint(FillingRule::EvenOdd, false), vec![0, 0, 255, 255, 255, 255, 0, 0, 255, 255]);
    // The right edge of the outer square lies beside the box and is left out.
    assert_eq!(paint(FillingRule::NonZero, true), vec![0, 0, 0, 0, 0, 0, 255, 255, 255, 255]);
    assert_eq!(paint(FillingRule::EvenOdd, true), vec![0, 0, 255, 255, 255, 255, 255, 255, 255, 255]);
}

#[test]
fn empty_rasterizer_paints_nothing() {
    let mut base = RenderingBase::new(white(4, 4));
    let mut ras = RasterizerScanline::new();
    render_scanlines_aa_solid(&mut ras, &mut base, Rgb8::black());
    ras.move_to(0, 256);
    ras.line_to(1024, 256);
    render_scanlines_bin_solid(&mut ras, &mut base, Rgb8::black());
    assert_eq!(base.as_bytes(), &[255u8; 48][..]);
    let mut data = RenderData::new();
    data.sl.add_cell(1, 255);
    let mut ren = RenderingScanlineAASolid::with_base(&mut base);
    ren.prepare();
    ren.render(&data);
    assert_eq!(&ren.as_bytes()[0..9], &[255, 255, 255, 0, 0, 0, 255, 255, 255]);
}

#[test]
fn paths_are_rendered_each_in_its_color() {
    let square = |a: i64, b: i64| {
        vec![
            Vertex::move_to(a * 256, a * 256),
            Vertex::line_to(b * 256, a * 256),
            Vertex::line_to(b * 256, b * 256),
            Vertex::line_to(a * 256, b * 256),
            Vertex::close_polygon(0, 0),
        ]
    };
    let paths = vec![square(1, 6), square(4, 8), Vec::new()];
    let colors = vec![Rgba8::new(200, 0, 0, 255), Rgba8::new(0, 0, 100, 128), Rgba8::black()];
    let mut base = RenderingBase::new(white(10, 10));
    {
        let mut ren = RenderingScanlineAASolid::with_base(&mut base);
        let mut ras = RasterizerScanline::new();
        render_all_paths(&mut ras, &mut ren, &paths, &colors);
        assert_eq!(ren.color, Rgba8::black());
        assert_eq!(ras.total_cells(), 0);
    }
    let mut expected = RenderingBase::new(white(10, 10));
    for (path, color) in paths.iter().zip(colors.iter()) {
        let mut ras = RasterizerScanline::new();
        ras.add_path(path);
        render_scanlines_aa_solid(&mut ras, &mut expected, *color);
    }
    assert_eq!(base.as_bytes(), expected.as_bytes());
    assert_eq!(rgb(&base.pixf, 0, 0), [255, 255, 255]);
    assert_eq!(rgb(&base.pixf, 2, 2), [200, 0, 0]);
    assert_eq!(rgb(&base.pixf, 5, 5), [100, 0, 50]);
    assert_eq!(rgb(&base.pixf, 7, 7), [127, 127, 177]);
    assert_eq!(rgb(&base.pixf, 8, 8), [255, 255, 255]);
}
