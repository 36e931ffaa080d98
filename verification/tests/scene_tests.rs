use agrega::alphamask::AlphaMaskAdaptor;
use agrega::base::RenderingBase;
use agrega::buffer::RenderingBuffer;
use agrega::color::{Color, Gray8, Rgb8, Rgba8};
use agrega::outline::{RasterizerOutline, RendererPrimitives};
use agrega::paths::Vertex;
use agrega::pixel::{Pixel, PixelSource};
use agrega::pixfmt::Pixfmt;
use agrega::rast::RasterizerScanline;
use agrega::rend::{
    render_scanlines, Render, RenderingScanlineAASolid, RenderingScanlineBinSolid,
};
use agrega::util::lerp_u8;

/// The color of light of the wavelength `w`, in nanometres.
fn from_wavelength_gamma(w: f64, gamma: f64) -> Rgb8 {
    let (r, g, b) = if (380.0..=440.0).contains(&w) {
        (-1.0 * (w - 440.0) / (440.0 - 380.0), 0.0, 1.0)
    } else if (440.0..=490.0).contains(&w) {
        (0.0, (w - 440.0) / (490.0 - 440.0), 1.0)
    } else if (490.0..=510.0).contains(&w) {
        (0.0, 1.0, -1.0 * (w - 510.0) / (510.0 - 490.0))
    } else if (510.0..=580.0).contains(&w) {
        ((w - 510.0) / (580.0 - 510.0), 1.0, 0.0)
    } else if (580.0..=645.0).contains(&w) {
        (1.0, -1.0 * (w - 645.0) / (645.0 - 580.0), 0.0)
    } else if (645.0..=780.0).contains(&w) {
        (1.0, 0.0, 0.0)
    } else {
        (0., 0., 0.)
    };
    let scale = if w > 700.0 {
        0.3 + 0.7 * (780.0 - w) / (780.0 - 700.0)
    } else if w < 420.0 {
        0.3 + 0.7 * (w - 380.0) / (420.0 - 380.0)
    } else {
        1.0
    };
    let r = (r * scale).powf(gamma) * 255.0;
    let g = (g * scale).powf(gamma) * 255.0;
    let b = (b * scale).powf(gamma) * 255.0;
    Rgb8::new(r as u8, g as u8, b as u8)
}

fn spectrum(w: usize) -> Vec<Rgb8> {
    (0..w).map(|i| from_wavelength_gamma(380.0 + 400.0 * i as f64 / w as f64, 0.8)).collect()
}

/// A gray image whose rows grow lighter from the top to the bottom.
fn mask(w: usize, h: usize) -> Pixfmt<Gray8> {
    let mut data = Vec::with_capacity(w * h * 2);
    for i in 0..h {
        let v = (255 * i / h) as u8;
        for _ in 0..w {
            data.extend_from_slice(&Gray8::new(v).into_array2());
        }
    }
    Pixfmt { rbuf: RenderingBuffer::from_vec(data, w, h, 2), phantom: Default::default() }
}

/// What the triangle with the corners (10, 10), (50, 90) and (90, 10) leaves
/// of a white pixel: its edges rise two rows for each column, so in every
/// second row they cut a quarter off the pixel they start in, and in the rows
/// between they leave a quarter of the pixel they end in.
fn triangle_shade(x: usize, y: usize) -> u8 {
    if !(10..90).contains(&y) {
        return 255;
    }
    let k = y - 10;
    let (left, right) = (10 + k / 2, 89 - k / 2);
    let edge = if k % 2 == 0 { 255 - 192 } else { 255 - 64 };
    if x == left || x == right {
        edge
    } else if left < x && x < right {
        0
    } else {
        255
    }
}

fn triangle(ras: &mut RasterizerScanline) {
    ras.move_to(10 * 256, 10 * 256);
    ras.line_to(50 * 256, 90 * 256);
    ras.line_to(90 * 256, 10 * 256);
}

fn frame_and_diagonal(pix: &Pixfmt<Rgb8>) {
    let (w, h) = (pix.width(), pix.height());
    for y in 0..h {
        for x in 0..w {
            let expected = if x == 0 || y == 0 || x == w - 1 || y == h - 1 {
                Rgb8::black()
            } else if x == y && x < h / 2 {
                Rgb8::new(127, 200, 98)
            } else {
                Rgb8::white()
            };
            assert_eq!(pix.raw((x, y)), expected, "{} {}", x, y);
        }
    }
}

#[test]
fn t00_example() {
    let pix = Pixfmt::<Rgb8>::new(100, 100);
    let mut ren_base = RenderingBase::new(pix);
    ren_base.clear(Rgba8::white());
    let mut ras = RasterizerScanline::new();
    triangle(&mut ras);
    {
        let mut ren = RenderingScanlineAASolid::with_base(&mut ren_base);
        ren.color(Rgba8::black());
        render_scanlines(&mut ras, &mut ren);
    }
    for y in 0..100 {
        for x in 0..100 {
            let v = triangle_shade(x, y);
            assert_eq!(ren_base.pixf.raw((x, y)), Rgb8::new(v, v, v), "{} {}", x, y);
        }
    }
}

#[test]
fn t01_rendering_buffer() {
    let mut pix = Pixfmt::<Rgb8>::new(320, 220);
    for i in 0..pix.width() {
        for j in 0..pix.height() {
            pix.set((i, j), Rgb8::white());
        }
    }
    let (w, h) = (pix.width(), pix.height());
    for i in 0..h {
        pix.set((0, i), Rgb8::black());
        pix.set((w - 1, i), Rgb8::black());
    }
    for i in 0..w {
        pix.set((i, 0), Rgb8::black());
        pix.set((i, h - 1), Rgb8::black());
    }
    for i in 0..pix.height() / 2 {
        pix.set((i, i), Rgb8::new(127, 200, 98));
    }
    assert_eq!(pix.raw((0, 0)), Rgb8::new(127, 200, 98));
    pix.set((0, 0), Rgb8::black());
    frame_and_diagonal(&pix);
}

#[test]
fn t02_pixel_formats() {
    let mut pix = Pixfmt::<Rgb8>::new(320, 220);
    pix.clear();
    let (w, h) = (pix.width(), pix.height());
    let black = Rgb8::black();
    for i in 0..h {
        pix.copy_pixel(0, i, black);
        pix.copy_pixel(w - 1, i, black);
    }
    for &k in [0, h - 1].iter() {
        for i in 0..w {
            pix.copy_pixel(i, k, black);
        }
    }
    for i in 0..pix.height() / 2 {
        let c = Rgb8::new(127, 200, 98);
        pix.copy_pixel(i, i, c);
    }
    assert_eq!(pix.raw((0, 0)), Rgb8::new(127, 200, 98));
    pix.copy_pixel(0, 0, black);
    frame_and_diagonal(&pix);
}

#[test]
fn t03_solar_specturm() {
    let mut pix = Pixfmt::<Rgb8>::new(320, 200);
    pix.clear();
    let (w, h) = (pix.width(), pix.height());
    let black = Rgb8::black();
    pix.copy_hline(0, 0, w, black);
    pix.copy_hline(0, h - 1, w, black);
    pix.copy_vline(0, 0, h, black);
    pix.copy_vline(w - 1, 0, h, black);
    let span = spectrum(w);
    for i in 0..h {
        pix.blend_color_hspan(0, i as i64, w as i64, &span, &[], 255);
    }
    assert_eq!(span[0], Rgb8::new(97, 0, 97));
    assert_eq!(span[160], from_wavelength_gamma(580.0, 0.8));
    assert_eq!(span[160], Rgb8::new(255, 255, 0));
    for y in 0..h {
        for x in 0..w {
            assert_eq!(pix.raw((x, y)), span[x], "{} {}", x, y);
        }
    }
}

fn masked_spectrum(ground: Rgb8) {
    let mut pix = Pixfmt::<Rgb8>::new(320, 200);
    pix.clear();
    pix.fill(ground);
    let (w, h) = (pix.width(), pix.height());
    let alpha = mask(w, h);
    let span = spectrum(w);
    let mut mix = AlphaMaskAdaptor::new(pix, alpha);
    for i in 0..h {
        mix.blend_color_hspan(0, i, w, &span, 0);
    }
    for y in 0..h {
        let v = (255 * y / h) as u8;
        for x in 0..w {
            let c = span[x];
            let expected = Rgb8::new(
                lerp_u8(ground.r, c.r, v),
                lerp_u8(ground.g, c.g, v),
                lerp_u8(ground.b, c.b, v),
            );
            assert_eq!(mix.rgb.raw((x, y)), expected, "{} {}", x, y);
        }
    }
    assert_eq!(mix.rgb.raw((160, 0)), ground);
    assert_eq!(mix.alpha.raw((5, 100)), Gray8::new(127));
}

#[test]
fn t04_solar_spectrum_alpha() {
    masked_spectrum(Rgb8::white());
}

#[test]
fn t05_solar_spectrum_alpha() {
    masked_spectrum(Rgb8::black());
}

#[test]
fn t11_full() {
    let (w, h) = (100, 100);
    let pixf = Pixfmt::<Rgb8>::new(w, h);
    let mut ren_base = RenderingBase::new(pixf);
    ren_base.clear(Rgb8::white());
    {
        let mut ren = RenderingScanlineAASolid::with_base(&mut ren_base);
        ren.color(Rgb8::new(255, 0, 0));
        let mut ras = RasterizerScanline::new();
        triangle(&mut ras);
        render_scanlines(&mut ras, &mut ren);
    }
    for y in 0..h {
        for x in 0..w {
            let v = triangle_shade(x, y);
            assert_eq!(ren_base.pixf.raw((x, y)), Rgb8::new(255, v, v), "{} {}", x, y);
        }
    }
}

#[test]
fn t12_clip_box() {
    let (w, h) = (100, 100);
    let pixf = Pixfmt::<Rgb8>::new(w, h);
    let mut ren_base = RenderingBase::new(pixf);
    ren_base.clear(Rgb8::white());
    {
        let mut ren = RenderingScanlineAASolid::with_base(&mut ren_base);
        ren.color(Rgb8::new(255, 0, 0));
        let mut ras = RasterizerScanline::new();
        ras.clip_box(40 * 256, 0, (w as i64 - 40) * 256, h as i64 * 256);
        triangle(&mut ras);
        render_scanlines(&mut ras, &mut ren);
    }
    for y in 0..h {
        for x in 0..w {
            let v = if (40..60).contains(&x) { triangle_shade(x, y) } else { 255 };
            assert_eq!(ren_base.pixf.raw((x, y)), Rgb8::new(255, v, v), "{} {}", x, y);
        }
    }
}

#[test]
fn t13_aliased() {
    let (w, h) = (100, 100);
    let pixf = Pixfmt::<Rgb8>::new(w, h);
    let mut ren_base = RenderingBase::new(pixf);
    ren_base.clear(Rgba8::new(255, 255, 255, 255));
    {
        let mut ren = RenderingScanlineBinSolid::with_base(&mut ren_base);
        ren.color(Rgba8::new(255, 0, 0, 255));
        let mut ras = RasterizerScanline::new();
        ras.clip_box(40 * 256, 0, (w as i64 - 40) * 256, h as i64 * 256);
        triangle(&mut ras);
        render_scanlines(&mut ras, &mut ren);
    }
    for y in 0..h {
        for x in 0..w {
            let inside = (40..60).contains(&x) && triangle_shade(x, y) != 255;
            let v = if inside { 0 } else { 255 };
            assert_eq!(ren_base.pixf.raw((x, y)), Rgb8::new(255, v, v), "{} {}", x, y);
        }
    }
}

#[test]
fn t24_outline_basic_render() {
    let pix = Pixfmt::<Rgb8>::new(100, 100);
    let mut ren_base = RenderingBase::new(pix);
    ren_base.clear(Rgb8::white());
    {
        let mut ren = RendererPrimitives::with_base(&mut ren_base);
        ren.line_color(Rgb8::black());
        let path = vec![
            Vertex::move_to(10 * 256, 10 * 256),
            Vertex::line_to(50 * 256, 90 * 256),
            Vertex::line_to(90 * 256, 10 * 256),
        ];
        let mut ras = RasterizerOutline::with_primitive(&mut ren);
        ras.add_path(&path);
    }
    // Both lines rise two rows for each column: one pixel in every row.
    let mut expected = vec![Rgb8::white(); 100 * 100];
    for i in 0..80 {
        expected[(10 + i) * 100 + 10 + i / 2] = Rgb8::black();
        expected[(90 - i) * 100 + 50 + i / 2] = Rgb8::black();
    }
    for y in 0..100 {
        for x in 0..100 {
            assert_eq!(ren_base.pixf.raw((x, y)), expected[y * 100 + x], "{} {}", x, y);
        }
    }
    assert!(Rgb8::black().is_opaque());
    assert_eq!(ren_base.pixf.get((50, 90)), Rgba8::black());
}
