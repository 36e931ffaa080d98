use agrega::base::RenderingBase;
use agrega::color::{Rgb8, Rgba8};
use agrega::dist::DistanceInterpolator4;
use agrega::imageline::{colors_across, Across, LineInterpolatorImage, COLORS_LEN, DIST_LEN, MIDDLE};
use agrega::line::{LineInterpolator, LineParameters};
use agrega::pattern::LineImagePatternPow2;
use agrega::pixel::Pixel;
use agrega::pixfmt::Pixfmt;
use agrega::rend::PatternFilterBilinear;

fn pattern() -> LineImagePatternPow2 {
    let mut img = Pixfmt::<Rgba8>::new(4, 4);
    for y in 0..4 {
        for x in 0..4 {
            img.set((x, y), Rgba8::new(40 * y as u8 + 10, 7, x as u8, 255));
        }
    }
    let mut pat = LineImagePatternPow2::new(PatternFilterBilinear::new());
    pat.create(&img);
    pat
}

fn distances() -> Vec<i64> {
    let mut dist = vec![0x7FFF_0000; DIST_LEN];
    dist[0] = 0;
    dist[1] = 256;
    dist[2] = 512;
    dist
}

fn interpolator(lp: LineParameters, di: DistanceInterpolator4) -> LineInterpolatorImage {
    LineInterpolatorImage {
        lp,
        li: LineInterpolator { count: 1, left: 0, rem: 0, xmod: 0, y: 0 },
        di,
        x: lp.x1 >> 8,
        y: lp.y1 >> 8,
        old_x: lp.x1 >> 8,
        old_y: lp.y1 >> 8,
        count: 3,
        width: 300,
        max_extent: 2,
        start: 0,
        step: 0,
        dist_pos: distances(),
        colors: vec![Rgba8::black(); COLORS_LEN],
    }
}

fn still(dist_start: i64, dist_end: i64) -> DistanceInterpolator4 {
    DistanceInterpolator4 {
        dx: 0,
        dy: 0,
        dx_start: 0,
        dy_start: 0,
        dx_pict: 0,
        dy_pict: 0,
        dx_end: 0,
        dy_end: 0,
        dist: 0,
        dist_start,
        dist_pict: 0,
        dist_end,
        len: 2560,
    }
}

fn white(w: usize, h: usize) -> RenderingBase<Pixfmt<Rgb8>> {
    let mut pix = Pixfmt::<Rgb8>::new(w, h);
    pix.fill(Rgb8::white());
    RenderingBase::new(pix)
}

fn rgb(c: Rgba8) -> Rgb8 {
    Rgb8::new(c.r, c.g, c.b)
}

const NONE: Rgba8 = Rgba8 { r: 0, g: 0, b: 0, a: 0 };

#[test]
fn colors_are_read_on_both_sides_of_the_centre() {
    let pat = pattern();
    let a = Across {
        ds: -10,
        dp: 300,
        de: 10,
        ss: 4,
        sp: 256,
        se: -6,
        s1: 0,
        s2: 0,
        width: 600,
        negate: false,
        plus: true,
    };
    let mut colors = vec![Rgba8::white(); COLORS_LEN];
    let (p0, p1, npix) = colors_across(a, &pat, &distances(), &mut colors);
    // Two pixels on each side lie within the width; on the first side the
    // second one lies behind the end of the line, on the other side the line
    // that bounds the start stays behind all of them.
    assert_eq!((p0, p1, npix), (MIDDLE - 2, MIDDLE + 3, 4));
    assert_eq!(colors[MIDDLE], pat.pixel(300, 0));
    assert_eq!(colors[MIDDLE + 1], pat.pixel(556, 256));
    assert_eq!(colors[MIDDLE + 2], NONE);
    assert_eq!(colors[MIDDLE - 1], pat.pixel(44, -256));
    assert_eq!(colors[MIDDLE - 2], pat.pixel(-212, -512));
    assert_eq!(colors[MIDDLE - 3], Rgba8::white());
    assert_eq!(colors[MIDDLE + 3], Rgba8::white());
    assert_ne!(colors[MIDDLE + 1], colors[MIDDLE - 1]);
}

#[test]
fn centre_before_the_start_counts_but_takes_no_color() {
    let pat = pattern();
    let a = Across {
        ds: 5,
        dp: 0,
        de: 10,
        ss: 0,
        sp: 0,
        se: 0,
        s1: 100,
        s2: -100,
        width: 200,
        negate: true,
        plus: false,
    };
    let mut colors = vec![Rgba8::white(); COLORS_LEN];
    let (p0, p1, npix) = colors_across(a, &pat, &distances(), &mut colors);
    // 256 - 100 lies within the width and 256 + 100 does not.
    assert_eq!((p0, p1, npix), (MIDDLE, MIDDLE + 2, 1));
    assert_eq!(&colors[MIDDLE..MIDDLE + 2], &[NONE, NONE]);
}

#[test]
fn step_along_a_steep_line_blends_a_run_along_the_row() {
    let pat = pattern();
    let mut base = white(10, 10);
    let lp = LineParameters::new(5 * 256, 0, 5 * 256, 2560, 2560);
    assert!(lp.vertical);
    let mut li = interpolator(lp, still(-1000, 1000));
    assert!(li.vertical());
    assert!(li.step_ver(&pat, &mut base));
    assert_eq!((li.x, li.y, li.step), (5, 1, 1));
    // The line goes down, so the distances across it count downwards.
    let run = [pat.pixel(0, 256), pat.pixel(0, 0), pat.pixel(0, -256)];
    assert_eq!(&li.colors[MIDDLE - 1..MIDDLE + 2], &run);
    for x in 0..10 {
        for y in 0..10 {
            let expected =
                if y == 1 && (4..7).contains(&x) { rgb(run[x - 4]) } else { Rgb8::white() };
            assert_eq!(base.pixf.raw((x, y)), expected, "{} {}", x, y);
        }
    }
    assert_ne!(rgb(run[0]), rgb(run[2]));
    assert!(li.step_ver(&pat, &mut base));
    assert!(!li.step_ver(&pat, &mut base));
    assert_eq!((li.x, li.y, li.step), (5, 3, 3));
    assert_eq!(base.pixf.raw((5, 3)), rgb(run[1]));
}

#[test]
fn step_along_a_flat_line_blends_a_run_along_the_column() {
    let pat = pattern();
    let mut base = white(10, 10);
    let lp = LineParameters::new(2560, 5 * 256, 0, 5 * 256, 2560);
    assert!(!lp.vertical);
    let mut li = interpolator(lp, still(-1000, 1000));
    assert!(li.step_hor(&pat, &mut base));
    assert_eq!((li.x, li.y, li.step), (9, 5, 1));
    // The line goes to the left: the distances count upwards, and the first side
    // of a flat line reads the smaller rows of the pattern.
    let run = [pat.pixel(0, 256), pat.pixel(0, 0), pat.pixel(0, -256)];
    assert_eq!(&li.colors[MIDDLE - 1..MIDDLE + 2], &run);
    for x in 0..10 {
        for y in 0..10 {
            let expected =
                if x == 9 && (4..7).contains(&y) { rgb(run[y - 4]) } else { Rgb8::white() };
            assert_eq!(base.pixf.raw((x, y)), expected, "{} {}", x, y);
        }
    }
}

#[test]
fn line_ends_where_no_pixel_is_drawn() {
    let pat = pattern();
    let mut base = white(10, 10);
    let lp = LineParameters::new(5 * 256, 0, 5 * 256, 2560, 2560);
    let mut li = interpolator(lp, still(-1000, 0));
    assert!(!li.step_ver(&pat, &mut base));
    assert_eq!(li.step, 1);
    assert!(base.as_bytes().iter().all(|&b| b == 255));
    assert_eq!(&li.colors[MIDDLE - 1..MIDDLE + 2], &[NONE, NONE, NONE]);
}

#[test]
fn steep_line_backs_off_from_its_start() {
    let lp = LineParameters::new(0, 0, 1024, 2560, 2757);
    let di = DistanceInterpolator4::new(0, 0, 1024, 2560, -1536, 3584, 1536, -3584, 2757, 95, 238, 0, 0);
    assert_eq!((di.dist, di.dist_start, di.dist_pict, di.dist_end), (196608, 2560, 166, 26368));
    let li = LineInterpolatorImage::new(lp, di, 512, 0, 1024);
    assert_eq!(li.li, LineInterpolator { count: 2560, left: 102, rem: 1024, xmod: -512, y: -410 });
    assert_eq!((li.x, li.y, li.old_x, li.old_y), (-2, -4, -2, 0));
    assert_eq!((li.count, li.width, li.max_extent, li.start, li.step), (10, 512, 3, 5120, -7));
    assert_eq!(&li.dist_pos[..6], &[0, 238, 476, 713, 951, 1189]);
    assert_eq!(li.dist_pos[DIST_LEN - 1], 0x7FFF_0000);
    assert_eq!(li.dist_pos.len(), DIST_LEN);
    assert_eq!(li.colors, vec![Rgba8::black(); COLORS_LEN]);
    assert_eq!(
        (li.di.dist, li.di.dist_start, li.di.dist_pict, li.di.dist_end),
        (-65536, -10752, -976, 40704)
    );
    assert_eq!(li.di.len, 2757);
}

#[test]
fn flat_line_backs_off_from_its_start() {
    let lp = LineParameters::new(2560, 0, 0, 1024, 2757);
    assert!(!lp.vertical);
    let di =
        DistanceInterpolator4::new(2560, 0, 0, 1024, 3000, -1000, -500, 1500, 2757, -238, 95, 2560, 0);
    assert_eq!((di.dist, di.dist_start, di.dist_pict, di.dist_end), (458752, -720, -72, 3080));
    let li = LineInterpolatorImage::new(lp, di, 300, 77, 512);
    assert_eq!(li.li, LineInterpolator { count: 2561, left: 102, rem: 922, xmod: -1844, y: -307 });
    assert_eq!((li.x, li.y, li.old_x, li.old_y), (13, -2, 10, -2));
    assert_eq!((li.count, li.width, li.max_extent, li.start, li.step), (10, 300, 2, 2125, -5));
    // The table ends where a distance reaches the width and two pixels more.
    assert_eq!(&li.dist_pos[..6], &[0, 238, 476, 713, 951, 0]);
    assert_eq!(
        (li.di.dist, li.di.dist_start, li.di.dist_pict, li.di.dist_end),
        (-65536, -2880, -976, 3448)
    );
}
