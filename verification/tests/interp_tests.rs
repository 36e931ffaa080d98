use agrega::dist::{
    line_mr, DistanceInterpolator, DistanceInterpolator0, DistanceInterpolator00,
    DistanceInterpolator1, DistanceInterpolator2, DistanceInterpolator3, DistanceInterpolator4,
};
use agrega::line::{div_trunc, LineInterpolator, LineInterpolatorAA, LineParameters};
use agrega::util::POLY_SUBPIXEL_MASK;

#[test]
fn line_interpolator() {
    let mut lp = LineInterpolator::new(0 << 8, 10 << 8, 10 << 8);
    for i in 0..=10 {
        assert_eq!(lp.y, i);
        lp.inc();
    }
    let mut lp = LineInterpolator::new(0, 100, 2);
    for &i in [0, 50, 100, 150].iter() {
        assert_eq!(lp.y, i);
        lp.inc();
    }
    let mut lp = LineInterpolator::new(0, 10, 3);
    let y0 = vec![0, 3, 6, 10];
    let left0 = vec![3, 3, 3, 3];
    let xmod0 = vec![-2, -1, 0, -2];
    let rem0 = vec![1, 1, 1, 1];
    let mut left = vec![];
    let mut xmod = vec![];
    let mut rem = vec![];
    let mut y = vec![];
    for _ in 0..4 {
        left.push(lp.left());
        y.push(lp.y);
        xmod.push(lp.xmod());
        rem.push(lp.rem());
        lp.inc();
    }
    assert_eq!(left0, left);
    assert_eq!(xmod0, xmod);
    assert_eq!(rem0, rem);
    assert_eq!(y0, y);

    let mut lp = LineInterpolator::new(0, 10, 4);
    let y0 = vec![0, 2, 5, 7, 10];
    let left0 = vec![2, 2, 2, 2, 2];
    let xmod0 = vec![-2, 0, -2, 0, -2];
    let rem0 = vec![2, 2, 2, 2, 2];
    let mut left = vec![];
    let mut xmod = vec![];
    let mut rem = vec![];
    let mut y = vec![];
    for _ in 0..5 {
        left.push(lp.left());
        y.push(lp.y);
        xmod.push(lp.xmod());
        rem.push(lp.rem());
        lp.inc();
    }
    assert_eq!(left0, left);
    assert_eq!(xmod0, xmod);
    assert_eq!(rem0, rem);
    assert_eq!(y0, y);
}

#[test]
fn test_di1() {
    let mut d = DistanceInterpolator1::new(10, 10, 30, 10,
        10 & !POLY_SUBPIXEL_MASK, 10 & !POLY_SUBPIXEL_MASK);
    assert_eq!(d.dx, 20 << 8);
    assert_eq!(d.dy, 0 << 8);
    assert_eq!(d.dist, -2360);
    d.inc_x(1);
    assert_eq!(d.dist, -7480);
    d.inc_x(1);
    assert_eq!(d.dist, -12600);
    d.inc_x(1);
    assert_eq!(d.dist, -17720);

    let mut d =
        DistanceInterpolator1::new(0, 0, 30, 0, 0 & !POLY_SUBPIXEL_MASK, 0 & !POLY_SUBPIXEL_MASK);
    assert_eq!(d.dx, 7680); // 30 << 8
    assert_eq!(d.dy, 0); //  0 << 8
    assert_eq!(d.dist, -3840);
    d.inc_x(1);
    assert_eq!(d.dist, -11520);
    d.inc_x(2);
    assert_eq!(d.dist, -19200);
    d.inc_x(87);
    assert_eq!(d.dist, -26880);
}

#[test]
fn test_line_interpolator_aa() {
    let (x1, y1) = (0, 0);
    let (x2, y2) = (100, 50);
    let length = 100;
    let lp = LineParameters::new(x1, y1, x2, y2, length);
    let mut di = DistanceInterpolator1::new(lp.x1, lp.y1, lp.x2, lp.y2,
        lp.x1 & !POLY_SUBPIXEL_MASK, lp.y1 & !POLY_SUBPIXEL_MASK);
    let mut aa = LineInterpolatorAA::new(lp, 10 << 8);
    let v = aa.step_hor_base(&mut di);
    assert_eq!(v, 64);
    let v = aa.step_hor_base(&mut di);
    assert_eq!(v, 192);
    let v = aa.step_hor_base(&mut di);
    assert_eq!(v, 64);
    let v = aa.step_hor_base(&mut di);
    assert_eq!(v, 192);
}

#[test]
fn line_mr_rounds_down() {
    assert_eq!(line_mr(0), 0);
    assert_eq!(line_mr(15), 0);
    assert_eq!(line_mr(16), 1);
    assert_eq!(line_mr(-1), -1);
    assert_eq!(line_mr(-17), -2);
}

#[test]
fn div_trunc_rounds_towards_zero() {
    assert_eq!(div_trunc(7, 2), 3);
    assert_eq!(div_trunc(-7, 2), -3);
    assert_eq!(div_trunc(7, -2), -3);
    assert_eq!(div_trunc(-7, -2), 3);
    assert_eq!(div_trunc(i64::MIN, -2), 1 << 62);
    assert_eq!(div_trunc(i64::MIN, 1), i64::MIN);
}

#[test]
fn distance_interpolator_00_and_0() {
    let mut d = DistanceInterpolator00::new(0, 0, 256, 0, 0, 256, 0, 0);
    assert_eq!((d.dx1, d.dy1, d.dx2, d.dy2), (256, 0, 0, 256));
    assert_eq!(d.dist1, -8 * 16);
    assert_eq!(d.dist2, 8 * 16);
    d.inc_x();
    assert_eq!((d.dist1, d.dist2), (-128, 128 + 256));
    let mut d = DistanceInterpolator0::new(0, 0, 256, 512, 0, 0);
    assert_eq!((d.dx, d.dy), (256, 512));
    assert_eq!(d.dist, (8 - 16) * 32 - (8 - 32) * 16);
    d.inc_x();
    assert_eq!(d.dist, 128 + 512);
}

#[test]
fn distance_interpolator_1_moves() {
    let start = DistanceInterpolator1 { dx: 10, dy: 3, dist: 100 };
    let mut d = start;
    d.inc_x_by(1);
    assert_eq!(d.dist, 100 + 3 - 10);
    let mut d = start;
    d.inc_x_by(-1);
    assert_eq!(d.dist, 100 + 3 + 10);
    let mut d = start;
    d.inc_x_by(0);
    assert_eq!(d.dist, 103);
    let mut d = start;
    d.dec_x_by(1);
    assert_eq!(d.dist, 100 - 3 - 10);
    let mut d = start;
    d.dec_x_by(-5);
    assert_eq!(d.dist, 100 - 3 + 10);
    let mut d = start;
    d.inc_y_by(1);
    assert_eq!(d.dist, 100 - 10 + 3);
    let mut d = start;
    d.inc_y_by(-1);
    assert_eq!(d.dist, 100 - 10 - 3);
    let mut d = start;
    d.dec_y_by(1);
    assert_eq!(d.dist, 100 + 10 + 3);
    let mut d = start;
    d.dec_y_by(-1);
    assert_eq!(d.dist, 100 + 10 - 3);
    assert_eq!((start.dx(), start.dy()), (10, 3));
    assert_eq!(d.dist(), 107);
}

#[test]
fn distance_interpolator_2_3_4_move_all_distances() {
    let mut d = DistanceInterpolator2::new(0, 0, 512, 256, 16, 32, 0, 0, true);
    assert_eq!((d.dx, d.dy), (512 * 256, 256 * 256));
    assert_eq!((d.dx_start, d.dy_start), (16, 32));
    assert_eq!(d.dist, (128 - 512) * 256 - (128 - 256) * 512);
    assert_eq!(d.dist_start, (8 - 1) * 2 - (8 - 2) * 1);
    let before = d;
    d.inc_x(1);
    assert_eq!(d.dist, before.dist + before.dy - before.dx);
    assert_eq!(d.dist_start, before.dist_start + before.dy_start - before.dx_start);
    let e = DistanceInterpolator2::new(0, 0, 512, 256, 16, 32, 0, 0, false);
    assert_eq!((e.dx_start, e.dy_start), ((1 - 32) * 16, (2 - 16) * 16));

    let mut d = DistanceInterpolator3::new(0, 0, 512, 256, 16, 32, 528, 288, 0, 0);
    assert_eq!((d.dx_end, d.dy_end), (16, 32));
    assert_eq!(d.dist_end, (8 - 33) * 2 - (8 - 18) * 1);
    let before = d;
    d.dec_y(-1);
    assert_eq!(d.dist, before.dist + before.dx - before.dy);
    assert_eq!(d.dist_start, before.dist_start + before.dx_start - before.dy_start);
    assert_eq!(d.dist_end, before.dist_end + before.dx_end - before.dy_end);

    let mut d = DistanceInterpolator4 {
        dx: 1, dy: 2, dx_start: 3, dy_start: 4, dx_pict: 5, dy_pict: 6, dx_end: 7, dy_end: 8,
        dist: 10, dist_start: 20, dist_pict: 30, dist_end: 40, len: 9,
    };
    d.inc_y_by(1);
    assert_eq!((d.dist, d.dist_start, d.dist_pict, d.dist_end), (11, 21, 31, 41));
    d.dec_x_by(0);
    assert_eq!((d.dist, d.dist_start, d.dist_pict, d.dist_end), (9, 17, 25, 33));
    d.inc_x_by(-1);
    assert_eq!((d.dist, d.dist_start, d.dist_pict, d.dist_end), (12, 24, 36, 48));
    d.dec_y_by(1);
    assert_eq!((d.dist, d.dist_start, d.dist_pict, d.dist_end), (15, 31, 47, 63));
}

#[test]
fn line_parameters_octants() {
    let lp = LineParameters::new(0, 0, 100, 50, 112);
    assert_eq!((lp.dx, lp.dy, lp.sx, lp.sy, lp.vertical, lp.inc, lp.octant), (100, 50, 1, 1, false, 1, 0));
    assert_eq!(lp.diagonal_quadrant(), 0);
    let lp = LineParameters::new(0, 0, -10, 50, 51);
    assert_eq!((lp.dx, lp.dy, lp.sx, lp.sy, lp.vertical, lp.inc, lp.octant), (10, 50, -1, 1, true, 1, 3));
    assert_eq!(lp.diagonal_quadrant(), 1);
    let lp = LineParameters::new(0, 0, -100, -50, 112);
    assert_eq!(lp.octant, 6);
    assert_eq!(lp.diagonal_quadrant(), 2);
    let lp = LineParameters::new(0, 0, 10, -50, 51);
    assert_eq!(lp.octant, 5);
    assert_eq!(lp.diagonal_quadrant(), 3);
    let lp = LineParameters::new(5, 5, 5, 5, 0);
    assert_eq!((lp.sx, lp.sy, lp.vertical, lp.octant), (-1, -1, true, 7));
}

#[test]
fn line_parameters_divide_and_bisectrix() {
    let lp = LineParameters::new(0, 0, 101, -51, 113);
    let (a, b) = lp.divide();
    assert_eq!(a, LineParameters::new(0, 0, 50, -25, 56));
    assert_eq!(b, LineParameters::new(50, -25, 101, -51, 56));
    let lp = LineParameters::new(0, 0, 1000, 0, 1000);
    assert_eq!(lp.fix_degenerate_bisectrix_end(1000, 500), (1000, -1000));
    assert_eq!(lp.fix_degenerate_bisectrix_end(1000, -500), (1000, -500));
    assert_eq!(lp.fix_degenerate_bisectrix_start(0, -127), (0, -1000));
    assert_eq!(lp.fix_degenerate_bisectrix_start(0, -128), (0, -128));
}

#[test]
fn line_interpolator_back_and_forth() {
    let mut li = LineInterpolator::new(0, 10, 4);
    li.inc();
    li.inc();
    assert_eq!((li.y, li.xmod), (5, -2));
    li.dec();
    assert_eq!((li.y, li.xmod), (2, 0));
    li.dec();
    assert_eq!((li.y, li.xmod), (-1, 2));
    let li = LineInterpolator::new_back_adjusted_2(10, 4);
    assert_eq!((li.y, li.left, li.rem, li.xmod, li.count), (0, 2, 2, 2, 4));
    let mut li = LineInterpolator::new_foward_adjusted(0, 10, 4);
    assert_eq!((li.y, li.left, li.rem, li.xmod, li.count()), (0, 2, 2, -2, 4));
    li.adjust_forward();
    assert_eq!(li.xmod, -6);
    let li = LineInterpolator::new(0, -7, 3);
    assert_eq!((li.left, li.rem, li.xmod), (-3, 2, -1));
    let li = LineInterpolator::new(5, 9, 0);
    assert_eq!((li.y, li.left, li.rem, li.xmod, li.count), (5, 3, 0, 0, 1));
}

#[test]
fn line_interpolator_aa_tables() {
    let lp = LineParameters::new(0, 0, 100, 50, 100);
    let aa = LineInterpolatorAA::new(lp, 10 << 8);
    assert_eq!(aa.dist.len(), 65);
    assert_eq!(aa.dist[64], 0x7FFF_0000);
    assert_eq!(aa.covers, vec![0u64; 132]);
    assert_eq!((aa.x, aa.y, aa.old_x, aa.old_y, aa.count, aa.step), (0, 0, 0, 0, 0, 0));
    assert_eq!((aa.len, aa.width, aa.max_extent), (100, 2560, 10));
    assert_eq!(&aa.dist[0..5], &[0, 256, 512, 768, 1024]);
    assert_eq!(aa.dist[12], 3072);
    assert_eq!(aa.dist[13], 0);
    let lp = LineParameters::new(0, 0, 50, 100, 100);
    let aa = LineInterpolatorAA::new(lp, 256);
    assert_eq!(aa.len, -100);
    assert_eq!(&aa.dist[0..5], &[0, 256, 512, 768, 0]);
}

#[test]
fn distance_interpolator_with_a_pattern_starts_from_its_line() {
    let d = DistanceInterpolator4::new(0, 0, 1000, 500, -100, 50, 1100, 480, 1118, 229, 114, 0, 0);
    assert_eq!(
        d,
        DistanceInterpolator4 {
            dx: 256000,
            dy: 128000,
            dx_start: -112,
            dy_start: 48,
            dx_pict: -114,
            dy_pict: 229,
            dx_end: 96,
            dy_end: -16,
            dist: -64000,
            dist_start: 80,
            dist_pict: 171,
            dist_end: 192,
            len: 1118,
        }
    );
}
