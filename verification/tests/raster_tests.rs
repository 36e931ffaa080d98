use agrega::paths::{PathCommand, Vertex};
use agrega::rast::{FillingRule, PathStatus, RasterizerScanline};
use agrega::scan::ScanlineU8;

const S: i64 = 256;

type Row = (i32, Vec<(i32, Vec<u8>)>);

fn polygon(ras: &mut RasterizerScanline, points: &[(i64, i64)]) {
    ras.move_to(points[0].0, points[0].1);
    for p in &points[1..] {
        ras.line_to(p.0, p.1);
    }
}

fn sweep(ras: &mut RasterizerScanline) -> Vec<Row> {
    let mut rows = Vec::new();
    let mut sl = ScanlineU8::new();
    if ras.rewind_scanlines() {
        sl.reset(ras.min_x(), ras.max_x());
        while ras.sweep_scanline(&mut sl) {
            assert_eq!(sl.num_spans(), sl.spans.len());
            for s in &sl.spans {
                assert_eq!(s.len as usize, s.covers.len());
            }
            rows.push((sl.y, sl.spans.iter().map(|s| (s.x, s.covers.clone())).collect()));
        }
    }
    rows
}

fn rows_of(points: &[(i64, i64)], rule: FillingRule) -> Vec<Row> {
    let mut ras = RasterizerScanline::new();
    ras.set_filling_rule(rule);
    polygon(&mut ras, points);
    sweep(&mut ras)
}

fn alpha_sum(rows: &[Row]) -> f64 {
    let total: u64 =
        rows.iter().flat_map(|r| r.1.iter()).flat_map(|s| s.1.iter()).map(|&a| a as u64).sum();
    total as f64 / 255.0
}

fn area(points: &[(i64, i64)]) -> f64 {
    let n = points.len();
    let mut twice = 0i64;
    for i in 0..n {
        let (x1, y1) = points[i];
        let (x2, y2) = points[(i + 1) % n];
        twice += x1 * y2 - x2 * y1;
    }
    twice.abs() as f64 / 2.0 / 65536.0
}

fn edge_distance(px: f64, py: f64, a: (f64, f64), b: (f64, f64)) -> f64 {
    ((b.0 - a.0) * (a.1 - py) - (a.0 - px) * (b.1 - a.1)).abs() / (b.0 - a.0).hypot(b.1 - a.1)
}

const TRIANGLE: [(i64, i64); 3] = [(10 * S, 10 * S), (50 * S, 90 * S), (90 * S, 10 * S)];

const CONVEX: [&[(i64, i64)]; 4] = [
    &TRIANGLE,
    &[(300, 200), (5000, 900), (7000, 6000), (2500, 7400), (100, 3000)],
    &[(1000, 1000), (1300, 1000), (1300, 1300), (1000, 1300)],
    &[(0, 0), (25600, 1), (25600, 25600)],
];

#[test]
fn triangle_has_a_row_for_every_y_and_is_symmetric() {
    let rows = rows_of(&TRIANGLE, FillingRule::NonZero);
    assert_eq!(rows.len(), 80);
    for (i, (y, spans)) in rows.iter().enumerate() {
        assert_eq!(*y, 10 + i as i32);
        assert!(!spans.is_empty());
        let left = spans[0].0;
        let last = spans.last().unwrap();
        let right = last.0 + last.1.len() as i32 - 1;
        assert!((left + right - 100).abs() <= 1, "row {y}: {left}..{right}");
        for (x, covers) in spans {
            for (k, &a) in covers.iter().enumerate() {
                let px = (x + k as i32) as f64 + 0.5;
                let py = *y as f64 + 0.5;
                let depth = edge_distance(px, py, (10.0, 10.0), (50.0, 90.0))
                    .min(edge_distance(px, py, (50.0, 90.0), (90.0, 10.0)))
                    .min(edge_distance(px, py, (90.0, 10.0), (10.0, 10.0)));
                if depth >= 1.0 + 0.7072 {
                    assert_eq!(a, 255, "pixel {px},{py}");
                }
            }
        }
    }
    assert_eq!(rows[0], (10, vec![(10, {
        let mut v = vec![255u8; 80];
        v[0] = 192;
        v[79] = 192;
        v
    })]));
    assert_eq!(rows[40].1[0].0, 30);
    assert_eq!(rows[40].1[0].1.len(), 40);
    assert_eq!(&rows[40].1[0].1[0..3], &[192, 255, 255]);
    assert_eq!(rows[79], (89, vec![(49, vec![64, 64])]));
}

#[test]
fn alpha_adds_up_to_the_area_of_a_convex_polygon() {
    for points in CONVEX {
        let rows = rows_of(points, FillingRule::NonZero);
        assert!((alpha_sum(&rows) - area(points)).abs() <= 1.0);
    }
    assert_eq!(rows_of(CONVEX[2], FillingRule::NonZero).len(), 3);
    assert_eq!(rows_of(CONVEX[1], FillingRule::NonZero).len(), 29);
}

#[test]
fn both_rules_agree_on_simple_polygons() {
    for points in CONVEX {
        assert_eq!(rows_of(points, FillingRule::NonZero), rows_of(points, FillingRule::EvenOdd));
    }
    let concave = [(0, 0), (10 * S, 0), (10 * S, 10 * S), (5 * S, 3 * S), (0, 10 * S)];
    let rows = rows_of(&concave, FillingRule::NonZero);
    assert_eq!(rows, rows_of(&concave, FillingRule::EvenOdd));
    assert_eq!(rows[5], (5, vec![(0, vec![255, 255, 253, 59]), (6, vec![59, 253, 255, 255])]));
    assert!((alpha_sum(&rows) - 65.0).abs() <= 1.0);
}

#[test]
fn rules_differ_where_a_path_winds_twice() {
    let nested = |rule| {
        let mut ras = RasterizerScanline::new();
        ras.set_filling_rule(rule);
        for (a, b) in [(0, 8), (2, 6)] {
            polygon(&mut ras, &[(a * S, a * S), (b * S, a * S), (b * S, b * S), (a * S, b * S)]);
            ras.close_polygon();
        }
        sweep(&mut ras)
    };
    let non_zero = nested(FillingRule::NonZero);
    let even_odd = nested(FillingRule::EvenOdd);
    assert_eq!(non_zero[3], (3, vec![(0, vec![255; 8])]));
    assert_eq!(even_odd[3], (3, vec![(0, vec![255; 2]), (6, vec![255; 2])]));
    assert_eq!(non_zero[0], even_odd[0]);
}

#[test]
fn clip_box_around_a_polygon_changes_nothing() {
    for points in CONVEX {
        let mut ras = RasterizerScanline::new();
        ras.clip_box(-100 * S, -100 * S, 200 * S, 200 * S);
        polygon(&mut ras, points);
        assert_eq!(sweep(&mut ras), rows_of(points, FillingRule::NonZero));
    }
}

#[test]
fn clip_box_cuts_a_polygon() {
    let mut ras = RasterizerScanline::new();
    ras.clip_box(20 * S, 20 * S, 60 * S, 30 * S);
    polygon(&mut ras, &TRIANGLE);
    let rows = sweep(&mut ras);
    assert_eq!(rows.len(), 10);
    let whole = rows_of(&TRIANGLE, FillingRule::NonZero);
    for (i, (y, spans)) in rows.iter().enumerate() {
        assert_eq!(*y, 20 + i as i32);
        assert_eq!(spans.len(), 1);
        let (x, covers) = &spans[0];
        let (wx, wcovers) = &whole[10 + i].1[0];
        assert_eq!(*x, 20.max(*wx));
        assert_eq!(*x + covers.len() as i32, 60);
        let skip = (*x - *wx) as usize;
        assert_eq!(&covers[..], &wcovers[skip..skip + covers.len()]);
    }
}

#[test]
fn edge_beside_the_clip_box_is_left_out() {
    // The right edge of the triangle lies wholly right of the box and draws
    // nothing: the cover that enters at the left edge of the box is not closed,
    // and no row has a span.
    let mut ras = RasterizerScanline::new();
    ras.clip_box(20 * S, 20 * S, 40 * S, 30 * S);
    polygon(&mut ras, &TRIANGLE);
    assert!(ras.total_cells() > 0);
    assert!((0..ras.total_cells()).all(|i| ras.cell(i).x == 20 && ras.cell(i).area == 0));
    assert!(sweep(&mut ras).is_empty());
}

#[test]
fn flat_line_has_no_row() {
    let mut ras = RasterizerScanline::new();
    polygon(&mut ras, &[(0, 100), (900, 100)]);
    assert!(!ras.rewind_scanlines());
    assert_eq!(ras.total_cells(), 0);
    let mut sl = ScanlineU8::new();
    assert!(!ras.sweep_scanline(&mut sl));
    assert_eq!(sl.num_spans(), 0);
    assert_eq!(rows_of(&[(-5 * S, 7 * S), (300 * S, 7 * S)], FillingRule::EvenOdd), vec![]);
}

#[test]
fn open_line_is_closed_and_covers_nothing() {
    let mut ras = RasterizerScanline::new();
    polygon(&mut ras, &[(0, 0), (S, 3 * S)]);
    assert_eq!(ras.total_cells(), 3);
    assert!(ras.rewind_scanlines());
    assert_eq!(ras.total_cells(), 6);
    assert_eq!(ras.cell(3).cover, -256);
    assert_eq!(sweep(&mut ras), vec![]);
}

#[test]
fn empty_rasterizer_has_nothing_to_sweep() {
    let mut ras = RasterizerScanline::new();
    assert!(!ras.rewind_scanlines());
    let mut sl = ScanlineU8::new();
    assert!(!ras.sweep_scanline(&mut sl));
    assert_eq!((ras.min_x(), ras.max_x()), (i32::MAX, i32::MIN));
    let mut ras = RasterizerScanline::default();
    assert!(!ras.rewind_scanlines());
}

#[test]
fn square_between_pixel_centres() {
    let h = S / 2;
    let points = [(h, h), (2 * S + h, h), (2 * S + h, 2 * S + h), (h, 2 * S + h)];
    assert_eq!(
        rows_of(&points, FillingRule::NonZero),
        vec![
            (0, vec![(0, vec![64, 128, 64])]),
            (1, vec![(0, vec![128, 255, 128])]),
            (2, vec![(0, vec![64, 128, 64])]),
        ]
    );
}

#[test]
fn gamma_table_maps_every_alpha() {
    let h = S / 2;
    let points = [(h, h), (2 * S + h, h), (2 * S + h, 2 * S + h), (h, 2 * S + h)];
    let mut ras = RasterizerScanline::with_gamma((0..=255u8).map(|i| i / 2).collect());
    polygon(&mut ras, &points);
    assert_eq!(
        sweep(&mut ras),
        vec![
            (0, vec![(0, vec![32, 64, 32])]),
            (1, vec![(0, vec![64, 127, 64])]),
            (2, vec![(0, vec![32, 64, 32])]),
        ]
    );
    let mut ras = RasterizerScanline::new();
    ras.gamma((0..=255u8).map(|i| 255 - i).collect());
    polygon(&mut ras, &points);
    assert_eq!(
        sweep(&mut ras),
        vec![
            (0, vec![(0, vec![191, 127, 191])]),
            (1, vec![(0, vec![127]), (2, vec![127])]),
            (2, vec![(0, vec![191, 127, 191])]),
        ]
    );
}

#[test]
fn calculate_alpha_by_rule() {
    let mut ras = RasterizerScanline::new();
    let cases: [(i64, u8, u8); 13] = [
        (0, 0, 0),
        (511, 0, 0),
        (512, 1, 1),
        (130560, 255, 255),
        (131072, 255, 255),
        (153600, 255, 212),
        (-153600, 255, 212),
        (262144, 255, 0),
        (307200, 255, 88),
        (-1, 1, 1),
        (-512, 1, 1),
        (131583, 255, 255),
        (131584, 255, 255),
    ];
    for (area, non_zero, even_odd) in cases {
        ras.set_filling_rule(FillingRule::NonZero);
        assert_eq!(ras.calculate_alpha(area), non_zero, "non-zero {area}");
        ras.set_filling_rule(FillingRule::EvenOdd);
        assert_eq!(ras.calculate_alpha(area), even_odd, "even-odd {area}");
    }
    assert_eq!(ras.calculate_alpha(i64::MIN), 0);
    ras.set_filling_rule(FillingRule::NonZero);
    assert_eq!(ras.calculate_alpha(i64::MIN), 255);
    assert_eq!(ras.calculate_alpha(i64::MAX), 255);
}

#[test]
fn rows_below_zero_are_passed_over() {
    let rows = rows_of(&[(0, -2 * S), (2 * S, -2 * S), (2 * S, 2 * S), (0, 2 * S)], FillingRule::NonZero);
    assert_eq!(rows, vec![(0, vec![(0, vec![255, 255])]), (1, vec![(0, vec![255, 255])])]);
}

#[test]
fn separate_shapes_give_separate_spans() {
    let mut ras = RasterizerScanline::new();
    for a in [0, 5] {
        polygon(&mut ras, &[(a * S, 0), ((a + 2) * S, 0), ((a + 2) * S, S), (a * S, S)]);
        ras.close_polygon();
    }
    assert_eq!(sweep(&mut ras), vec![(0, vec![(0, vec![255, 255]), (5, vec![255, 255])])]);
}

#[test]
fn add_path_follows_the_commands() {
    let path = vec![
        Vertex::move_to(10 * S, 10 * S),
        Vertex::line_to(50 * S, 90 * S),
        Vertex::line_to(90 * S, 10 * S),
        Vertex::close_polygon(0, 0),
    ];
    let mut ras = RasterizerScanline::new();
    ras.add_path(&path);
    let rows = sweep(&mut ras);
    assert_eq!(rows, rows_of(&TRIANGLE, FillingRule::NonZero));
    ras.add_path(&path);
    assert_eq!(ras.total_cells(), 160);
    assert_eq!(sweep(&mut ras), rows);
    assert_eq!(Vertex::new(1i64, 2, PathCommand::LineTo), Vertex::line_to(1, 2));
    assert_eq!(Vertex::xy(1i64, 2).cmd, PathCommand::Stop);
    assert_eq!(PathCommand::default(), PathCommand::MoveTo);
}

#[test]
fn reset_starts_over() {
    let mut ras = RasterizerScanline::new();
    polygon(&mut ras, &TRIANGLE);
    assert_eq!((ras.min_x(), ras.max_x()), (10, 90));
    assert_eq!(sweep(&mut ras).len(), 80);
    ras.reset();
    assert_eq!(ras.total_cells(), 0);
    assert_eq!(sweep(&mut ras), vec![]);
    polygon(&mut ras, &CONVEX[2]);
    assert_eq!(sweep(&mut ras).len(), 3);
    assert_eq!(PathStatus::default(), PathStatus::Initial);
    assert_eq!(FillingRule::default(), FillingRule::NonZero);
}

#[test]
fn close_polygon_draws_back_to_the_start_once() {
    let mut ras = RasterizerScanline::new();
    ras.close_polygon();
    assert_eq!(ras.total_cells(), 0);
    ras.move_to(0, 0);
    ras.close_polygon();
    assert_eq!(ras.total_cells(), 0);
    ras.line_to(0, 3 * S);
    assert_eq!(ras.total_cells(), 3);
    ras.close_polygon();
    assert_eq!(ras.total_cells(), 6);
    ras.close_polygon();
    assert_eq!(ras.total_cells(), 6);
}
