use agrega::cell::RasterizerCell;
use agrega::rast::RasterizerScanline;
use std::collections::BTreeMap;

fn row_sums(ras: &RasterizerScanline) -> BTreeMap<i32, i64> {
    let mut rows = BTreeMap::new();
    for i in 0..ras.total_cells() {
        let c = ras.cell(i);
        *rows.entry(c.y).or_insert(0) += c.cover;
    }
    rows
}

fn polygon(ras: &mut RasterizerScanline, points: &[(i64, i64)]) {
    ras.move_to(points[0].0, points[0].1);
    for p in &points[1..] {
        ras.line_to(p.0, p.1);
    }
    ras.close_polygon();
}

#[test]
fn line_adds_its_height_to_the_covers() {
    for (x1, y1, x2, y2) in [
        (0i64, 0i64, 1000i64, 777i64),
        (1000, 777, 0, 0),
        (-300, 5000, 4000, -129),
        (10, 10, 10, 2000),
        (70000, 3, -70000, 90001),
        (5_000_000, 0, -5_000_000, 600),
        (0, 256, 5000, 256),
    ] {
        let mut cells = RasterizerCell::new();
        cells.line(x1, y1, x2, y2);
        let total: i64 = (0..cells.total_cells()).map(|i| cells.cell(i).cover).sum();
        assert_eq!(total, y2 - y1);
        for row in -2..400i64 {
            let inside = |v: i64| v.clamp(256 * row, 256 * row + 256);
            let sum: i64 = (0..cells.total_cells())
                .map(|i| cells.cell(i))
                .filter(|c| c.y as i64 == row)
                .map(|c| c.cover)
                .sum();
            assert_eq!(sum, inside(y2) - inside(y1), "row {}", row);
        }
    }
}

#[test]
fn closed_polygon_leaves_no_cover_in_any_row() {
    let mut ras = RasterizerScanline::new();
    polygon(&mut ras, &[(2560, 2560), (12800, 23040), (23040, 2560)]);
    polygon(&mut ras, &[(100, 37), (9000, 4411), (-513, 7000), (3000, 3000)]);
    let rows = row_sums(&ras);
    assert!(rows.len() > 80);
    assert!(rows.values().all(|&s| s == 0));
}

#[test]
fn clipped_polygon_leaves_no_cover_in_any_row() {
    let mut ras = RasterizerScanline::new();
    ras.clip_box(1000, 3000, 15000, 20000);
    polygon(&mut ras, &[(2560, 2560), (12800, 23040), (23040, 2560)]);
    polygon(&mut ras, &[(-5000, 100), (30000, 12000), (2000, 30000)]);
    let rows = row_sums(&ras);
    assert!(!rows.is_empty());
    assert!(rows.keys().all(|&y| (3000 >> 8) <= y && y <= (20000 >> 8)));
    assert!(rows.values().all(|&s| s == 0));
}

#[test]
fn edge_beside_the_box_adds_nothing_to_the_covers() {
    let mut ras = RasterizerScanline::new();
    ras.clip_box(1000, 3000, 15000, 20000);
    ras.move_to(500, 30000);
    ras.line_to(-5000, 100);
    assert_eq!(ras.total_cells(), 0);
    ras.line_to(2000, 10000);
    // Only the last line is drawn: it enters the box at a height of 8586.
    assert_eq!(row_sums(&ras).values().sum::<i64>(), 10000 - 3000);
}

#[test]
fn open_path_is_closed_before_the_sweep() {
    let mut ras = RasterizerScanline::new();
    ras.move_to(0, 0);
    ras.line_to(2560, 5120);
    ras.line_to(5120, 0);
    let open: i64 = row_sums(&ras).values().sum();
    assert_eq!(open, 0);
    let mut ras = RasterizerScanline::new();
    ras.move_to(0, 0);
    ras.line_to(2560, 5120);
    assert_eq!(row_sums(&ras).values().sum::<i64>(), 5120);
    assert!(ras.rewind_scanlines());
    assert!(row_sums(&ras).values().all(|&s| s == 0));
}

#[test]
fn clipped_lines_leave_cells_inside_the_box_only() {
    let mut ras = RasterizerScanline::new();
    ras.clip_box(1000, 3000, 15000, 20000);
    for (x1, y1, x2, y2) in [
        (-5000i64, 100i64, 30000i64, 12000i64),
        (30000, 12000, 500, 30000),
        (500, 30000, -5000, 100),
        (2000, 4000, 14000, 19000),
        (-100, -100, 40000, 40000),
        (16000, 0, 16000, 50000),
        (0, 2999, 20000, 3000),
    ] {
        ras.move_to(x1, y1);
        ras.line_to(x2, y2);
    }
    assert!(ras.total_cells() > 100);
    for i in 0..ras.total_cells() {
        let c = ras.cell(i);
        assert!((1000 >> 8) <= c.x && c.x <= (15000 >> 8), "{:?}", c);
        assert!((3000 >> 8) <= c.y && c.y <= (20000 >> 8), "{:?}", c);
    }
}
