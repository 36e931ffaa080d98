use agrega::cell::{coord_in_range, Cell, RasterizerCell};

fn cells(ras: &RasterizerCell) -> Vec<(i32, i32, i64, i64)> {
    (0..ras.total_cells()).map(|i| ras.cell(i)).map(|c| (c.x, c.y, c.cover, c.area)).collect()
}

fn drawn(segments: &[(i64, i64, i64, i64)]) -> RasterizerCell {
    let mut ras = RasterizerCell::new();
    for &(x1, y1, x2, y2) in segments {
        ras.line(x1, y1, x2, y2);
    }
    ras
}

#[test]
fn new_store_is_empty() {
    let ras = RasterizerCell::new();
    assert_eq!(ras.total_cells(), 0);
    assert_eq!((ras.min_x(), ras.max_x()), (i32::MAX, i32::MIN));
    assert_eq!((ras.min_y(), ras.max_y()), (i32::MAX, i32::MIN));
    assert!(!ras.is_sorted());
}

#[test]
fn cell_basics() {
    let c = Cell::new();
    assert_eq!(c, Cell { x: i32::MAX, y: i32::MAX, cover: 0, area: 0 });
    let c = Cell::at(3, -4);
    assert_eq!(c, Cell { x: 3, y: -4, cover: 0, area: 0 });
    assert!(c.equal(3, -4) && !c.equal(3, 4) && !c.equal(2, -4));
    assert!(c.is_empty() && c.can_take_more());
    assert!(!Cell { x: 0, y: 0, cover: 0, area: 1 }.is_empty());
    assert!(!Cell { x: 0, y: 0, cover: -1, area: 0 }.is_empty());
    assert!(Cell { x: 0, y: 0, cover: 0x10_0000 - 256, area: 0 }.can_take_more());
    assert!(!Cell { x: 0, y: 0, cover: 0x10_0000 - 255, area: 0 }.can_take_more());
    assert!(!Cell { x: 0, y: 0, cover: 0, area: -(0x2000_0000 - 131071) }.can_take_more());
}

#[test]
fn coord_range_is_that_of_32_bits() {
    assert!(coord_in_range(0));
    assert!(coord_in_range(i32::MAX as i64) && coord_in_range(i32::MIN as i64));
    assert!(!coord_in_range(i32::MAX as i64 + 1) && !coord_in_range(i32::MIN as i64 - 1));
}

#[test]
fn slanted_line_adds_cover_and_area_to_each_pixel() {
    let ras = drawn(&[(10, 20, 700, 900)]);
    assert_eq!(
        cells(&ras),
        vec![
            (0, 0, 236, 48380),
            (0, 1, 78, 35178),
            (1, 1, 178, 24742),
            (1, 2, 149, 58855),
            (2, 2, 107, 8988),
            (2, 3, 132, 35904),
        ]
    );
    assert_eq!((ras.min_x(), ras.max_x(), ras.min_y(), ras.max_y()), (0, 2, 0, 3));
}

#[test]
fn reversed_line_adds_the_opposite() {
    let ras = drawn(&[(700, 900, 10, 20)]);
    assert_eq!(
        cells(&ras),
        vec![
            (2, 3, -132, -35904),
            (2, 2, -107, -8988),
            (1, 2, -149, -58855),
            (1, 1, -178, -24742),
            (0, 1, -78, -35178),
            (0, 0, -236, -48380),
        ]
    );
}

#[test]
fn line_and_its_reverse_cancel_in_every_pixel() {
    let ras = drawn(&[(10, 20, 700, 900), (700, 900, 10, 20)]);
    let mut sums = std::collections::BTreeMap::new();
    for (x, y, cover, area) in cells(&ras) {
        let e = sums.entry((x, y)).or_insert((0i64, 0i64));
        e.0 += cover;
        e.1 += area;
    }
    assert!(sums.values().all(|&(c, a)| c == 0 && a == 0));
}

#[test]
fn vertical_line_fills_one_column() {
    let ras = drawn(&[(100, 100, 100, 700)]);
    assert_eq!(cells(&ras), vec![(0, 0, 156, 31200), (0, 1, 256, 51200), (0, 2, 188, 37600)]);
}

#[test]
fn horizontal_line_adds_no_cell_but_widens_the_bounds() {
    let ras = drawn(&[(100, 100, 900, 100)]);
    assert_eq!(ras.total_cells(), 0);
    assert_eq!((ras.min_x(), ras.max_x(), ras.min_y(), ras.max_y()), (0, 3, 0, 0));
}

#[test]
fn horizontal_line_leaves_earlier_cells_alone() {
    let mut ras = drawn(&[(100, 100, 100, 700)]);
    let before = cells(&ras);
    ras.line(100, 700, 900, 700);
    assert_eq!(cells(&ras), before);
    ras.line(900, 700, 100, 700);
    assert_eq!(cells(&ras), before);
}

#[test]
fn shallow_line_visits_every_column_of_its_row() {
    let ras = drawn(&[(0, 0, 1024, 256)]);
    assert_eq!(
        cells(&ras),
        vec![(0, 0, 64, 16384), (1, 0, 64, 16384), (2, 0, 64, 16384), (3, 0, 64, 16384)]
    );
}

#[test]
fn negative_coordinates_round_down() {
    let ras = drawn(&[(-300, -300, 300, 300)]);
    assert_eq!(
        cells(&ras),
        vec![(-2, -2, 44, 20592), (-1, -1, 256, 65536), (0, 0, 256, 65536), (1, 1, 44, 1936)]
    );
    assert_eq!((ras.min_x(), ras.max_x(), ras.min_y(), ras.max_y()), (-2, 1, -2, 1));
}

#[test]
fn long_line_is_drawn_once_in_two_halves() {
    let ras = drawn(&[(0, 0, 0x40_0000, 256)]);
    let all = cells(&ras);
    assert_eq!(all.len(), 256);
    assert_eq!(&all[0..2], &[(63, 0, 1, 256), (127, 0, 1, 256)]);
    assert_eq!(&all[254..256], &[(16319, 0, 1, 256), (16383, 0, 1, 256)]);
    assert_eq!(all.iter().map(|c| c.2).sum::<i64>(), 256);
    let halves = drawn(&[(0, 0, 0x20_0000, 128), (0x20_0000, 128, 0x40_0000, 256)]);
    assert_eq!(cells(&halves), all);
}

#[test]
fn cover_of_a_line_adds_up_to_its_height() {
    for &(x1, y1, x2, y2) in
        &[(10i64, 20i64, 700i64, 900i64), (5000, 3, -7000, 12345), (-3, 900, 2, -900), (0, 0, 1, 1)]
    {
        let ras = drawn(&[(x1, y1, x2, y2)]);
        let all = cells(&ras);
        assert_eq!(all.iter().map(|c| c.2).sum::<i64>(), y2 - y1);
        let double_area: i64 = all.iter().map(|c| c.3 + 512 * c.0 as i64 * c.2).sum();
        assert!((double_area - (x1 + x2) * (y2 - y1)).abs() <= 2 * (y2 - y1).abs());
    }
}

#[test]
fn full_cell_is_not_used_again() {
    let mut ras = RasterizerCell::new();
    for _ in 0..4096 {
        ras.line(0, 0, 0, 256);
    }
    assert_eq!(cells(&ras), vec![(0, 0, 4096 * 256, 0)]);
    ras.line(0, 0, 0, 256);
    assert_eq!(cells(&ras), vec![(0, 0, 4096 * 256, 0), (0, 0, 256, 0)]);
}

#[test]
fn sort_cells_orders_rows_by_column_and_keeps_equal_columns_in_order() {
    let mut ras = drawn(&[
        (3 * 256, 0, 3 * 256, 512),
        (256, 512, 256, 0),
        (3 * 256 + 10, 0, 3 * 256 + 10, 256),
        (0, -256, 0, -1),
    ]);
    assert_eq!(
        cells(&ras),
        vec![
            (3, 0, 256, 0),
            (3, 1, 256, 0),
            (1, 1, -256, 0),
            (1, 0, -256, 0),
            (3, 0, 256, 5120),
            (0, -1, 255, 0),
        ]
    );
    ras.sort_cells();
    assert!(ras.is_sorted());
    assert_eq!(ras.total_cells(), 6);
    assert_eq!(ras.scanline_num_cells(0), 3);
    assert_eq!(
        ras.scanline_cells(0).clone(),
        vec![
            Cell { x: 1, y: 0, cover: -256, area: 0 },
            Cell { x: 3, y: 0, cover: 256, area: 0 },
            Cell { x: 3, y: 0, cover: 256, area: 5120 },
        ]
    );
    assert_eq!(
        ras.scanline_cells(1).clone(),
        vec![
            Cell { x: 1, y: 1, cover: -256, area: 0 },
            Cell { x: 3, y: 1, cover: 256, area: 0 },
        ]
    );
    assert_eq!(ras.scanline_num_cells(2), 0);
}

#[test]
fn sort_cells_does_nothing_without_rows_from_zero_on_or_when_sorted() {
    let mut ras = drawn(&[(0, -512, 0, -256)]);
    ras.sort_cells();
    assert!(!ras.is_sorted());
    let mut ras = drawn(&[(0, 0, 0, 256)]);
    ras.sort_cells();
    ras.line(256, 256, 256, 512);
    ras.sort_cells();
    assert_eq!(ras.scanline_num_cells(0), 1);
    assert_eq!(ras.total_cells(), 2);
}

#[test]
fn reset_removes_everything() {
    let mut ras = drawn(&[(10, 20, 700, 900)]);
    ras.sort_cells();
    ras.reset();
    assert_eq!(ras.total_cells(), 0);
    assert!(!ras.is_sorted());
    assert_eq!((ras.min_x(), ras.max_x(), ras.min_y(), ras.max_y()), (i32::MAX, i32::MIN, i32::MAX, i32::MIN));
}

#[test]
fn set_curr_cell_starts_a_cell_and_drops_a_blank_one() {
    let mut ras = drawn(&[(0, 0, 300, 300)]);
    let n = ras.total_cells();
    ras.set_curr_cell(0, 0);
    assert_eq!(ras.total_cells(), n + 1);
    assert_eq!(ras.cell(n), Cell::at(0, 0));
    ras.set_curr_cell(1, 1);
    assert_eq!(ras.total_cells(), n + 1);
    assert_eq!(ras.cell(n), Cell::at(1, 1));
    ras.set_curr_cell(1, 1);
    assert_eq!(ras.total_cells(), n + 1);
}

#[test]
fn default_store_is_empty() {
    let cells = RasterizerCell::default();
    assert_eq!(cells.total_cells(), 0);
    assert_eq!((cells.min_x(), cells.max_x()), (i32::MAX, i32::MIN));
    assert_eq!((cells.min_y(), cells.max_y()), (i32::MAX, i32::MIN));
    assert!(!cells.is_sorted());
    assert!(cells.can_sweep());
}
