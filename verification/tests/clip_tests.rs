use agrega::cell::RasterizerCell;
use agrega::clip::{div_round, mul_div, Clip, ClipSide, Rectangle};

fn cells(ras: &RasterizerCell) -> Vec<(i32, i32, i64, i64)> {
    (0..ras.total_cells()).map(|i| ras.cell(i)).map(|c| (c.x, c.y, c.cover, c.area)).collect()
}

fn bounds(ras: &RasterizerCell) -> (i32, i32, i32, i32) {
    (ras.min_x(), ras.max_x(), ras.min_y(), ras.max_y())
}

fn drawn(segments: &[(i64, i64, i64, i64)]) -> RasterizerCell {
    let mut ras = RasterizerCell::new();
    for &(x1, y1, x2, y2) in segments {
        ras.line(x1, y1, x2, y2);
    }
    ras
}

fn clipped(clip_box: (i64, i64, i64, i64), from: (i64, i64), to: (i64, i64)) -> RasterizerCell {
    let mut clip = Clip::new();
    clip.clip_box(clip_box.0, clip_box.1, clip_box.2, clip_box.3);
    let mut ras = RasterizerCell::new();
    clip.move_to(from.0, from.1);
    clip.line_to(&mut ras, to.0, to.1);
    ras
}

#[test]
fn mul_div_rounds_to_nearest_with_halves_away_from_zero() {
    assert_eq!(mul_div(7, 3, 2), 11);
    assert_eq!(mul_div(-7, 3, 2), -11);
    assert_eq!(mul_div(7, 3, -2), -11);
    assert_eq!(mul_div(-7, -3, -2), -11);
    assert_eq!(mul_div(1, 1, 2), 1);
    assert_eq!(mul_div(-1, 1, 2), -1);
    assert_eq!(mul_div(1, 1, 3), 0);
    assert_eq!(mul_div(2, 1, 3), 1);
    assert_eq!(mul_div(50 * 256, 60 * 256, 200 * 256), 3840);
    assert_eq!(mul_div(0, 5, 7), 0);
}

#[test]
fn mul_div_by_zero_and_out_of_range() {
    assert_eq!(mul_div(5, 0, 0), 0);
    assert_eq!(mul_div(5, 1, 0), i64::MAX);
    assert_eq!(mul_div(-5, 1, 0), i64::MIN);
    assert_eq!(mul_div(1 << 62, 4, 1), i64::MAX);
    assert_eq!(mul_div(-(1 << 62), 4, 1), i64::MIN);
    assert_eq!(mul_div(i64::MIN, i64::MIN, i64::MIN), i64::MIN);
    assert_eq!(mul_div(i64::MIN, 1, -1), i64::MAX);
    assert_eq!(mul_div(i64::MAX, i64::MAX, i64::MAX), i64::MAX);
}

#[test]
fn div_round_rounds_to_nearest() {
    assert_eq!(div_round(7, 2), 4);
    assert_eq!(div_round(-7, 2), -4);
    assert_eq!(div_round(7, -2), -4);
    assert_eq!(div_round(6, 4), 2);
    assert_eq!(div_round(5, 4), 1);
    assert_eq!(div_round(0, 0), 0);
    assert_eq!(div_round(1, 0), i64::MAX);
    assert_eq!(div_round(-1, 0), i64::MIN);
}

#[test]
fn clip_side_bits() {
    assert_eq!(ClipSide::Inside.bits(), ClipSide::INSIDE);
    assert_eq!(ClipSide::Left.bits(), ClipSide::LEFT);
    assert_eq!(ClipSide::Right.bits(), ClipSide::RIGHT);
    assert_eq!(ClipSide::Bottom.bits(), ClipSide::BOTTOM);
    assert_eq!(ClipSide::Top.bits(), ClipSide::TOP);
    assert_eq!(
        (ClipSide::INSIDE, ClipSide::LEFT, ClipSide::RIGHT, ClipSide::BOTTOM, ClipSide::TOP),
        (0, 1, 2, 4, 8)
    );
    assert_eq!(ClipSide::default(), ClipSide::Inside);
    assert_eq!(ClipSide::clip_flags_i64(-1, 11, 0, 0, 10, 10), 9);
}

#[test]
fn rectangle_sorts_its_bounds() {
    let r = Rectangle::new(10, 20, 0, 5);
    assert_eq!((r.x1(), r.y1(), r.x2(), r.y2()), (0, 5, 10, 20));
    let r = Rectangle::new(0, 20, 10, 5);
    assert_eq!((r.x1(), r.y1(), r.x2(), r.y2()), (0, 5, 10, 20));
    let r = Rectangle::new(0, 5, 10, 20);
    assert_eq!((r.x1(), r.y1(), r.x2(), r.y2()), (0, 5, 10, 20));
    let r = Rectangle::new(3, 8, 10, 2);
    assert_eq!((r.x1(), r.y1(), r.x2(), r.y2()), (3, 2, 10, 8));
}

#[test]
fn rectangle_flags() {
    let r = Rectangle::new(0, 0, 10, 10);
    assert_eq!(r.clip_flags(5, 5), 0);
    assert_eq!(r.clip_flags(0, 10), 0);
    assert_eq!(r.clip_flags(-1, 5), 1);
    assert_eq!(r.clip_flags(11, 5), 2);
    assert_eq!(r.clip_flags(5, -1), 4);
    assert_eq!(r.clip_flags(5, 11), 8);
    assert_eq!(r.clip_flags_i64(-1, -1), 5);
    assert_eq!(r.clip_flags_i64(11, -1), 6);
    assert_eq!(r.clip_flags_i64(-1, 11), 9);
    assert_eq!(r.clip_flags_i64(11, 11), 10);
}

#[test]
fn rectangle_expands() {
    let mut r = Rectangle::new(0, 0, 10, 10);
    r.expand(5, 5);
    assert_eq!(r, Rectangle::new(0, 0, 10, 10));
    r.expand(-3, 12);
    assert_eq!(r, Rectangle::new(-3, 0, 10, 12));
    r.expand(20, -7);
    assert_eq!(r, Rectangle::new(-3, -7, 20, 12));
    let mut r = Rectangle::new(0, 0, 10, 10);
    r.expand_rect(&Rectangle::new(5, -5, 15, 5));
    assert_eq!(r, Rectangle::new(0, -5, 15, 10));
}

#[test]
fn without_a_clip_box_lines_are_drawn_whole() {
    let mut clip = Clip::new();
    let mut ras = RasterizerCell::new();
    clip.move_to(10, 20);
    clip.line_to(&mut ras, 700, 900);
    clip.line_to(&mut ras, -300, -300);
    let plain = drawn(&[(10, 20, 700, 900), (700, 900, -300, -300)]);
    assert_eq!(cells(&ras), cells(&plain));
    assert_eq!(bounds(&ras), bounds(&plain));
    assert_eq!(Clip::default(), Clip::new());
}

#[test]
fn line_inside_the_box_is_drawn_as_without_a_box() {
    let ras = clipped((0, 0, 1000, 1000), (10, 20), (700, 900));
    let plain = drawn(&[(10, 20, 700, 900)]);
    assert_eq!(cells(&ras), cells(&plain));
    assert_eq!(bounds(&ras), bounds(&plain));
    let ras = clipped((10, 20, 700, 900), (10, 20), (700, 900));
    assert_eq!(cells(&ras), cells(&plain));
}

#[test]
fn horizontal_segment_across_the_box_is_cut_at_both_edges() {
    let ras = clipped((0, 0, 100, 100), (-50, 50), (150, 50));
    let plain = drawn(&[(0, 50, 100, 50)]);
    assert_eq!(cells(&ras), cells(&plain));
    assert_eq!(bounds(&ras), bounds(&plain));
    let ras = clipped((0, 0, 100 * 256, 100 * 256), (-50 * 256, 50 * 256), (150 * 256, 50 * 256));
    let plain = drawn(&[(0, 50 * 256, 100 * 256, 50 * 256)]);
    assert_eq!(cells(&ras), cells(&plain));
    assert_eq!(bounds(&ras), bounds(&plain));
}

#[test]
fn slanted_segment_across_the_box_is_drawn_in_three_parts() {
    let s = 256;
    let ras = clipped((0, 0, 100 * s, 100 * s), (-50 * s, 20 * s), (150 * s, 80 * s));
    let parts = drawn(&[
        (0, 20 * s, 0, 35 * s),
        (0, 35 * s, 100 * s, 65 * s),
        (100 * s, 65 * s, 100 * s, 80 * s),
    ]);
    assert_eq!(ras.total_cells(), 150);
    assert_eq!(cells(&ras), cells(&parts));
    let back = clipped((0, 0, 100 * s, 100 * s), (150 * s, 80 * s), (-50 * s, 20 * s));
    let parts = drawn(&[
        (100 * s, 80 * s, 100 * s, 65 * s),
        (100 * s, 65 * s, 0, 35 * s),
        (0, 35 * s, 0, 20 * s),
    ]);
    assert_eq!(cells(&back), cells(&parts));
}

#[test]
fn segment_leaving_or_entering_through_one_edge_is_drawn_in_two_parts() {
    let b = (0, 0, 1000, 1000);
    assert_eq!(
        cells(&clipped(b, (500, 100), (1500, 300))),
        cells(&drawn(&[(500, 100, 1000, 200), (1000, 200, 1000, 300)]))
    );
    assert_eq!(
        cells(&clipped(b, (1500, 300), (500, 100))),
        cells(&drawn(&[(1000, 300, 1000, 200), (1000, 200, 500, 100)]))
    );
    assert_eq!(
        cells(&clipped(b, (500, 100), (-500, 300))),
        cells(&drawn(&[(500, 100, 0, 200), (0, 200, 0, 300)]))
    );
    assert_eq!(
        cells(&clipped(b, (-500, 300), (500, 100))),
        cells(&drawn(&[(0, 300, 0, 200), (0, 200, 500, 100)]))
    );
}

#[test]
fn segment_through_top_and_bottom_is_cut_at_both() {
    let ras = clipped((0, 0, 1000, 1000), (500, -500), (600, 1500));
    assert_eq!(cells(&ras), cells(&drawn(&[(525, 0, 575, 1000)])));
    let ras = clipped((0, 0, 1000, 1000), (600, 1500), (500, -500));
    assert_eq!(cells(&ras), cells(&drawn(&[(575, 1000, 525, 0)])));
    let ras = clipped((0, 0, 1000, 1000), (500, 500), (600, 1500));
    assert_eq!(cells(&ras), cells(&drawn(&[(500, 500, 550, 1000)])));
    let ras = clipped((0, 0, 1000, 1000), (500, -500), (600, 500));
    assert_eq!(cells(&ras), cells(&drawn(&[(550, 0, 600, 500)])));
}

#[test]
fn segment_beside_the_box_adds_no_cell() {
    let ras = clipped((0, 0, 1000, 1000), (-500, 100), (-300, 400));
    assert!(cells(&ras).is_empty());
    let ras = clipped((0, 0, 1000, 1000), (1500, 400), (1300, 100));
    assert!(cells(&ras).is_empty());
    let ras = clipped((0, 0, 100, 100), (-50, 10), (-20, 90));
    assert_eq!(ras.total_cells(), 0);
    assert!(cells(&clipped((0, 0, 1000, 1000), (-1, -500), (-1, 1500))).is_empty());
    assert!(cells(&clipped((0, 0, 1000, 1000), (1001, 0), (5000, 1000))).is_empty());
}

#[test]
fn current_point_moves_past_a_segment_beside_the_box() {
    let mut clip = Clip::new();
    clip.clip_box(0, 0, 100, 100);
    clip.move_to(-50, 10);
    let mut ras = RasterizerCell::new();
    clip.line_to(&mut ras, -20, 90);
    assert_eq!(ras.total_cells(), 0);
    clip.line_to(&mut ras, -20, 10);
    assert_eq!(ras.total_cells(), 0);
    // The next line starts at (-20, 10): it passes the left edge at a height of 50.
    clip.line_to(&mut ras, 20, 90);
    assert_eq!(cells(&ras), cells(&drawn(&[(0, 10, 0, 50), (0, 50, 20, 90)])));
}

#[test]
fn segment_through_a_vertical_edge_is_drawn_along_it_outside() {
    let ras = clipped((0, 0, 1000, 1000), (-500, 100), (500, 300));
    assert_eq!(cells(&ras), cells(&drawn(&[(0, 100, 0, 200), (0, 200, 500, 300)])));
    let ras = clipped((0, 0, 1000, 1000), (500, 300), (1500, 100));
    assert_eq!(cells(&ras), cells(&drawn(&[(500, 300, 1000, 200), (1000, 200, 1000, 100)])));
}

#[test]
fn segment_above_or_below_the_box_adds_no_cell() {
    for &(from, to) in &[
        ((-500i64, -100i64), (1300i64, -400i64)),
        ((500, -1), (600, -1)),
        ((500, 1001), (-600, 5000)),
        ((-5, 2000), (2000, 1001)),
    ] {
        let ras = clipped((0, 0, 1000, 1000), from, to);
        assert_eq!(ras.total_cells(), 0);
        assert_eq!(bounds(&ras), (i32::MAX, i32::MIN, i32::MAX, i32::MIN));
    }
}

#[test]
fn current_point_moves_even_when_nothing_is_drawn() {
    let mut clip = Clip::new();
    clip.clip_box(0, 0, 1000, 1000);
    let mut ras = RasterizerCell::new();
    clip.move_to(500, -500);
    clip.line_to(&mut ras, 600, -100);
    assert_eq!(ras.total_cells(), 0);
    clip.line_to(&mut ras, 700, 300);
    assert_eq!(cells(&ras), cells(&drawn(&[(625, 0, 700, 300)])));
}

#[test]
fn clip_box_notes_the_flags_of_the_current_point() {
    let mut clip = Clip::new();
    clip.move_to(-500, 100);
    clip.clip_box(1000, 1000, 0, 0);
    let mut ras = RasterizerCell::new();
    clip.line_to(&mut ras, 500, 100);
    assert_eq!(cells(&ras), cells(&drawn(&[(0, 100, 0, 100), (0, 100, 500, 100)])));
    clip.line_to(&mut ras, 500, 600);
    assert_eq!(cells(&ras), cells(&drawn(&[(500, 100, 500, 600)])));
}
