use agrega::scan::{ScanlineU8, Span};

fn spans(sl: &ScanlineU8) -> Vec<(i32, i32, Vec<u8>)> {
    sl.spans.iter().map(|s| (s.x, s.len, s.covers.clone())).collect()
}

#[test]
fn new_scanline_has_no_span() {
    let sl = ScanlineU8::new();
    assert_eq!(sl.num_spans(), 0);
    assert_eq!(sl.y, 0);
    assert_eq!(sl.min_x(), 0);
}

#[test]
fn cells_side_by_side_share_a_span() {
    let mut sl = ScanlineU8::new();
    sl.add_cell(5, 10);
    sl.add_cell(6, 20);
    sl.add_cell(7, 30);
    assert_eq!(spans(&sl), vec![(5, 3, vec![10, 20, 30])]);
    assert_eq!(sl.num_spans(), 1);
}

#[test]
fn a_gap_starts_a_new_span() {
    let mut sl = ScanlineU8::new();
    sl.add_cell(5, 10);
    sl.add_cell(7, 30);
    sl.add_cell(4, 40);
    sl.add_cell(5, 50);
    assert_eq!(
        spans(&sl),
        vec![(5, 1, vec![10]), (7, 1, vec![30]), (4, 2, vec![40, 50])]
    );
}

#[test]
fn runs_carry_one_cover_for_each_pixel() {
    let mut sl = ScanlineU8::new();
    sl.add_span(-3, 4, 200);
    assert_eq!(spans(&sl), vec![(-3, 4, vec![200; 4])]);
    sl.add_cell(1, 7);
    assert_eq!(spans(&sl), vec![(-3, 5, vec![200, 200, 200, 200, 7])]);
    sl.add_span(2, 2, 9);
    assert_eq!(spans(&sl), vec![(-3, 7, vec![200, 200, 200, 200, 7, 9, 9])]);
    sl.add_span(10, 1, 1);
    assert_eq!(sl.num_spans(), 2);
    assert_eq!(sl.spans[1], Span { x: 10, len: 1, covers: vec![1] });
}

#[test]
fn reset_sets_the_base_and_removes_the_spans() {
    let mut sl = ScanlineU8::new();
    sl.add_span(3, 2, 9);
    sl.reset(-100, 100);
    assert_eq!(sl.num_spans(), 0);
    assert_eq!(sl.min_x(), -100);
    sl.add_cell(-100, 1);
    sl.add_cell(-99, 2);
    assert_eq!(spans(&sl), vec![(-100, 2, vec![1, 2])]);
    sl.reset_spans();
    assert_eq!(sl.num_spans(), 0);
    assert_eq!(sl.min_x(), -100);
    sl.add_cell(4, 3);
    assert_eq!(spans(&sl), vec![(4, 1, vec![3])]);
}

#[test]
fn finalize_sets_the_row() {
    let mut sl = ScanlineU8::new();
    sl.add_cell(1, 1);
    sl.finalize(42);
    assert_eq!(sl.y, 42);
    assert_eq!(spans(&sl), vec![(1, 1, vec![1])]);
}

#[test]
fn first_pixel_at_the_largest_column_starts_a_span() {
    let mut sl = ScanlineU8::new();
    sl.reset(-0x80_0000, 0);
    sl.add_cell(0x7F_FFFF, 5);
    assert_eq!(spans(&sl), vec![(0x7F_FFFF, 1, vec![5])]);
}
