use agrega::buffer::RenderingBuffer;
use agrega::clip::Rectangle;
use agrega::gradient::GradientX;
use agrega::outline::Subpixel;
use agrega::paths::PathCommand::{Close, LineTo, MoveTo, Stop};
use agrega::paths::{PathCommand, PathOrientation, Vertex};
use agrega::rend::{clip_line_segment, BresehamInterpolator, PatternFilterBilinear, RenderData};
use agrega::text::{XAlign, YAlign};

#[test]
fn rendering_buffer_holds_the_bytes_of_its_pixels() {
    let mut buf = RenderingBuffer::new(3, 2, 4);
    assert_eq!(buf.len(), 24);
    assert_eq!((buf.width, buf.height, buf.bpp), (3, 2, 4));
    assert!(buf.data.iter().all(|&b| b == 0));
    buf.clear();
    assert_eq!(buf.data, vec![255u8; 24]);
    assert_eq!(buf.offset(0, 0), 0);
    assert_eq!(buf.offset(2, 0), 8);
    assert_eq!(buf.offset(1, 1), 16);
    let buf = RenderingBuffer::from_vec(vec![1, 2, 3, 4, 5, 6], 2, 1, 3);
    assert_eq!(buf.len(), 6);
    assert_eq!(buf.offset(1, 0), 3);
    assert_eq!(RenderingBuffer::new(0, 5, 3).len(), 0);
}

#[test]
fn subpixel_converts_to_whole_pixels() {
    let s = Subpixel::from(700);
    assert_eq!(s.value(), 700);
    assert_eq!(i64::from(s), 2);
    assert_eq!(i64::from(Subpixel::from(-1)), -1);
    assert_eq!(i64::from(Subpixel::from(-257)), -2);
    assert_eq!(Subpixel::default(), Subpixel(0));
}

#[test]
fn gradient_x_is_the_column() {
    assert_eq!(GradientX {}.calculate(7, 9, 11), 7);
    assert_eq!(GradientX {}.calculate(-3, 0, 0), -3);
}

#[test]
fn alignments_compare() {
    assert_ne!(XAlign::Left, XAlign::Right);
    assert_eq!(XAlign::Center, XAlign::Center);
    assert_ne!(YAlign::Top, YAlign::Bottom);
    assert_eq!(YAlign::Center, YAlign::Center);
    assert_ne!(PathOrientation::Clockwise, PathOrientation::CounterClockwise);
}

#[test]
fn render_data_starts_empty() {
    let data = RenderData::new();
    assert_eq!(data.sl.num_spans(), 0);
    assert_eq!(RenderData::default(), data);
    assert_eq!(PatternFilterBilinear::new().dilation(), 1);
}

fn path(cmds: &[PathCommand]) -> Vec<Vertex<i64>> {
    cmds.iter().map(|&c| Vertex::new(0, 0, c)).collect()
}

#[test]
fn split_finds_the_sub_paths() {
    assert_eq!(Vertex::split(&path(&[])), vec![]);
    assert_eq!(Vertex::split(&path(&[MoveTo])), vec![]);
    assert_eq!(Vertex::split(&path(&[LineTo, LineTo, Close])), vec![]);
    assert_eq!(Vertex::split(&path(&[MoveTo, LineTo])), vec![(0, 1)]);
    assert_eq!(Vertex::split(&path(&[MoveTo, LineTo, LineTo, Close])), vec![(0, 3)]);
    assert_eq!(
        Vertex::split(&path(&[MoveTo, LineTo, LineTo, MoveTo, LineTo, Close, MoveTo])),
        vec![(0, 2), (3, 5)]
    );
    assert_eq!(
        Vertex::split(&path(&[LineTo, MoveTo, MoveTo, Stop, MoveTo, MoveTo, Close, LineTo])),
        vec![(2, 3), (5, 7)]
    );
    assert_eq!(Vertex::split(&path(&[MoveTo, Stop, Stop])), vec![(0, 2)]);
}

#[test]
fn breseham_steps_on_whole_pixels() {
    let s = |v: i64| Subpixel::from(v * 256);
    let mut b = BresehamInterpolator::new(s(0), s(0), s(10), s(4));
    assert_eq!((b.x1, b.y1, b.x2, b.y2, b.ver, b.len, b.inc), (0, 0, 0, 0, false, 10, 1));
    let mut ys = vec![];
    for _ in 0..10 {
        b.hstep();
        ys.push((b.x1, b.y2));
    }
    assert_eq!(
        ys,
        vec![(1, 0), (2, 0), (3, 1), (4, 1), (5, 2), (6, 2), (7, 2), (8, 3), (9, 3), (10, 4)]
    );
    let mut b = BresehamInterpolator::new(s(5), s(9), s(3), s(1));
    assert_eq!((b.x1, b.y1, b.ver, b.len, b.inc), (5, 9, true, 8, -1));
    assert_eq!((b.x2, b.y2), (5, 5));
    let mut xs = vec![];
    for _ in 0..8 {
        b.vstep();
        xs.push((b.x2, b.y1));
    }
    assert_eq!(xs, vec![(4, 8), (4, 7), (4, 6), (4, 5), (3, 4), (3, 3), (3, 2), (3, 1)]);
}

#[test]
fn clip_line_segment_flags_and_points() {
    let b = Rectangle::new(0, 0, 1000, 1000);
    assert_eq!(clip_line_segment(10, 20, 700, 900, b), (10, 20, 700, 900, 0));
    assert_eq!(clip_line_segment(-10, 20, -700, 900, b), (-10, 20, -700, 900, 4));
    assert_eq!(clip_line_segment(10, 1020, 700, 1900, b), (10, 1020, 700, 1900, 4));
    assert_eq!(clip_line_segment(-500, 100, 500, 300, b), (-500, 200, 500, 300, 1));
    assert_eq!(clip_line_segment(500, 300, -500, 100, b), (500, 300, -500, 200, 2));
    assert_eq!(clip_line_segment(500, -500, 600, 1500, b), (525, -500, 581, 1500, 3));
    assert_eq!(clip_line_segment(-500, 500, 1500, 500, b), (-500, 500, 1500, 500, 3));
    assert_eq!(clip_line_segment(-500, -100, -500, 500, b), (-500, -100, -500, 500, 4));
    assert_eq!(clip_line_segment(-500, 500, 500, 1500, b), (-500, 1000, -500, 1500, 3));
}

#[test]
fn closing_repeats_the_last_vertex_of_a_line() {
    let mut path = vec![Vertex::move_to(1, 2), Vertex::line_to(3, 4)];
    agrega::paths::close_polygon(&mut path);
    assert_eq!(path, vec![Vertex::move_to(1, 2), Vertex::line_to(3, 4), Vertex::close_polygon(3, 4)]);
    agrega::paths::close_polygon(&mut path);
    assert_eq!(path.len(), 3);
    let mut path = vec![Vertex::move_to(1, 2)];
    agrega::paths::close_polygon(&mut path);
    assert_eq!(path, vec![Vertex::move_to(1, 2)]);
    let mut path: Vec<Vertex<i64>> = Vec::new();
    agrega::paths::close_polygon(&mut path);
    assert!(path.is_empty());
}

#[test]
fn inverting_reverses_the_points_and_keeps_the_end_commands() {
    let mut path = vec![
        Vertex::xy(0, 0),
        Vertex::move_to(1, 1),
        Vertex::line_to(2, 2),
        Vertex::line_to(3, 3),
        Vertex::close_polygon(4, 4),
        Vertex::move_to(9, 9),
    ];
    agrega::paths::invert_polygon(&mut path, 1, 4);
    assert_eq!(
        path,
        vec![
            Vertex::xy(0, 0),
            Vertex::move_to(4, 4),
            Vertex::line_to(3, 3),
            Vertex::line_to(2, 2),
            Vertex::close_polygon(1, 1),
            Vertex::move_to(9, 9),
        ]
    );
    agrega::paths::invert_polygon(&mut path, 5, 5);
    assert_eq!(path[5], Vertex::move_to(9, 9));
    let mut three = vec![Vertex::move_to(1, 0), Vertex::close_polygon(2, 0), Vertex::line_to(3, 0)];
    agrega::paths::invert_polygon(&mut three, 0, 2);
    assert_eq!(
        three,
        vec![Vertex::move_to(3, 0), Vertex::close_polygon(2, 0), Vertex::line_to(1, 0)]
    );
}
