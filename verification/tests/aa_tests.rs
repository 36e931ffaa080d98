use agrega::aa::{Cutoff, OutlineRecorder, RecordedSpan, RenderOutline, AA0, AA1, AA2, AA3, CENTRE};
use agrega::dist::{DistanceInterpolator1, DistanceInterpolator2, DistanceInterpolator3};
use agrega::line::{LineInterpolator, LineParameters};

fn profile() -> Vec<u64> {
    (0..1400i64).map(|i| (255 - (i - 512).abs() / 3).max(0) as u64).collect()
}

fn last(ren: &OutlineRecorder) -> (bool, i64, i64, i64, Vec<u64>) {
    let s: &RecordedSpan = ren.spans.last().unwrap();
    (s.vertical, s.x, s.y, s.len, s.covers[..s.len as usize].to_vec())
}

fn flat() -> LineParameters {
    LineParameters::new(0, 0, 2560, 1024, 2757)
}

fn steep() -> LineParameters {
    LineParameters::new(0, 0, 1024, 2560, 2757)
}

#[test]
fn recorder_looks_up_the_profile() {
    let ren = OutlineRecorder::new(profile());
    assert_eq!(ren.cover(0), 255);
    assert_eq!(ren.cover(3), 254);
    assert_eq!(ren.cover(-512), 85);
    assert_eq!(ren.cover(-513), 0);
    assert_eq!(ren.cover(887), 0);
    assert_eq!(ren.cover(888), 0);
    assert_eq!(ren.cover(i64::MAX), 0);
    assert_eq!(ren.cover(i64::MIN), 0);
    assert_eq!(OutlineRecorder::default().cover(0), 0);
    assert_eq!(CENTRE, 66);
    assert_eq!(Cutoff::off(), Cutoff { on: false, value: 0, step: 0 });
    assert_eq!(Cutoff::with(3, -4), Cutoff { on: true, value: 3, step: -4 });
}

#[test]
fn recorder_keeps_the_runs() {
    let mut ren = OutlineRecorder::new(vec![]);
    ren.blend_solid_hspan(1, 2, 3, &[7, 8, 9, 10]);
    ren.blend_solid_vspan(-1, -2, 1, &[5]);
    assert_eq!(
        ren.spans,
        vec![
            RecordedSpan { vertical: false, x: 1, y: 2, len: 3, covers: vec![7, 8, 9, 10] },
            RecordedSpan { vertical: true, x: -1, y: -2, len: 1, covers: vec![5] },
        ]
    );
}

#[test]
fn aa0_steps_along_a_flat_line() {
    let mut aa = AA0::new(flat(), 512);
    assert_eq!(aa.count(), 10);
    assert!(!aa.vertical());
    assert_eq!(aa.li.li, LineInterpolator { y: 0, left: 102, rem: 922, xmod: -1639, count: 2561 });
    assert_eq!(aa.di, DistanceInterpolator1 { dist: -196608, dx: 655360, dy: 262144 });
    assert_eq!(&aa.li.dist[0..6], &[0, 238, 476, 713, 951, 1189]);
    let mut ren = OutlineRecorder::new(profile());
    assert!(aa.step_hor(&mut ren));
    assert_eq!(last(&ren), (true, 1, -2, 5, vec![89, 168, 248, 184, 104]));
    assert_eq!(ren.spans[0].covers.len(), 132 - 64);
    assert_eq!((aa.li.x, aa.li.y, aa.li.step), (1, 0, 1));
    assert!(aa.step_hor(&mut ren));
    assert_eq!(last(&ren), (true, 2, -1, 4, vec![137, 216, 215, 136]));
    assert!(aa.step_hor(&mut ren));
    assert_eq!(last(&ren), (true, 3, -1, 5, vec![104, 184, 248, 168, 89]));
    assert_eq!((aa.li.x, aa.li.y, aa.li.old_y, aa.li.step), (3, 1, 1, 3));
    for _ in 3..9 {
        assert!(aa.step_hor(&mut ren));
    }
    assert!(!aa.step_hor(&mut ren));
    assert_eq!(ren.spans.len(), 10);
}

#[test]
fn aa0_steps_along_a_steep_line() {
    let mut aa = steep().interp0(512);
    assert!(aa.vertical());
    let mut ren = OutlineRecorder::new(profile());
    assert!(aa.step_ver(&mut ren));
    assert_eq!(last(&ren), (false, -2, 1, 5, vec![89, 168, 248, 184, 104]));
    assert!(aa.step_ver(&mut ren));
    assert_eq!(last(&ren), (false, -1, 2, 4, vec![137, 216, 215, 136]));
    assert!(aa.step_ver(&mut ren));
    assert_eq!(last(&ren), (false, -1, 3, 5, vec![104, 184, 248, 168, 89]));
    assert_eq!((aa.li.x, aa.li.y, aa.li.old_x, aa.li.step), (1, 3, 1, 3));
}

#[test]
fn aa1_backs_off_and_cuts_the_start() {
    let mut aa = AA1::new(flat(), -1024, 2560, 512);
    assert_eq!((aa.li.x, aa.li.y, aa.li.old_x, aa.li.old_y, aa.li.step), (-3, -2, 0, -2, -3));
    assert_eq!(aa.li.li, LineInterpolator { y: -307, left: 102, rem: 922, xmod: -1844, count: 2561 });
    assert_eq!(
        aa.di,
        DistanceInterpolator2 {
            dist: 327680,
            dx: 655360,
            dy: 262144,
            dist_start: -7936,
            dx_start: -1024,
            dy_start: 2560,
        }
    );
    let mut ren = OutlineRecorder::new(profile());
    assert!(aa.step_hor(&mut ren));
    assert_eq!(last(&ren), (true, -2, -3, 5, vec![104, 184, 248, 168, 89]));
    assert!(aa.step_hor(&mut ren));
    assert_eq!(last(&ren), (true, -1, -2, 4, vec![152, 232, 200, 0]));
    assert!(aa.step_hor(&mut ren));
    assert_eq!(last(&ren), (true, 0, -2, 4, vec![120, 0, 0, 0]));
    assert_eq!((aa.li.x, aa.li.y, aa.li.step), (0, 0, 0));

    let mut aa = AA1::new(LineParameters::new(0, 0, 1024, -2560, 2757), 2560, 1024, 512);
    assert!(aa.vertical());
    assert_eq!((aa.li.x, aa.li.y, aa.li.old_x, aa.li.old_y, aa.li.step), (-2, 3, -2, 0, -3));
    assert_eq!(aa.li.li, LineInterpolator { y: -307, left: 102, rem: 1024, xmod: -2048, count: 2560 });
    assert_eq!((aa.di.dist, aa.di.dist_start), (65536, -10496));
    let mut ren = OutlineRecorder::new(profile());
    assert!(aa.step_ver(&mut ren));
    assert_eq!(last(&ren), (false, -3, 2, 4, vec![136, 215, 216, 137]));
    assert!(aa.step_ver(&mut ren));
    assert_eq!(last(&ren), (false, -3, 1, 5, vec![104, 184, 248, 168, 89]));
}

#[test]
fn aa2_cuts_the_end() {
    let mut aa = AA2::new(flat(), 3584, -1536, 512);
    assert_eq!((aa.li.x, aa.li.y, aa.li.step, aa.li.max_extent), (0, 0, -2, 2));
    assert_eq!((aa.di.dist, aa.di.dist_start, aa.di.dx_start, aa.di.dy_start), (-196608, 27904, 1024, -2560));
    let mut ren = OutlineRecorder::new(profile());
    assert!(aa.step_hor(&mut ren));
    assert_eq!(last(&ren), (true, 1, -2, 5, vec![89, 168, 248, 184, 104]));
    assert!(aa.step_hor(&mut ren));
    assert!(aa.step_hor(&mut ren));
    assert_eq!(last(&ren), (true, 3, -1, 5, vec![104, 184, 248, 168, 89]));
    assert_eq!(aa.li.step, 1);

    let mut aa = steep().interp2(-1536, 3584, 512);
    let mut ren = OutlineRecorder::new(profile());
    assert!(!aa.step_ver(&mut ren));
    assert_eq!(last(&ren), (false, -2, 1, 5, vec![0, 0, 0, 0, 0]));
    assert!(!aa.step_ver(&mut ren));
    assert_eq!(last(&ren), (false, -1, 2, 4, vec![0, 0, 0, 0]));
    assert_eq!(aa.li.step, 0);
}

#[test]
fn aa3_backs_off_and_cuts_both_ends() {
    let mut aa = AA3::new(steep(), 2560, -1024, -1536, 3584, 512);
    assert_eq!((aa.li.x, aa.li.y, aa.li.old_x, aa.li.old_y, aa.li.step), (-1, -2, -1, 0, -3));
    assert_eq!(aa.li.len, -2757);
    assert_eq!(aa.li.li, LineInterpolator { y: -205, left: 102, rem: 1024, xmod: -1024, count: 2560 });
    assert_eq!(
        aa.di,
        DistanceInterpolator3 {
            dist: 65536,
            dx: 262144,
            dy: 655360,
            dist_start: 4352,
            dx_start: 2560,
            dy_start: -1024,
            dist_end: -34048,
            dx_end: -2560,
            dy_end: 1024,
        }
    );
    let mut ren = OutlineRecorder::new(profile());
    assert!(!aa.step_ver(&mut ren));
    assert_eq!(last(&ren), (false, -2, -1, 4, vec![0, 0, 0, 0]));
    assert_eq!(ren.spans[0].covers.len(), 4);
    assert!(!aa.step_ver(&mut ren));
    assert_eq!(last(&ren), (false, -2, 0, 4, vec![0, 0, 0, 0]));
    assert_eq!((aa.li.x, aa.li.y, aa.li.step), (0, 0, -5));

    let aa = AA3::new(flat(), -1024, 2560, 3584, -1536, 512);
    assert_eq!((aa.li.x, aa.li.y, aa.li.old_x, aa.li.old_y, aa.li.step), (-3, -2, 0, -2, -5));
    assert_eq!((aa.di.dist, aa.di.dist_start, aa.di.dist_end), (327680, -7936, 37632));

    let mut aa = AA3::new(flat(), -1024, 2560, 3584, -1536, 0);
    assert_eq!((aa.li.x, aa.li.y, aa.li.old_x, aa.li.old_y, aa.li.step), (-1, -1, 0, -1, -1));
    assert_eq!(aa.li.li, LineInterpolator { y: -103, left: 102, rem: 922, xmod: 0, count: 2561 });
    assert_eq!((aa.di.dist, aa.di.dist_start, aa.di.dist_end), (196608, -1792, 31488));
    let mut ren = OutlineRecorder::new(profile());
    assert!(aa.step_hor(&mut ren));
    assert_eq!(last(&ren), (true, 0, 0, 1, vec![0]));
    assert_eq!((aa.li.x, aa.li.y, aa.li.step), (0, 0, -2));
}

#[test]
fn line_parameters_make_the_interpolators_cut_off_at_the_start() {
    let lp = steep();
    let a = format!("{:?}", lp.interp1(-1536, 3584, 512));
    assert_eq!(a, format!("{:?}", AA1::new(lp, -1536, 3584, 512)));
    let b = format!("{:?}", lp.interp3(-1536, 3584, 1536, -3584, 512));
    assert_eq!(b, format!("{:?}", AA3::new(lp, -1536, 3584, 1536, -3584, 512)));
    assert_ne!(a, b.replace("AA3", "AA1"));
}
