use agrega::util::{floor_div_rem, lerp_u8, multiply_u8, pixel_floor, pixel_frac, prelerp_u8};

fn lerp_u8_f64(p: u8, q: u8, a: u8) -> u8 {
    let p = p as f64 / 255.0;
    let q = q as f64 / 255.0;
    let a = a as f64 / 255.0;
    let v = a * (q - p) + p;
    (v * 255.0).round() as u8
}

#[test]
fn lerp_u8_test() {
    for p in 0..=255 {
        for q in 0..=255 {
            for a in 0..=255 {
                let (p, q, a) = (p as u8, q as u8, a as u8);
                let v = lerp_u8_f64(p, q, a);
                assert_eq!(lerp_u8(p, q, a), v, "lerp({},{},{}) = {}", p, q, a, v);
            }
        }
    }
}

fn mu864(i: u8, j: u8) -> u8 {
    let i = i as f64 / 255.0;
    let j = j as f64 / 255.0;
    let c = i * j;
    (c * 255.0).round() as u8
}

#[test]
fn multiply_u8_test() {
    for i in 0..=255 {
        for j in 0..=255 {
            let v = mu864(i, j);
            assert_eq!(multiply_u8(i, j), v, "{} * {} = {}", i, j, v);
        }
    }
}

#[test]
fn multiply_u8_exact_values() {
    assert_eq!(multiply_u8(255, 255), 255);
    assert_eq!(multiply_u8(255, 128), 128);
    assert_eq!(multiply_u8(0, 200), 0);
    assert_eq!(multiply_u8(100, 100), 39);
    assert_eq!(multiply_u8(1, 127), 0);
    assert_eq!(multiply_u8(1, 128), 1);
}

#[test]
fn lerp_u8_end_points() {
    for p in 0..=255u8 {
        for q in 0..=255u8 {
            assert_eq!(lerp_u8(p, q, 0), p);
            assert_eq!(lerp_u8(p, q, 255), q);
        }
    }
    assert_eq!(lerp_u8(0, 255, 128), 128);
    assert_eq!(lerp_u8(255, 0, 128), 127);
    assert_eq!(lerp_u8(10, 20, 128), 15);
}

#[test]
fn prelerp_u8_wraps() {
    assert_eq!(prelerp_u8(0, 0, 0), 0);
    assert_eq!(prelerp_u8(100, 50, 255), 50);
    assert_eq!(prelerp_u8(100, 50, 0), 150);
    assert_eq!(prelerp_u8(200, 100, 0), 44);
    assert_eq!(prelerp_u8(10, 0, 255), 0);
    assert_eq!(prelerp_u8(0, 5, 255), 5);
}

#[test]
fn pixel_floor_and_frac_round_down() {
    assert_eq!(pixel_floor(0), 0);
    assert_eq!(pixel_floor(255), 0);
    assert_eq!(pixel_floor(256), 1);
    assert_eq!(pixel_floor(-1), -1);
    assert_eq!(pixel_floor(-256), -1);
    assert_eq!(pixel_floor(-257), -2);
    assert_eq!(pixel_frac(-1), 255);
    assert_eq!(pixel_frac(-256), 0);
    assert_eq!(pixel_frac(257), 1);
}

#[test]
fn floor_div_rem_rounds_down() {
    assert_eq!(floor_div_rem(7, 2), (3, 1));
    assert_eq!(floor_div_rem(-7, 2), (-4, 1));
    assert_eq!(floor_div_rem(-8, 2), (-4, 0));
    assert_eq!(floor_div_rem(0, 5), (0, 0));
    assert_eq!(floor_div_rem(-1, 5), (-1, 4));
}
