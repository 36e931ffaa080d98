use agrega::color::{Color, Gray8, Rgb8, Rgba8, Rgba8pre, Srgba8};

#[test]
fn rgb8_test() {
    let w = Rgb8::white();
    assert_eq!(w, Rgb8 { r: 255, g: 255, b: 255 });
    let w = Rgb8::black();
    assert_eq!(w, Rgb8 { r: 0, g: 0, b: 0 });
    let w = Rgb8::gray(128);
    assert_eq!(w, Rgb8 { r: 128, g: 128, b: 128 });
    let w = Rgb8::from_slice(&[1, 2, 3]);
    assert_eq!(w, Rgb8 { r: 1, g: 2, b: 3 });
    let w = Rgb8::new(0, 90, 180);
    assert_eq!(w, Rgb8 { r: 0, g: 90, b: 180 });
}

#[test]
fn gray_test() {
    let g = Gray8::new(34);
    assert_eq!(g, Gray8 { value: 34, alpha: 255 });
    let g = Gray8::new_with_alpha(134, 100);
    assert_eq!(g, Gray8 { value: 134, alpha: 100 });
    let g = Gray8::from_slice(&[10, 20]);
    assert_eq!(g, Gray8 { value: 10, alpha: 20 });
}

#[test]
fn rgba8_test() {
    let c = Rgba8::white();
    assert_eq!(c, Rgba8 { r: 255, g: 255, b: 255, a: 255 });
    let c = Rgba8::black();
    assert_eq!(c, Rgba8 { r: 0, g: 0, b: 0, a: 255 });
    let c = Rgba8::new(255, 90, 84, 72);
    assert_eq!(c, Rgba8 { r: 255, g: 90, b: 84, a: 72 });
    let mut c = c;
    c.clear();
    assert_eq!(c, Rgba8 { r: 0, g: 0, b: 0, a: 0 });
    let c = Rgba8::new(255, 255, 255, 128);
    let p = c.premultiply();
    assert_eq!(p, Rgba8pre { r: 128, g: 128, b: 128, a: 128 })
}

#[test]
fn premultiply_special_alphas() {
    assert_eq!(Rgba8::new(10, 20, 30, 255).premultiply(), Rgba8pre::new(10, 20, 30, 255));
    assert_eq!(Rgba8::new(10, 20, 30, 0).premultiply(), Rgba8pre::new(0, 0, 0, 0));
    assert_eq!(Rgba8::new(100, 200, 50, 100).premultiply(), Rgba8pre::new(39, 78, 20, 100));
}

#[test]
fn arrays_round_trip() {
    assert_eq!(Gray8::from_array2([3, 4]).into_array2(), [3, 4]);
    assert_eq!(Rgb8::from_array3([1, 2, 3]).into_array3(), [1, 2, 3]);
    assert_eq!(Rgb8::from_array4([1, 2, 3, 9]).into_array4(), [1, 2, 3, 255]);
    assert_eq!(Rgba8::from_array([1, 2, 3, 4]).into_array(), [1, 2, 3, 4]);
    assert_eq!(Rgba8::from_array3([1, 2, 3, 4]).into_array3(), [1, 2, 3]);
    assert_eq!(Rgba8::from_array4([1, 2, 3, 4]).into_array4(), [1, 2, 3, 4]);
    assert_eq!(Rgba8pre::from_array([1, 2, 3, 4]).into_array(), [1, 2, 3, 4]);
    assert_eq!(Rgba8pre::from_array3([1, 2, 3]).into_array4(), [1, 2, 3, 255]);
    assert_eq!(Rgba8pre::from_array4([5, 6, 7, 8]).into_array3(), [5, 6, 7]);
    assert_eq!(Srgba8::from_array([1, 2, 3, 4]).into_array(), [1, 2, 3, 4]);
    assert_eq!(Srgba8::new(50, 150, 250, 128).into_array(), [50, 150, 250, 128]);
    assert_eq!(Srgba8::white().into_array(), [255, 255, 255, 255]);
    assert_eq!(Srgba8::black().into_array(), [0, 0, 0, 255]);
}

#[test]
fn color_channels_through_the_trait() {
    let c = Rgb8::new(1, 2, 3);
    assert_eq!((c.red8(), c.green8(), c.blue8(), c.alpha8()), (1, 2, 3, 255));
    assert!(c.is_opaque() && !c.is_transparent() && !c.is_premultiplied());
    let g = Gray8::new_with_alpha(9, 0);
    assert_eq!((g.red8(), g.green8(), g.blue8(), g.alpha8()), (9, 9, 9, 0));
    assert!(g.is_transparent() && !g.is_opaque());
    let p = Rgba8pre::new(4, 5, 6, 7);
    assert!(p.is_premultiplied());
    assert_eq!(Rgba8::from_trait(c), Rgba8::new(1, 2, 3, 255));
    assert_eq!(Rgb8::from_trait(p), Rgb8::new(4, 5, 6));
    assert_eq!(Rgba8pre::from_trait(g), Rgba8pre::new(9, 9, 9, 0));
}
