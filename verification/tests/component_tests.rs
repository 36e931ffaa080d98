use agrega::base::RenderingBase;
use agrega::color::{Gray8, Rgb8, Rgba8};
use agrega::component::PixfmtAlphaBlend;
use agrega::pixel::Pixel;
use agrega::pixfmt::Pixfmt;

type Channel<'a> = PixfmtAlphaBlend<'a, Pixfmt<Rgb8>, Gray8>;

fn base(w: usize, h: usize) -> RenderingBase<Pixfmt<Rgb8>> {
    let mut pix = Pixfmt::<Rgb8>::new(w, h);
    pix.fill(Rgb8::new(10, 20, 30));
    RenderingBase::new(pix)
}

#[test]
fn component_is_the_channel_at_the_offset() {
    let mut b = base(1, 1);
    for (offset, v) in [(0usize, 1u8), (1, 2), (2, 3)] {
        let ch = Channel::new(&mut b, offset);
        assert_eq!(ch.component(Rgb8::new(1, 2, 3)), Gray8::new(v));
        assert_eq!((ch.width(), ch.height()), (1, 1));
    }
    assert_eq!((Channel::bpp(), Channel::cover_mask()), (3, 255));
}

#[test]
fn set_changes_one_channel_only() {
    let mut b = base(2, 2);
    {
        let mut ch = Channel::new(&mut b, 1);
        ch.set((1, 0), Rgba8::new(100, 150, 200, 7));
        ch.setn((0, 1), 2, Gray8::new(77));
        ch.setn((0, 0), 0, Gray8::new(1));
        assert_eq!(ch.as_bytes(), &[10, 20, 30, 10, 150, 30, 10, 77, 30, 10, 77, 30][..]);
    }
    {
        let mut ch = Channel::new(&mut b, 2);
        ch.fill(Rgb8::new(1, 2, 3));
    }
    assert_eq!(b.as_bytes(), &[10, 20, 3, 10, 150, 3, 10, 77, 3, 10, 77, 3][..]);
}

#[test]
fn blending_mixes_one_channel() {
    let mut b = base(1, 1);
    let mut ch = Channel::new(&mut b, 0);
    assert_eq!(ch.mix_pix((0, 0), Gray8::new(200), 77), Gray8::new_with_alpha(67, 77));
    ch.blend_pix((0, 0), Gray8::new_with_alpha(200, 128), 255);
    assert_eq!(ch.as_bytes(), &[105, 20, 30][..]);
    ch.blend_pix((0, 0), Gray8::new_with_alpha(0, 255), 0);
    assert_eq!(ch.as_bytes(), &[105, 20, 30][..]);
    ch.blend_pix((0, 0), Rgba8::new(9, 0, 0, 255), 255);
    assert_eq!(ch.as_bytes(), &[9, 20, 30][..]);
}

#[test]
fn copy_or_blend_chooses_by_alpha_and_cover_on_a_channel() {
    let mut b = base(4, 1);
    let mut ch = Channel::new(&mut b, 2);
    ch.copy_or_blend_pix((0, 0), Gray8::new_with_alpha(200, 0));
    ch.copy_or_blend_pix((1, 0), Gray8::new_with_alpha(200, 255));
    ch.copy_or_blend_pix((2, 0), Gray8::new_with_alpha(200, 128));
    ch.copy_or_blend_pix_with_cover((3, 0), Gray8::new_with_alpha(200, 255), 128);
    assert_eq!(ch.as_bytes(), &[10, 20, 30, 10, 20, 200, 10, 20, 115, 10, 20, 115][..]);
    ch.copy_or_blend_pix_with_cover((0, 0), Gray8::new_with_alpha(200, 255), 255);
    ch.copy_or_blend_pix_with_cover((1, 0), Gray8::new_with_alpha(1, 0), 255);
    assert_eq!(&ch.as_bytes()[0..6], &[10, 20, 200, 10, 20, 200]);
}

#[test]
fn column_of_colors_on_a_channel() {
    let colors = [Gray8::new(200), Gray8::new_with_alpha(200, 128), Gray8::new_with_alpha(200, 0)];
    let mut b = base(2, 3);
    {
        let mut ch = Channel::new(&mut b, 0);
        ch.blend_color_vspan(1, 0, 3, &colors, &[], 255);
        ch.blend_color_vspan(0, 1, 2, &colors[0..2], &[128, 255], 7);
        ch.blend_color_vspan(0, 0, 1, &colors[0..1], &[], 128);
        ch.blend_color_vspan(0, 0, 0, &colors[0..0], &[], 255);
    }
    let reds: Vec<u8> = b.as_bytes().chunks(3).map(|p| p[0]).collect();
    assert_eq!(reds, vec![105, 200, 105, 105, 105, 10]);
    assert!(b.as_bytes().chunks(3).all(|p| p[1] == 20 && p[2] == 30));
}
