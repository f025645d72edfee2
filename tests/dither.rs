use dither_some::dither::{
    dither_frame_atkinson, dither_frame_floyd_steinberg_color, DitherAlgoOpts,
};
use dither_some::pipeline::dither_frame;

#[test]
fn atkinson_two_pixel_scenario() {
    let mut buf = vec![10u8, 10, 10, 200, 200, 200];
    dither_frame_atkinson(2, 1, &mut buf, 2);
    assert_eq!(buf, vec![0, 0, 0, 255, 255, 255]);
}

#[test]
fn two_levels_split_at_half() {
    let mut dark = vec![127u8, 127, 127];
    dither_frame_atkinson(1, 1, &mut dark, 2);
    assert_eq!(dark, vec![0, 0, 0]);

    let mut light = vec![128u8, 128, 128];
    dither_frame_atkinson(1, 1, &mut light, 2);
    assert_eq!(light, vec![255, 255, 255]);

    // 0.299 * 0 + 0.587 * 204 + 0.114 * 68 is exactly 127.5, which rounds up.
    let mut boundary = vec![0u8, 204, 68];
    dither_frame_atkinson(1, 1, &mut boundary, 2);
    assert_eq!(boundary, vec![255, 255, 255]);

    let mut c = vec![127u8, 128, 0];
    dither_frame_floyd_steinberg_color(1, 1, &mut c, 2);
    assert_eq!(c, vec![0, 255, 0]);
}

#[test]
fn atkinson_three_by_three_uniform() {
    let mut buf = vec![100u8; 27];
    dither_frame_atkinson(3, 3, &mut buf, 2);
    let mut expected = vec![0u8; 27];
    for b in &mut expected[12..18] {
        *b = 255;
    }
    assert_eq!(buf, expected);
}

#[test]
fn atkinson_three_levels() {
    let mut buf = vec![255u8, 255, 255, 0, 0, 0, 100, 150, 200, 40, 80, 120];
    dither_frame_atkinson(2, 2, &mut buf, 3);
    assert_eq!(buf, vec![255, 255, 255, 0, 0, 0, 127, 127, 127, 127, 127, 127]);
}

#[test]
fn floyd_steinberg_four_levels() {
    let mut buf = vec![255u8, 255, 255, 0, 0, 0, 100, 150, 200, 40, 80, 120];
    dither_frame_floyd_steinberg_color(2, 2, &mut buf, 4);
    assert_eq!(buf, vec![255, 255, 255, 0, 0, 0, 85, 170, 170, 85, 85, 170]);
}

#[test]
fn floyd_steinberg_keeps_quantized_frame() {
    let q = vec![0u8, 0, 0, 255, 255, 255, 255, 0, 255, 0, 255, 0];
    let mut buf = q.clone();
    dither_frame_floyd_steinberg_color(2, 2, &mut buf, 2);
    assert_eq!(buf, q);
}

#[test]
fn full_palette_leaves_frame_unchanged() {
    let orig: Vec<u8> = (0..27u8).map(|i| i * 9).collect();
    let mut buf = orig.clone();
    dither_frame_floyd_steinberg_color(3, 3, &mut buf, 256);
    assert_eq!(buf, orig);
}

#[test]
fn empty_frame_is_left_alone() {
    let mut buf: Vec<u8> = Vec::new();
    dither_frame_atkinson(0, 5, &mut buf, 2);
    dither_frame_floyd_steinberg_color(4, 0, &mut buf, 2);
    assert!(buf.is_empty());
}

#[test]
fn dither_frame_dispatches_on_algorithm() {
    let mut a = vec![255u8, 255, 255, 0, 0, 0, 100, 150, 200, 40, 80, 120];
    dither_frame(DitherAlgoOpts::FsColor { palette_count: 4 }, 2, 2, &mut a);
    assert_eq!(a, vec![255, 255, 255, 0, 0, 0, 85, 170, 170, 85, 85, 170]);

    let mut b = vec![10u8, 10, 10, 200, 200, 200];
    dither_frame(DitherAlgoOpts::Atkinson { palette_count: 2 }, 2, 1, &mut b);
    assert_eq!(b, vec![0, 0, 0, 255, 255, 255]);
}
