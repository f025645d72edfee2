use dither_some::frame::{Frame, ResolveError, Resolution, EVEN};

fn widen(p: (u8, u8, u8)) -> (f32, f32, f32) {
    (p.0 as f32, p.1 as f32, p.2 as f32)
}

#[test]
fn get_rgb_returns_correct_pixel() {
    let mut buf = vec![0u8; 3];
    let frame = Frame::new(1, 1, &mut buf);

    assert_eq!(widen(frame.get_rgb(0, 0).unwrap()), (0.0, 0.0, 0.0));
}

#[test]
fn get_rgb_returns_none_on_out_of_bounds() {
    let mut buf = vec![0u8; 3];
    let frame = Frame::new(1, 1, &mut buf);

    assert_eq!(frame.get_rgb(3, 3), None);
}

#[test]
fn get_rgb_returns_none_on_negative() {
    let mut buf = vec![0u8; 3];
    let frame = Frame::new(1, 1, &mut buf);

    assert_eq!(frame.get_rgb(-1, -1), None);
}

#[test]
fn get_gray_returns_correct_value() {
    let mut buf = vec![0u8; 3];
    let mut frame = Frame::new(1, 1, &mut buf);

    let (r, g, b) = (100u8, 150u8, 200u8);
    frame.set_rgb(0, 0, (r, g, b));

    let gray = frame.get_gray(0, 0).unwrap() as f64 / 1000.0;
    let expected = 0.299 * r as f64 + 0.587 * g as f64 + 0.114 * b as f64;

    assert!((gray - expected).abs() < 1e-6);
}

#[test]
fn get_gray_returns_none_on_out_of_bounds() {
    let mut buf = vec![0u8; 3];
    let frame = Frame::new(1, 1, &mut buf);

    assert_eq!(frame.get_gray(5, 5), None);
}

#[test]
fn set_rgb_writes_correct_pixel() {
    let mut buf = vec![0u8; 3];
    let mut frame = Frame::new(1, 1, &mut buf);

    let success = frame.set_rgb(0, 0, (10, 20, 30));
    assert!(success);
    assert_eq!(widen(frame.get_rgb(0, 0).unwrap()), (10.0, 20.0, 30.0));
}

#[test]
fn set_rgb_returns_false_on_out_of_bounds() {
    let mut buf = vec![0u8; 3];
    let mut frame = Frame::new(1, 1, &mut buf);

    assert!(!frame.set_rgb(2, 2, (1, 1, 1)));
}

#[test]
fn set_gray_writes_correct_pixel() {
    let mut buf = vec![0u8; 3];
    let mut frame = Frame::new(1, 1, &mut buf);

    let success = frame.set_gray(0, 0, 128);
    assert!(success);
    assert_eq!(widen(frame.get_rgb(0, 0).unwrap()), (128.0, 128.0, 128.0));
}

#[test]
fn set_gray_returns_false_on_negative_index() {
    let mut buf = vec![0u8; 3];
    let mut frame = Frame::new(1, 1, &mut buf);

    assert!(!frame.set_gray(-1, 0, 100));
}

#[test]
fn set_then_get_on_a_larger_frame_touches_only_that_pixel() {
    let mut buf = vec![0u8; 2 * 3 * 3];
    {
        let mut frame = Frame::new(2, 3, &mut buf);
        assert!(frame.set_rgb(1, 2, (7, 8, 9)));
        assert_eq!(frame.get_rgb(1, 2), Some((7, 8, 9)));
        assert_eq!(frame.get_rgb(0, 2), Some((0, 0, 0)));
        assert_eq!(frame.get_rgb(2, 0), None);
        assert_eq!(frame.get_rgb(0, 3), None);
        assert!(!frame.set_rgb(0, -1, (1, 1, 1)));
        assert!(!frame.set_gray(0, 3, 1));
    }
    assert_eq!(&buf[15..18], &[7, 8, 9]);
    assert_eq!(buf.iter().map(|&b| b as u32).sum::<u32>(), 24);
}

#[test]
fn empty_frame_has_no_pixels() {
    let mut buf: Vec<u8> = Vec::new();
    let frame = Frame::new(0, 0, &mut buf);
    assert_eq!(frame.get_rgb(0, 0), None);
    assert_eq!(frame.get_gray(0, 0), None);
}

#[test]
fn resolution_accessors() {
    let r = Resolution::new(640, -1);
    assert!(!r.is_resolved());
    assert_eq!(r.width(), Some(640));
    assert_eq!(r.height(), None);
    assert!(Resolution::new(0, 0).is_resolved());
}

#[test]
fn resolve_derives_height_from_aspect_ratio() {
    let r = Resolution::new(1280, -1).resolve_fields(Resolution::new(1920, 1080));
    assert_eq!(r, Ok(Resolution::new(1280, 720)));
}

#[test]
fn resolve_derives_width_with_even_sentinel() {
    let r = Resolution::new(EVEN, 720).resolve_fields(Resolution::new(1920, 1080));
    assert_eq!(r, Ok(Resolution::new(1280, 720)));
}

#[test]
fn resolve_even_and_nearest_rounding_differ() {
    let rel = Resolution::new(1, 1);
    assert_eq!(Resolution::new(-1, 3).resolve_fields(rel), Ok(Resolution::new(3, 3)));
    assert_eq!(Resolution::new(EVEN, 3).resolve_fields(rel), Ok(Resolution::new(4, 3)));
    assert_eq!(Resolution::new(3, EVEN).resolve_fields(rel), Ok(Resolution::new(3, 4)));
}

#[test]
fn resolve_rounds_half_up() {
    // 5 * 3 / 2 = 7.5 rounds to 8.
    let r = Resolution::new(-1, 5).resolve_fields(Resolution::new(3, 2));
    assert_eq!(r, Ok(Resolution::new(8, 5)));
    // 7 * 2 / 3 = 4.67 rounds to 5.
    let r = Resolution::new(7, -5).resolve_fields(Resolution::new(3, 2));
    assert_eq!(r, Ok(Resolution::new(7, 5)));
}

#[test]
fn resolve_resolved_is_identity() {
    let r = Resolution::new(10, 20).resolve_fields(Resolution::new(1920, 1080));
    assert_eq!(r, Ok(Resolution::new(10, 20)));
}

#[test]
fn resolve_fails_when_both_fields_negative() {
    let r = Resolution::new(-1, EVEN).resolve_fields(Resolution::new(1920, 1080));
    assert_eq!(r, Err(ResolveError::Underspecified));
}

#[test]
fn resolve_fails_on_unresolved_reference() {
    let r = Resolution::new(10, 20).resolve_fields(Resolution::new(-1, 1080));
    assert_eq!(r, Err(ResolveError::InvalidReference));
}

#[test]
fn resolve_against_zero_height_reference_saturates() {
    let rel = Resolution::new(4, 0);
    assert_eq!(Resolution::new(-1, 5).resolve_fields(rel), Ok(Resolution::new(isize::MAX, 5)));
    assert_eq!(Resolution::new(-1, 0).resolve_fields(rel), Ok(Resolution::new(0, 0)));
    assert_eq!(Resolution::new(3, -1).resolve_fields(rel), Ok(Resolution::new(3, 0)));
}
