use raycaster::color::Color;
use raycaster::framebuffer::{clip_span, Framebuffer};

#[test]
fn from_argb_splits_the_four_channels() {
    let c = Color::from_argb(0x80FF4020);
    assert_eq!(c, Color { r: 0xFF, g: 0x40, b: 0x20, a: 0x80 });
}

#[test]
fn to_argb_packs_alpha_first() {
    let c = Color::new(1, 2, 3, 4);
    assert_eq!(c.to_argb(), 0x04010203);
}

#[test]
fn pack_and_unpack_round_trip() {
    for pix in [0u32, 1, 0xFF, 0xFF00, 0xFF0000, 0xFF000000, 0xFFFFFFFF, 0x12345678] {
        assert_eq!(Color::from_argb(pix).to_argb(), pix);
    }
}

#[test]
fn named_colours_have_their_values() {
    assert_eq!(Color::black(), Color { r: 0, g: 0, b: 0, a: 255 });
    assert_eq!(Color::white(), Color { r: 255, g: 255, b: 255, a: 255 });
    assert_eq!(Color::sky_blue(), Color { r: 135, g: 206, b: 235, a: 255 });
    assert_eq!(Color::white_smoke(), Color { r: 245, g: 245, b: 245, a: 255 });
}

#[test]
fn new_framebuffer_is_black() {
    let fb = Framebuffer::new(4, 3);
    assert_eq!(fb.width(), 4);
    assert_eq!(fb.height(), 3);
    for y in 0..3 {
        for x in 0..4 {
            assert_eq!(fb.get_pixel(x, y), Some(Color::black()));
        }
    }
}

#[test]
fn get_pixel_outside_is_none() {
    let fb = Framebuffer::new(4, 3);
    assert_eq!(fb.get_pixel(4, 0), None);
    assert_eq!(fb.get_pixel(0, 3), None);
    assert_eq!(fb.get_pixel(u32::MAX, u32::MAX), None);
}

#[test]
fn new_framebuffer_draws_white() {
    let mut fb = Framebuffer::new(2, 2);
    fb.set_pixel(1, 1);
    assert_eq!(fb.get_pixel(1, 1), Some(Color::white()));
    assert_eq!(fb.get_pixel(0, 1), Some(Color::black()));
}

#[test]
fn set_pixel_writes_the_pen_at_one_place() {
    let mut fb = Framebuffer::new(3, 2);
    let red = Color::new(255, 0, 0, 255);
    fb.set_current_color(red);
    fb.set_pixel(2, 1);
    for y in 0..2 {
        for x in 0..3 {
            let want = if x == 2 && y == 1 { red } else { Color::black() };
            assert_eq!(fb.get_pixel(x, y), Some(want));
        }
    }
}

#[test]
fn set_pixel_outside_is_ignored() {
    let mut fb = Framebuffer::new(3, 2);
    fb.set_pixel(3, 0);
    fb.set_pixel(0, 2);
    for y in 0..2 {
        for x in 0..3 {
            assert_eq!(fb.get_pixel(x, y), Some(Color::black()));
        }
    }
}

#[test]
fn clear_fills_every_pixel() {
    let mut fb = Framebuffer::new(3, 2);
    fb.set_pixel(1, 1);
    let c = Color::new(9, 8, 7, 6);
    fb.clear(c);
    for y in 0..2 {
        for x in 0..3 {
            assert_eq!(fb.get_pixel(x, y), Some(c));
        }
    }
    fb.set_pixel(0, 0);
    assert_eq!(fb.get_pixel(0, 0), Some(Color::white()));
}

#[test]
fn resize_keeps_the_storage_prefix_and_pads_black() {
    let mut fb = Framebuffer::new(2, 2);
    let c = Color::new(1, 1, 1, 1);
    fb.set_current_color(c);
    fb.set_pixel(1, 0); // index 1
    fb.set_pixel(1, 1); // index 3
    fb.resize(3, 2);
    assert_eq!(fb.width(), 3);
    assert_eq!(fb.height(), 2);
    // index 1 is still (1, 0); index 3 is now (0, 1)
    assert_eq!(fb.get_pixel(1, 0), Some(c));
    assert_eq!(fb.get_pixel(0, 1), Some(c));
    assert_eq!(fb.get_pixel(1, 1), Some(Color::black()));
    assert_eq!(fb.get_pixel(2, 1), Some(Color::black()));
    fb.resize(1, 2);
    assert_eq!(fb.get_pixel(0, 0), Some(Color::black()));
    assert_eq!(fb.get_pixel(0, 1), Some(c));
    assert_eq!(fb.get_pixel(1, 0), None);
}

#[test]
fn empty_framebuffer_accepts_every_call() {
    let mut fb = Framebuffer::new(0, 5);
    fb.set_pixel(0, 0);
    fb.clear(Color::white());
    assert_eq!(fb.get_pixel(0, 0), None);
    fb.resize(0, 0);
    assert_eq!(fb.width(), 0);
}

#[test]
fn clip_span_cuts_at_both_ends() {
    assert_eq!(clip_span(2, 5, 10), (2, 5));
    assert_eq!(clip_span(-3, 5, 10), (0, 5));
    assert_eq!(clip_span(2, 50, 10), (2, 9));
    assert_eq!(clip_span(i32::MIN, i32::MAX, 10), (0, 9));
}

#[test]
fn clip_span_off_the_screen_is_empty() {
    let (lo, hi) = clip_span(10, 20, 10);
    assert!(lo > hi);
    let (lo, hi) = clip_span(-9, -1, 10);
    assert!(lo > hi);
    let (lo, hi) = clip_span(5, 4, 10);
    assert!(lo > hi);
    assert_eq!(clip_span(0, 0, 0), (0, -1));
}
