use std::rc::Rc;

use raycaster::color::Color;
use raycaster::framebuffer::Framebuffer;
use raycaster::renderer3d::{draw_wall_column, draw_wall_strip, fill_rows, render3d, texture_offset, WallStrip};
use raycaster::texture::Texture;
use raycaster::textures::TextureAtlas;

fn identity_shade() -> Vec<u8> {
    (0..=255u8).collect()
}

fn half_shade() -> Vec<u8> {
    (0..=255u8).map(|c| c / 2).collect()
}

/// 2 x 2: red, green / blue, white
fn four_texels() -> Texture {
    Texture { w: 2, h: 2, px: vec![0xFFFF0000, 0xFF00FF00, 0xFF0000FF, 0xFFFFFFFF] }
}

fn strip(depth: u32, top: i32, bottom: i32, tile: char, tex_x: u32, rows: Vec<u32>, shade: Vec<u8>) -> WallStrip {
    WallStrip { depth, top, bottom, tile, tex_x, tex_rows: rows, shade }
}

const SKY: Color = Color { r: 135, g: 206, b: 235, a: 255 };
const GROUND: Color = Color { r: 0, g: 0, b: 0, a: 255 };
const RED: Color = Color { r: 255, g: 0, b: 0, a: 255 };
const GREEN: Color = Color { r: 0, g: 255, b: 0, a: 255 };
const BLUE: Color = Color { r: 0, g: 0, b: 255, a: 255 };
const WHITE: Color = Color { r: 255, g: 255, b: 255, a: 255 };

#[test]
fn texture_offset_takes_y_near_a_vertical_edge() {
    // x offset 0: on the left edge of the cell, so the face runs along y
    assert_eq!(texture_offset(128, 70, 64), 6);
    // x offset 63: on the right edge
    assert_eq!(texture_offset(63, 30, 64), 30);
}

#[test]
fn texture_offset_takes_x_near_a_horizontal_edge() {
    assert_eq!(texture_offset(70, 128, 64), 6);
    assert_eq!(texture_offset(20, 63, 64), 20);
}

#[test]
fn texture_offset_prefers_y_on_a_tie() {
    assert_eq!(texture_offset(5, 5, 64), 5);
    assert_eq!(texture_offset(5, 58, 64), 58);
    assert_eq!(texture_offset(10, 3, 64), 10);
    assert_eq!(texture_offset(3, 10, 64), 10);
}

#[test]
fn texture_offset_wraps_negative_coordinates() {
    // -1 lies at offset 63 of its cell
    assert_eq!(texture_offset(-1, 20, 64), 20);
    assert_eq!(texture_offset(20, -1, 64), 20);
    assert_eq!(texture_offset(-64, -30, 64), 34);
    assert_eq!(texture_offset(i32::MIN, 17, 64), 17);
    assert_eq!(texture_offset(i32::MAX, 17, 64), 17);
}

#[test]
fn texture_offset_of_a_unit_cell_is_zero() {
    assert_eq!(texture_offset(12345, -777, 1), 0);
}

#[test]
fn fill_rows_fills_whole_rows_and_sets_the_pen() {
    let mut fb = Framebuffer::new(3, 4);
    fill_rows(&mut fb, 1, 3, RED);
    for y in 0..4 {
        for x in 0..3 {
            let want = if y == 1 || y == 2 { RED } else { GROUND };
            assert_eq!(fb.get_pixel(x, y), Some(want));
        }
    }
    fb.set_pixel(0, 0);
    assert_eq!(fb.get_pixel(0, 0), Some(RED));
}

#[test]
fn fill_rows_of_an_empty_range_only_sets_the_pen() {
    let mut fb = Framebuffer::new(2, 2);
    fill_rows(&mut fb, 2, 2, RED);
    fill_rows(&mut fb, 2, 1, BLUE);
    assert_eq!(fb.get_pixel(0, 0), Some(GROUND));
    assert_eq!(fb.get_pixel(1, 1), Some(GROUND));
    fb.set_pixel(1, 1);
    assert_eq!(fb.get_pixel(1, 1), Some(BLUE));
}

#[test]
fn draw_wall_column_maps_rows_to_texels() {
    let mut fb = Framebuffer::new(3, 6);
    let tex = four_texels();
    // rows 1..=4, texture rows 0, 0, 1, 1 of texture column 0
    let s = strip(0, 1, 4, '#', 0, vec![0, 0, 1, 1], identity_shade());
    draw_wall_column(&mut fb, &tex, &s, 1);
    let want = [GROUND, RED, RED, BLUE, BLUE, GROUND];
    for y in 0..6 {
        assert_eq!(fb.get_pixel(1, y), Some(want[y as usize]));
        assert_eq!(fb.get_pixel(0, y), Some(GROUND));
        assert_eq!(fb.get_pixel(2, y), Some(GROUND));
    }
    // the pen is the colour of the last row drawn
    fb.set_pixel(0, 0);
    assert_eq!(fb.get_pixel(0, 0), Some(BLUE));
}

#[test]
fn draw_wall_column_clips_to_the_screen() {
    let mut fb = Framebuffer::new(1, 3);
    let tex = four_texels();
    // the wall reaches from above the screen to below it; the texture rows
    // count from the first row on the screen
    let s = strip(0, -100, 100, '#', 1, vec![0, 1, 5], identity_shade());
    draw_wall_column(&mut fb, &tex, &s, 0);
    assert_eq!(fb.get_pixel(0, 0), Some(GREEN));
    assert_eq!(fb.get_pixel(0, 1), Some(WHITE));
    assert_eq!(fb.get_pixel(0, 2), Some(WHITE));
}

#[test]
fn draw_wall_column_shades_colour_but_not_alpha() {
    let mut fb = Framebuffer::new(1, 1);
    let tex = Texture { w: 1, h: 1, px: vec![0x80C86432] };
    let s = strip(0, 0, 0, '#', 0, vec![0], half_shade());
    draw_wall_column(&mut fb, &tex, &s, 0);
    assert_eq!(fb.get_pixel(0, 0), Some(Color { r: 100, g: 50, b: 25, a: 0x80 }));
}

#[test]
fn draw_wall_column_of_an_empty_strip_draws_nothing() {
    let mut fb = Framebuffer::new(2, 2);
    let tex = four_texels();
    let s = strip(0, 1, 0, '#', 0, vec![], identity_shade());
    fb.set_current_color(RED);
    draw_wall_column(&mut fb, &tex, &s, 0);
    let s = strip(0, 5, 9, '#', 0, vec![], identity_shade());
    draw_wall_column(&mut fb, &tex, &s, 0);
    let s = strip(0, -9, -1, '#', 0, vec![], identity_shade());
    draw_wall_column(&mut fb, &tex, &s, 0);
    for y in 0..2 {
        for x in 0..2 {
            assert_eq!(fb.get_pixel(x, y), Some(GROUND));
        }
    }
    fb.set_pixel(0, 0);
    assert_eq!(fb.get_pixel(0, 0), Some(RED));
}

#[test]
fn draw_wall_strip_covers_two_columns() {
    let mut fb = Framebuffer::new(4, 2);
    let tex = four_texels();
    let s = strip(0, 0, 1, '#', 1, vec![0, 1], identity_shade());
    draw_wall_strip(&mut fb, &tex, &s, 2);
    for x in 0..4 {
        let (top, bottom) = if x >= 2 { (GREEN, WHITE) } else { (GROUND, GROUND) };
        assert_eq!(fb.get_pixel(x, 0), Some(top));
        assert_eq!(fb.get_pixel(x, 1), Some(bottom));
    }
}

#[test]
fn draw_wall_strip_at_the_right_edge_covers_one_column() {
    let mut fb = Framebuffer::new(3, 1);
    let tex = four_texels();
    let s = strip(0, 0, 0, '#', 0, vec![0], identity_shade());
    draw_wall_strip(&mut fb, &tex, &s, 2);
    assert_eq!(fb.get_pixel(0, 0), Some(GROUND));
    assert_eq!(fb.get_pixel(1, 0), Some(GROUND));
    assert_eq!(fb.get_pixel(2, 0), Some(RED));
}

fn atlas() -> TextureAtlas {
    let brick = Rc::new(Texture { w: 1, h: 1, px: vec![0xFFFF0000] });
    let stone = Rc::new(Texture { w: 1, h: 1, px: vec![0xFF0000FF] });
    let mut a = TextureAtlas::new(brick.clone());
    a.insert('#', brick);
    a.insert('A', stone);
    a
}

#[test]
fn render3d_draws_sky_ground_and_walls() {
    let mut fb = Framebuffer::new(5, 6);
    fb.clear(WHITE);
    let mut zbuf = vec![u32::MAX; 5];
    let strips = vec![
        strip(70, 2, 3, '#', 0, vec![0, 0], identity_shade()),
        strip(50, 1, 4, 'A', 0, vec![0, 0, 0, 0], identity_shade()),
        strip(90, 3, 2, '#', 0, vec![], identity_shade()),
    ];
    render3d(&mut fb, &atlas(), &strips, &mut zbuf);
    assert_eq!(zbuf, vec![70, 70, 50, 50, 90]);
    for y in 0..6u32 {
        let back = if y < 3 { SKY } else { GROUND };
        for x in 0..5u32 {
            let want = match x / 2 {
                0 => if (2..=3).contains(&y) { RED } else { back },
                1 => if (1..=4).contains(&y) { BLUE } else { back },
                _ => back,
            };
            assert_eq!(fb.get_pixel(x, y), Some(want), "pixel ({}, {})", x, y);
        }
    }
    // the last strip drew nothing, so the pen is what the strip before left
    fb.set_pixel(4, 5);
    assert_eq!(fb.get_pixel(4, 5), Some(BLUE));
}

#[test]
fn render3d_overwrites_every_depth_entry_of_the_screen() {
    let mut fb = Framebuffer::new(4, 2);
    let mut zbuf = vec![1, 2, 3, 4, 5, 6];
    let strips = vec![
        strip(10, 0, 1, '#', 0, vec![0, 0], half_shade()),
        strip(20, 0, 1, '#', 0, vec![0, 0], identity_shade()),
    ];
    render3d(&mut fb, &atlas(), &strips, &mut zbuf);
    assert_eq!(zbuf, vec![10, 10, 20, 20, 5, 6]);
    assert_eq!(fb.get_pixel(0, 0), Some(Color { r: 127, g: 0, b: 0, a: 255 }));
    assert_eq!(fb.get_pixel(3, 1), Some(RED));
}

#[test]
fn render3d_falls_back_to_the_default_texture() {
    let mut fb = Framebuffer::new(1, 1);
    let mut zbuf = vec![0];
    let strips = vec![strip(3, 0, 0, ' ', 0, vec![0], identity_shade())];
    render3d(&mut fb, &atlas(), &strips, &mut zbuf);
    assert_eq!(fb.get_pixel(0, 0), Some(RED));
    assert_eq!(zbuf, vec![3]);
}

#[test]
fn render3d_of_an_odd_height_puts_the_middle_row_on_the_ground() {
    let mut fb = Framebuffer::new(2, 3);
    let mut zbuf = vec![0, 0];
    let strips = vec![strip(1, 9, 9, '#', 0, vec![], identity_shade())];
    render3d(&mut fb, &atlas(), &strips, &mut zbuf);
    assert_eq!(fb.get_pixel(0, 0), Some(SKY));
    assert_eq!(fb.get_pixel(0, 1), Some(GROUND));
    assert_eq!(fb.get_pixel(0, 2), Some(GROUND));
}

#[test]
fn render3d_of_an_empty_screen_does_nothing() {
    let mut fb = Framebuffer::new(0, 0);
    let mut zbuf = vec![7, 8];
    render3d(&mut fb, &atlas(), &Vec::new(), &mut zbuf);
    assert_eq!(zbuf, vec![7, 8]);
    let mut fb = Framebuffer::new(0, 4);
    render3d(&mut fb, &atlas(), &Vec::new(), &mut zbuf);
    assert_eq!(zbuf, vec![7, 8]);
}
