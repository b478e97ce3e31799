use std::io::Cursor;
use std::rc::Rc;

use raycaster::texture::{ImageKind, Texture, TextureError};
use raycaster::textures::TextureAtlas;

fn four_texels() -> Texture {
    // 2 x 2: red, green / blue, half-transparent white
    let raw: Vec<u8> = vec![
        255, 0, 0, 255, 0, 255, 0, 255, //
        0, 0, 255, 255, 255, 255, 255, 128,
    ];
    Texture::from_rgba8(2, 2, &raw)
}

#[test]
fn from_rgba8_packs_argb() {
    let t = four_texels();
    assert_eq!(t.w, 2);
    assert_eq!(t.h, 2);
    assert_eq!(t.px, vec![0xFFFF0000, 0xFF00FF00, 0xFF0000FF, 0x80FFFFFF]);
    assert!(t.is_wf());
}

#[test]
fn from_rgba8_reads_only_the_pixels_it_needs() {
    let raw: Vec<u8> = vec![1, 2, 3, 4, 5, 6, 7, 8, 9];
    let t = Texture::from_rgba8(2, 1, &raw);
    assert_eq!(t.px, vec![0x04010203, 0x08050607]);
}

#[test]
fn from_rgba8_of_no_pixels_is_empty() {
    let t = Texture::from_rgba8(0, 7, &[]);
    assert_eq!(t.px.len(), 0);
    assert!(!t.is_wf());
}

#[test]
fn is_wf_wants_one_texel_per_pixel() {
    assert!(!Texture { w: 2, h: 2, px: vec![0; 3] }.is_wf());
    assert!(!Texture { w: 0, h: 0, px: vec![] }.is_wf());
    assert!(Texture { w: 1, h: 3, px: vec![0; 3] }.is_wf());
    assert!(!Texture { w: u32::MAX, h: u32::MAX, px: vec![] }.is_wf());
}

#[test]
fn texel_reads_row_major() {
    let t = four_texels();
    assert_eq!(t.texel(0, 0), 0xFFFF0000);
    assert_eq!(t.texel(1, 0), 0xFF00FF00);
    assert_eq!(t.texel(0, 1), 0xFF0000FF);
    assert_eq!(t.texel(1, 1), 0x80FFFFFF);
}

#[test]
fn texel_clamps_past_the_edges() {
    let t = four_texels();
    assert_eq!(t.texel(2, 0), 0xFF00FF00);
    assert_eq!(t.texel(0, 9), 0xFF0000FF);
    assert_eq!(t.texel(u32::MAX, u32::MAX), 0x80FFFFFF);
}

#[test]
fn texel_clamped_clamps_on_both_sides() {
    let t = four_texels();
    assert_eq!(t.texel_clamped(-1, -5), 0xFFFF0000);
    assert_eq!(t.texel_clamped(i32::MIN, 1), 0xFF0000FF);
    assert_eq!(t.texel_clamped(1, i32::MAX), 0x80FFFFFF);
    assert_eq!(t.texel_clamped(1, 0), 0xFF00FF00);
}

fn png_of(w: u32, h: u32, raw: Vec<u8>) -> Vec<u8> {
    let img = image::RgbaImage::from_raw(w, h, raw).unwrap();
    let mut bytes: Vec<u8> = Vec::new();
    image::DynamicImage::ImageRgba8(img)
        .write_to(&mut Cursor::new(&mut bytes), image::ImageFormat::Png)
        .unwrap();
    bytes
}

#[test]
fn decode_reads_a_png() {
    let raw: Vec<u8> = vec![
        10, 20, 30, 255, 40, 50, 60, 0, 70, 80, 90, 128, //
        1, 2, 3, 4, 5, 6, 7, 8, 9, 10, 11, 12,
    ];
    let bytes = png_of(3, 2, raw);
    let t = Texture::decode(&bytes, ImageKind::Png).unwrap();
    assert_eq!(t.w, 3);
    assert_eq!(t.h, 2);
    assert_eq!(
        t.px,
        vec![0xFF0A141E, 0x0028323C, 0x8046505A, 0x04010203, 0x08050607, 0x0C090A0B]
    );
    assert!(t.is_wf());
}

#[test]
fn decode_converts_grey_to_rgba() {
    let img = image::GrayImage::from_raw(2, 1, vec![0, 200]).unwrap();
    let mut bytes: Vec<u8> = Vec::new();
    image::DynamicImage::ImageLuma8(img)
        .write_to(&mut Cursor::new(&mut bytes), image::ImageFormat::Png)
        .unwrap();
    let t = Texture::decode(&bytes, ImageKind::Png).unwrap();
    assert_eq!(t.px, vec![0xFF000000, 0xFFC8C8C8]);
}

#[test]
fn decode_reads_a_jpeg() {
    let img = image::RgbImage::from_raw(8, 8, vec![255; 8 * 8 * 3]).unwrap();
    let mut bytes: Vec<u8> = Vec::new();
    image::DynamicImage::ImageRgb8(img)
        .write_to(&mut Cursor::new(&mut bytes), image::ImageFormat::Jpeg)
        .unwrap();
    let t = Texture::decode(&bytes, ImageKind::Jpeg).unwrap();
    assert_eq!(t.w, 8);
    assert_eq!(t.h, 8);
    assert_eq!(t.px.len(), 64);
    for p in &t.px {
        assert_eq!(p >> 24, 0xFF);
        assert!((p & 0xFF) >= 0xF0);
    }
}

#[test]
fn decode_rejects_what_is_no_image() {
    let r = Texture::decode(&[1, 2, 3, 4, 5], ImageKind::Png);
    assert!(matches!(r, Err(TextureError::Undecodable)));
    let r = Texture::decode(&[], ImageKind::Jpeg);
    assert!(matches!(r, Err(TextureError::Undecodable)));
}

#[test]
fn decode_goes_by_the_given_kind() {
    let bytes = png_of(1, 1, vec![1, 2, 3, 4]);
    assert!(matches!(Texture::decode(&bytes, ImageKind::Jpeg), Err(TextureError::Undecodable)));
    assert!(Texture::decode(&bytes, ImageKind::Png).is_ok());
}

#[test]
fn atlas_without_entries_gives_the_default() {
    let atlas = TextureAtlas::new(Rc::new(four_texels()));
    assert_eq!(atlas.get('#').px, four_texels().px);
    assert_eq!(atlas.get(' ').px, four_texels().px);
}

#[test]
fn atlas_gives_each_tile_its_texture() {
    let stone = Rc::new(Texture { w: 1, h: 1, px: vec![0xFF808080] });
    let brick = Rc::new(Texture { w: 1, h: 1, px: vec![0xFFB04030] });
    let mut atlas = TextureAtlas::new(brick.clone());
    atlas.insert('#', brick.clone());
    atlas.insert('A', stone.clone());
    assert_eq!(atlas.get('#').px, vec![0xFFB04030]);
    assert_eq!(atlas.get('A').px, vec![0xFF808080]);
    assert_eq!(atlas.get('B').px, vec![0xFFB04030]);
}

#[test]
fn atlas_insert_replaces_an_entry() {
    let one = Rc::new(Texture { w: 1, h: 1, px: vec![1] });
    let two = Rc::new(Texture { w: 1, h: 1, px: vec![2] });
    let three = Rc::new(Texture { w: 1, h: 1, px: vec![3] });
    let mut atlas = TextureAtlas::new(one);
    atlas.insert('A', two);
    atlas.insert('A', three);
    assert_eq!(atlas.get('A').px, vec![3]);
    assert_eq!(atlas.get('a').px, vec![1]);
}

#[test]
fn from_decoded_packs_a_decoded_image() {
    let t = Texture::from_decoded(Some((2, 1, vec![1, 2, 3, 4, 5, 6, 7, 8]))).unwrap();
    assert_eq!((t.w, t.h), (2, 1));
    assert_eq!(t.px, vec![0x04010203, 0x08050607]);
    let t = Texture::from_decoded(Some((0, 0, vec![]))).unwrap();
    assert_eq!(t.px.len(), 0);
}

#[test]
fn from_decoded_of_nothing_is_undecodable() {
    assert!(matches!(Texture::from_decoded(None), Err(TextureError::Undecodable)));
}

#[test]
fn from_decoded_rejects_more_pixels_than_fit() {
    let r = Texture::from_decoded(Some((1 << 16, 1 << 16, vec![])));
    assert!(matches!(r, Err(TextureError::TooLarge)));
    let r = Texture::from_decoded(Some((u32::MAX, 2, vec![])));
    assert!(matches!(r, Err(TextureError::TooLarge)));
}

#[test]
fn decoded_textures_hold_one_texel_per_pixel() {
    let png = png_of(3, 5, vec![7; 3 * 5 * 4]);
    let t = Texture::decode(&png, ImageKind::Png).unwrap();
    assert_eq!(t.px.len(), 15);
    let img = image::RgbImage::from_raw(5, 3, vec![9; 5 * 3 * 3]).unwrap();
    let mut jpeg: Vec<u8> = Vec::new();
    image::DynamicImage::ImageRgb8(img)
        .write_to(&mut Cursor::new(&mut jpeg), image::ImageFormat::Jpeg)
        .unwrap();
    let t = Texture::decode(&jpeg, ImageKind::Jpeg).unwrap();
    assert_eq!((t.w, t.h), (5, 3));
    assert_eq!(t.px.len(), 15);
}
