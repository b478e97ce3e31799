//! Textures: a flat array of packed `0xAARRGGBB` texels.

use vstd::prelude::*;
use crate::color::{packed, Color};

verus! {

/// The error type of the `image` crate. Nothing is known of its values.
#[verifier::external_type_specification]
#[verifier::external_body]
pub struct ExImageError(image::ImageError);

/// A decoded image: `w * h` packed texels, row after row.
pub struct Texture {
    pub w: u32,
    pub h: u32,
    pub px: Vec<u32>,
}

/// The encodings that `Texture::decode` reads.
#[derive(Clone, Copy, Debug, PartialEq, Eq, Structural)]
pub enum ImageKind {
    Png,
    Jpeg,
}

/// Why no texture came out of `Texture::decode`.
#[derive(Clone, Copy, Debug, PartialEq, Eq, Structural)]
pub enum TextureError {
    /// The bytes are not an image of the given kind.
    Undecodable,
    /// The image has more than `u32::MAX` pixels.
    TooLarge,
}

/// `v` moved into `0..n`: below zero gives 0, `n` and above gives `n - 1`.
pub open spec fn clamp_index(v: int, n: int) -> int {
    if v < 0 {
        0
    } else if v >= n {
        n - 1
    } else {
        v
    }
}

/// The texel of the `i`-th pixel in a buffer of RGBA bytes.
pub open spec fn rgba_texel(raw: Seq<u8>, i: int) -> u32 {
    packed(Color { r: raw[4 * i], g: raw[4 * i + 1], b: raw[4 * i + 2], a: raw[4 * i + 3] })
}

/// The first `n` pixels of a buffer of RGBA bytes, as texels.
pub open spec fn rgba_texels(raw: Seq<u8>, n: nat) -> Seq<u32> {
    Seq::new(n, |i: int| rgba_texel(raw, i))
}

/// What the `image` crate decodes from `bytes` read as a PNG, converted to
/// eight-bit RGBA: width, height and the raw bytes; `None` where it reports
/// an error. A JPEG has no such name: its decoder picks its arithmetic by the
/// processor it runs on, and the pixels may differ from machine to machine.
pub uninterp spec fn decoded_png(bytes: Seq<u8>) -> Option<(u32, u32, Seq<u8>)>;

/// Calls `image::load_from_memory_with_format` and converts the image with
/// `DynamicImage::to_rgba8`. Trusted: the converted buffer holds four bytes
/// for each of its `width * height` pixels; and for a PNG the outcome is a
/// function of the bytes alone.
#[verifier::external_body]
fn decode_rgba8(bytes: &[u8], kind: ImageKind) -> (r: Result<(u32, u32, Vec<u8>), image::ImageError>)
    ensures
        r matches Ok((w, h, raw)) ==> raw.len() == 4 * (w * h),
        kind == ImageKind::Png ==> (r matches Ok((w, h, raw)) ==> decoded_png(bytes@) == Some(
            (w, h, raw@),
        )),
        kind == ImageKind::Png ==> (r is Err ==> decoded_png(bytes@) is None),
{
    let format = match kind {
        ImageKind::Png => image::ImageFormat::Png,
        ImageKind::Jpeg => image::ImageFormat::Jpeg,
    };
    let rgba = image::load_from_memory_with_format(bytes, format)?.to_rgba8();
    Ok((rgba.width(), rgba.height(), rgba.into_raw()))
}

/// The texture that comes of a decoded image: none where decoding failed or
/// the image has more than `u32::MAX` pixels, else its pixels packed.
pub open spec fn is_texture_of(
    decoded: Option<(u32, u32, Seq<u8>)>,
    r: Result<Texture, TextureError>,
) -> bool {
    match decoded {
        None => r == Err::<Texture, TextureError>(TextureError::Undecodable),
        Some((w, h, raw)) => if w * h > u32::MAX {
            r == Err::<Texture, TextureError>(TextureError::TooLarge)
        } else {
            &&& r matches Ok(tex)
            &&& tex.w == w
            &&& tex.h == h
            &&& tex.px@ == rgba_texels(raw, (w * h) as nat)
        },
    }
}

impl Texture {
    /// A texture that can be sampled: it has at least one texel, and its
    /// array holds exactly `w * h` of them.
    pub open spec fn wf(&self) -> bool {
        &&& self.w >= 1
        &&& self.h >= 1
        &&& self.w * self.h <= u32::MAX
        &&& self.px.len() == self.w * self.h
    }

    /// The texel at column `x` of row `y`, both clamped into the texture.
    pub open spec fn spec_texel(&self, x: int, y: int) -> u32 {
        self.px[clamp_index(y, self.h as int) * self.w + clamp_index(x, self.w as int)]
    }

    /// Whether the texture can be sampled.
    pub fn is_wf(&self) -> (b: bool)
        ensures
            b == self.wf(),
    {
        assert(self.w * self.h <= u32::MAX * u32::MAX) by (nonlinear_arith);
        let n: u64 = self.w as u64 * self.h as u64;
        self.w >= 1 && self.h >= 1 && n <= u32::MAX as u64 && self.px.len() as u64 == n
    }

    /// Packs `w * h` RGBA pixels, four bytes each, into texels.
    pub fn from_rgba8(w: u32, h: u32, raw: &[u8]) -> (tex: Texture)
        requires
            w * h <= u32::MAX,
            raw.len() >= 4 * (w * h),
        ensures
            tex.w == w,
            tex.h == h,
            tex.px@ == rgba_texels(raw@, (w * h) as nat),
    {
        let n: usize = (w * h) as usize;
        let mut px: Vec<u32> = Vec::with_capacity(n);
        let mut i: usize = 0;
        while i < n
            invariant
                i <= n,
                n == w * h,
                raw.len() >= 4 * n,
                px.len() == i,
                forall|k: int| 0 <= k < i ==> px[k] == rgba_texel(raw@, k),
            decreases n - i,
        {
            let c = Color::new(raw[4 * i], raw[4 * i + 1], raw[4 * i + 2], raw[4 * i + 3]);
            px.push(c.to_argb());
            i += 1;
        }
        Texture { w, h, px }
    }

    /// Makes the texture of a decoded image: its width, its height and, if
    /// it has at most `u32::MAX` pixels, at least four bytes for each;
    /// `None` stands for an image that could not be decoded.
    pub fn from_decoded(decoded: Option<(u32, u32, Vec<u8>)>) -> (r: Result<Texture, TextureError>)
        requires
            decoded matches Some((w, h, raw)) ==> w * h > u32::MAX || raw.len() >= 4 * (w * h),
        ensures
            is_texture_of(
                match decoded {
                    Some((w, h, raw)) => Some((w, h, raw@)),
                    None => None,
                },
                r,
            ),
    {
        match decoded {
            None => Err(TextureError::Undecodable),
            Some((w, h, raw)) => {
                assert(w * h <= u32::MAX * u32::MAX) by (nonlinear_arith);
                if w as u64 * h as u64 > u32::MAX as u64 {
                    Err(TextureError::TooLarge)
                } else {
                    Ok(Texture::from_rgba8(w, h, raw.as_slice()))
                }
            },
        }
    }

    /// Decodes an encoded image into a texture. Whatever the decoder gives,
    /// a texture that comes out holds one texel for each of its pixels; for a
    /// PNG it is the texture of `decoded_png`.
    pub fn decode(bytes: &[u8], kind: ImageKind) -> (r: Result<Texture, TextureError>)
        ensures
            r matches Ok(tex) ==> tex.w * tex.h <= u32::MAX && tex.px.len() == tex.w * tex.h,
            kind == ImageKind::Png ==> is_texture_of(decoded_png(bytes@), r),
    {
        let decoded = match decode_rgba8(bytes, kind) {
            Ok(image) => Some(image),
            Err(_) => None,
        };
        Texture::from_decoded(decoded)
    }

    /// Nearest texel with unsigned coordinates: a coordinate past the edge
    /// reads the last column or row.
    pub fn texel(&self, x: u32, y: u32) -> (t: u32)
        requires
            self.wf(),
        ensures
            t == self.spec_texel(x as int, y as int),
    {
        let cx: u32 = if x < self.w { x } else { self.w - 1 };
        let cy: u32 = if y < self.h { y } else { self.h - 1 };
        assert(cy * self.w + cx < self.w * self.h) by (nonlinear_arith)
            requires
                cx < self.w,
                cy < self.h,
        ;
        self.px[(cy * self.w + cx) as usize]
    }

    /// Nearest texel with signed coordinates, clamped at both edges.
    pub fn texel_clamped(&self, x: i32, y: i32) -> (t: u32)
        requires
            self.wf(),
        ensures
            t == self.spec_texel(x as int, y as int),
    {
        let cx: u32 = if x < 0 { 0 } else { x as u32 };
        let cy: u32 = if y < 0 { 0 } else { y as u32 };
        self.texel(cx, cy)
    }
}

} // verus!
