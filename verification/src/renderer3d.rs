//! The wall pass: sky and ground, the depth buffer, and one textured, shaded
//! strip for every pair of screen columns.

use vstd::arithmetic::div_mod::{
    lemma_fundamental_div_mod, lemma_mod_add_multiples_vanish, lemma_mod_multiples_vanish,
    lemma_mod_twice,
};
use vstd::prelude::*;
use crate::color::{unpacked, Color};
use crate::framebuffer::{clip_first, clip_last, clip_span, Framebuffer};
use crate::texture::Texture;
use crate::textures::TextureAtlas;

verus! {

/// What one cast contributes to the frame: the depth of the wall it struck
/// and the vertical strip of texture that shows it.
pub struct WallStrip {
    /// Depth key of the wall: a smaller key is a nearer wall.
    pub depth: u32,
    /// First screen row of the projected wall, before clipping.
    pub top: i32,
    /// Last screen row of the projected wall, before clipping.
    pub bottom: i32,
    /// The tile that the ray struck.
    pub tile: char,
    /// Texture column of the hit point.
    pub tex_x: u32,
    /// Texture row for each screen row of the strip, from its first clipped row.
    pub tex_rows: Vec<u32>,
    /// Distance shading: the shaded value of each of the 256 channel values.
    pub shade: Vec<u8>,
}

/// A texel with the strip's shading applied to red, green and blue.
pub open spec fn shaded(shade: Seq<u8>, texel: u32) -> Color {
    let c = unpacked(texel);
    Color { r: shade[c.r as int], g: shade[c.g as int], b: shade[c.b as int], a: c.a }
}

/// The strips that a frame of `width` columns needs: one per two columns.
pub open spec fn strip_count(width: int) -> int {
    (width + 1) / 2
}

impl WallStrip {
    /// First screen row that the strip draws.
    pub open spec fn first_row(&self) -> int {
        clip_first(self.top as int)
    }

    /// Last screen row that the strip draws, on a screen of `height` rows.
    pub open spec fn last_row(&self, height: int) -> int {
        clip_last(self.bottom as int, height)
    }

    /// Whether the strip draws any row.
    pub open spec fn draws(&self, height: int) -> bool {
        self.first_row() <= self.last_row(height)
    }

    /// Whether the strip draws row `y`.
    pub open spec fn covers(&self, height: int, y: int) -> bool {
        self.first_row() <= y <= self.last_row(height)
    }

    /// The strip has a full shading table and a texture row for every row
    /// that it draws.
    pub open spec fn wf(&self, height: int) -> bool {
        &&& self.shade.len() == 256
        &&& self.tex_rows.len() >= self.last_row(height) - self.first_row() + 1
    }

    /// The colour that the strip draws in row `y` from texture `tex`.
    pub open spec fn color_at(&self, tex: Texture, y: int) -> Color {
        shaded(self.shade@, tex.spec_texel(self.tex_x as int, self.tex_rows[y - self.first_row()] as int))
    }

    /// The pen after the strip was drawn: the colour of its last row, or the
    /// pen as it was where the strip draws nothing.
    pub open spec fn pen_after(&self, tex: Texture, height: int, pen: Color) -> Color {
        if self.draws(height) {
            self.color_at(tex, self.last_row(height))
        } else {
            pen
        }
    }
}

/// Sky above the horizon row, black ground from it on.
pub open spec fn background(height: int, y: int) -> Color {
    if y < height / 2 {
        Color::sky_blue()
    } else {
        Color::black()
    }
}

/// The colour of pixel `(x, y)` after the wall pass.
pub open spec fn wall_pixel(
    strips: Seq<WallStrip>,
    atlas: TextureAtlas,
    height: int,
    x: int,
    y: int,
) -> Color {
    let s = strips[x / 2];
    if s.covers(height, y) {
        s.color_at(atlas.lookup(s.tile), y)
    } else {
        background(height, y)
    }
}

/// The pen after the background and the first `n` strips were drawn.
pub open spec fn walls_pen(strips: Seq<WallStrip>, atlas: TextureAtlas, height: int, n: int) -> Color
    decreases n,
{
    if n <= 0 {
        Color::black()
    } else {
        strips[n - 1].pen_after(
            atlas.lookup(strips[n - 1].tile),
            height,
            walls_pen(strips, atlas, height, n - 1),
        )
    }
}

/// The offset inside its cell, along one axis, of a world coordinate: the
/// coordinate modulo the cell size, never negative.
pub open spec fn cell_offset(coord: int, cell: int) -> int {
    coord % cell
}

/// Which offset of a hit point gives the horizontal texture coordinate. A hit
/// that is at least as near to a vertical cell edge as to a horizontal one
/// lies on a wall face that runs along y, so its y offset is taken; any other
/// hit gives its x offset.
pub open spec fn spec_texture_offset(hit_x: int, hit_y: int, cell: int) -> int {
    let lx = cell_offset(hit_x, cell);
    let ly = cell_offset(hit_y, cell);
    let to_right = cell - 1 - lx;
    let to_bottom = cell - 1 - ly;
    let min_vert = if lx <= to_right { lx } else { to_right };
    let min_hori = if ly <= to_bottom { ly } else { to_bottom };
    if min_vert <= min_hori {
        ly
    } else {
        lx
    }
}

/// The offset of `coord` inside its cell.
fn offset_in_cell(coord: i32, cell: i32) -> (off: i32)
    requires
        1 <= cell <= 0x4000_0000,
    ensures
        off == cell_offset(coord as int, cell as int),
        0 <= off < cell,
{
    let r: i32 = coord % cell;
    proof {
        let a = coord as int;
        let b = cell as int;
        if a >= 0 {
            lemma_mod_twice(a, b);
        } else {
            lemma_fundamental_div_mod(-a, b);
            lemma_mod_multiples_vanish(-((-a) / b), -((-a) % b), b);
            assert(b * (-((-a) / b)) + (-((-a) % b)) == a) by (nonlinear_arith)
                requires
                    -a == b * ((-a) / b) + ((-a) % b),
            ;
        }
        assert(r as int % b == a % b);
        lemma_mod_add_multiples_vanish(r as int, b);
    }
    (r + cell) % cell
}

/// Picks the offset of a hit point that the texture column is taken from.
/// The horizontal texture coordinate is this offset over `block_size - 1`.
pub fn texture_offset(hit_x: i32, hit_y: i32, block_size: usize) -> (off: i32)
    requires
        1 <= block_size <= 0x4000_0000,
    ensures
        off == spec_texture_offset(hit_x as int, hit_y as int, block_size as int),
        0 <= off < block_size,
{
    let cell: i32 = block_size as i32;
    let lx: i32 = offset_in_cell(hit_x, cell);
    let ly: i32 = offset_in_cell(hit_y, cell);
    let to_left: i32 = lx;
    let to_right: i32 = (cell - 1) - lx;
    let to_top: i32 = ly;
    let to_bottom: i32 = (cell - 1) - ly;
    let min_vert: i32 = if to_left <= to_right { to_left } else { to_right };
    let min_hori: i32 = if to_top <= to_bottom { to_top } else { to_bottom };
    if min_vert <= min_hori {
        ly
    } else {
        lx
    }
}

/// Fills the rows `from..to` with `color`, which becomes the pen.
pub fn fill_rows(framebuffer: &mut Framebuffer, from: u32, to: u32, color: Color)
    requires
        to <= old(framebuffer).spec_height(),
    ensures
        final(framebuffer).spec_width() == old(framebuffer).spec_width(),
        final(framebuffer).spec_height() == old(framebuffer).spec_height(),
        final(framebuffer).pen() == color,
        forall|x: int, y: int|
            0 <= x < old(framebuffer).spec_width() && 0 <= y < old(framebuffer).spec_height()
                ==> #[trigger] final(framebuffer).pixel(x, y) == if from <= y < to {
                color
            } else {
                old(framebuffer).pixel(x, y)
            },
{
    framebuffer.set_current_color(color);
    let width: u32 = framebuffer.width();
    let mut y: u32 = from;
    while y < to
        invariant
            from <= y,
            y <= to || y == from,
            to <= framebuffer.spec_height(),
            width == framebuffer.spec_width(),
            framebuffer.spec_width() == old(framebuffer).spec_width(),
            framebuffer.spec_height() == old(framebuffer).spec_height(),
            framebuffer.pen() == color,
            forall|px: int, py: int|
                0 <= px < width && 0 <= py < framebuffer.spec_height()
                    ==> #[trigger] framebuffer.pixel(px, py) == if from <= py < y {
                    color
                } else {
                    old(framebuffer).pixel(px, py)
                },
        decreases to - y,
    {
        let mut x: u32 = 0;
        while x < width
            invariant
                from <= y < to,
                to <= framebuffer.spec_height(),
                x <= width,
                width == framebuffer.spec_width(),
                framebuffer.spec_width() == old(framebuffer).spec_width(),
                framebuffer.spec_height() == old(framebuffer).spec_height(),
                framebuffer.pen() == color,
                forall|px: int, py: int|
                    0 <= px < width && 0 <= py < framebuffer.spec_height()
                        ==> #[trigger] framebuffer.pixel(px, py) == if from <= py < y || (py == y
                        && px < x) {
                        color
                    } else {
                        old(framebuffer).pixel(px, py)
                    },
            decreases width - x,
        {
            framebuffer.set_pixel(x, y);
            x += 1;
        }
        y += 1;
    }
}

/// Draws one screen column of a strip: every row from the strip's first to
/// its last gets the shaded texel of its texture row.
pub fn draw_wall_column(framebuffer: &mut Framebuffer, tex: &Texture, strip: &WallStrip, x: u32)
    requires
        x < old(framebuffer).spec_width(),
        old(framebuffer).spec_height() <= i32::MAX,
        strip.draws(old(framebuffer).spec_height() as int) ==> tex.wf(),
        strip.wf(old(framebuffer).spec_height() as int),
    ensures
        final(framebuffer).spec_width() == old(framebuffer).spec_width(),
        final(framebuffer).spec_height() == old(framebuffer).spec_height(),
        final(framebuffer).pen() == strip.pen_after(
            *tex,
            old(framebuffer).spec_height() as int,
            old(framebuffer).pen(),
        ),
        forall|px: int, py: int|
            0 <= px < old(framebuffer).spec_width() && 0 <= py < old(framebuffer).spec_height()
                ==> #[trigger] final(framebuffer).pixel(px, py) == if px == x && strip.covers(
                old(framebuffer).spec_height() as int,
                py,
            ) {
                strip.color_at(*tex, py)
            } else {
                old(framebuffer).pixel(px, py)
            },
{
    let ghost height = framebuffer.spec_height() as int;
    let (y0, y1) = clip_span(strip.top, strip.bottom, framebuffer.height());
    let mut y: i32 = y0;
    while y <= y1
        invariant
            y0 == strip.first_row(),
            y1 == strip.last_row(height),
            height == framebuffer.spec_height() <= i32::MAX,
            y0 <= y,
            y <= y1 + 1 || y == y0,
            0 <= y0,
            y1 < height,
            x < framebuffer.spec_width(),
            y0 <= y1 ==> tex.wf(),
            strip.wf(height),
            framebuffer.spec_width() == old(framebuffer).spec_width(),
            framebuffer.spec_height() == old(framebuffer).spec_height(),
            framebuffer.pen() == if y0 < y {
                strip.color_at(*tex, y - 1)
            } else {
                old(framebuffer).pen()
            },
            forall|px: int, py: int|
                0 <= px < framebuffer.spec_width() && 0 <= py < height
                    ==> #[trigger] framebuffer.pixel(px, py) == if px == x && y0 <= py < y {
                    strip.color_at(*tex, py)
                } else {
                    old(framebuffer).pixel(px, py)
                },
        decreases y1 + 1 - y,
    {
        let texel: u32 = tex.texel(strip.tex_x, strip.tex_rows[(y - y0) as usize]);
        let c = Color::from_argb(texel);
        let lit = Color::new(
            strip.shade[c.r as usize],
            strip.shade[c.g as usize],
            strip.shade[c.b as usize],
            c.a,
        );
        framebuffer.set_current_color(lit);
        framebuffer.set_pixel(x, y as u32);
        y += 1;
    }
}

/// Draws a strip into the two columns that start at `col`; at the right edge
/// of the screen the strip has one column.
pub fn draw_wall_strip(framebuffer: &mut Framebuffer, tex: &Texture, strip: &WallStrip, col: u32)
    requires
        col < old(framebuffer).spec_width(),
        old(framebuffer).spec_height() <= i32::MAX,
        strip.draws(old(framebuffer).spec_height() as int) ==> tex.wf(),
        strip.wf(old(framebuffer).spec_height() as int),
    ensures
        final(framebuffer).spec_width() == old(framebuffer).spec_width(),
        final(framebuffer).spec_height() == old(framebuffer).spec_height(),
        final(framebuffer).pen() == strip.pen_after(
            *tex,
            old(framebuffer).spec_height() as int,
            old(framebuffer).pen(),
        ),
        forall|px: int, py: int|
            0 <= px < old(framebuffer).spec_width() && 0 <= py < old(framebuffer).spec_height()
                ==> #[trigger] final(framebuffer).pixel(px, py) == if col <= px <= col + 1
                && strip.covers(old(framebuffer).spec_height() as int, py) {
                strip.color_at(*tex, py)
            } else {
                old(framebuffer).pixel(px, py)
            },
{
    let last: u32 = framebuffer.width() - 1;
    draw_wall_column(framebuffer, tex, strip, col);
    let next: u32 = if col < last { col + 1 } else { last };
    draw_wall_column(framebuffer, tex, strip, next);
}

/// The wall pass of one frame. Fills the upper half of the screen with sky
/// and the lower half with ground, then takes the strips from left to right:
/// strip `k` writes its depth into the depth buffer at columns `2k` and
/// `2k + 1` and draws itself there.
pub fn render3d(
    framebuffer: &mut Framebuffer,
    atlas: &TextureAtlas,
    strips: &Vec<WallStrip>,
    zbuf: &mut Vec<u32>,
)
    requires
        old(framebuffer).spec_height() <= i32::MAX,
        strips.len() == strip_count(old(framebuffer).spec_width() as int),
        forall|k: int|
            0 <= k < strips.len() ==> (#[trigger] strips[k]).wf(old(framebuffer).spec_height() as int),
        forall|k: int|
            0 <= k < strips.len() && (#[trigger] strips[k]).draws(old(framebuffer).spec_height() as int)
                ==> atlas.lookup(strips[k].tile).wf(),
        old(zbuf).len() >= old(framebuffer).spec_width(),
    ensures
        final(framebuffer).spec_width() == old(framebuffer).spec_width(),
        final(framebuffer).spec_height() == old(framebuffer).spec_height(),
        final(framebuffer).pen() == walls_pen(
            strips@,
            *atlas,
            old(framebuffer).spec_height() as int,
            strips.len() as int,
        ),
        forall|x: int, y: int|
            0 <= x < old(framebuffer).spec_width() && 0 <= y < old(framebuffer).spec_height()
                ==> #[trigger] final(framebuffer).pixel(x, y) == wall_pixel(
                strips@,
                *atlas,
                old(framebuffer).spec_height() as int,
                x,
                y,
            ),
        final(zbuf).len() == old(zbuf).len(),
        forall|x: int|
            0 <= x < old(framebuffer).spec_width() ==> #[trigger] final(zbuf)[x] == strips[x / 2].depth,
        forall|x: int|
            old(framebuffer).spec_width() <= x < old(zbuf).len() ==> #[trigger] final(zbuf)[x] == old(
                zbuf,
            )[x],
{
    let width: u32 = framebuffer.width();
    let height: u32 = framebuffer.height();
    let horizon: u32 = height / 2;
    fill_rows(framebuffer, 0, horizon, Color::sky_blue());
    fill_rows(framebuffer, horizon, height, Color::black());

    let mut k: usize = 0;
    while k < strips.len()
        invariant
            k <= strips.len(),
            width == framebuffer.spec_width(),
            height == framebuffer.spec_height(),
            height <= i32::MAX,
            framebuffer.spec_width() == old(framebuffer).spec_width(),
            framebuffer.spec_height() == old(framebuffer).spec_height(),
            strips.len() == strip_count(width as int),
            forall|j: int| 0 <= j < strips.len() ==> (#[trigger] strips[j]).wf(height as int),
            forall|j: int|
                0 <= j < strips.len() && (#[trigger] strips[j]).draws(height as int) ==> atlas.lookup(
                    strips[j].tile,
                ).wf(),
            zbuf.len() == old(zbuf).len(),
            zbuf.len() >= width,
            framebuffer.pen() == walls_pen(strips@, *atlas, height as int, k as int),
            forall|x: int, y: int|
                0 <= x < width && 0 <= y < height ==> #[trigger] framebuffer.pixel(x, y) == if x / 2
                    < k {
                    wall_pixel(strips@, *atlas, height as int, x, y)
                } else {
                    background(height as int, y)
                },
            forall|x: int| 0 <= x < width && x / 2 < k ==> #[trigger] zbuf[x] == strips[x / 2].depth,
            forall|x: int|
                0 <= x < zbuf.len() && !(x < width && x / 2 < k) ==> #[trigger] zbuf[x] == old(
                    zbuf,
                )[x],
        decreases strips.len() - k,
    {
        let strip = &strips[k];
        let col: u32 = (2 * k) as u32;
        let next: u32 = if col < width - 1 { col + 1 } else { width - 1 };
        zbuf[col as usize] = strip.depth;
        zbuf[next as usize] = strip.depth;
        let tex = atlas.get(strip.tile);
        draw_wall_strip(framebuffer, tex, strip, col);
        k += 1;
    }
}

/// The wall pass leaves nothing of what a depth buffer of the screen's width
/// held before: two such buffers that went through the pass with the same
/// strips are equal.
pub proof fn lemma_depth_overwritten(strips: Seq<WallStrip>, width: int, a: Seq<u32>, b: Seq<u32>)
    requires
        a.len() == width,
        b.len() == width,
        forall|x: int| 0 <= x < width ==> #[trigger] a[x] == strips[x / 2].depth,
        forall|x: int| 0 <= x < width ==> #[trigger] b[x] == strips[x / 2].depth,
    ensures
        a == b,
{
    assert(a =~= b);
}

} // verus!
