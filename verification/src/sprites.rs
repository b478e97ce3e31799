//! The sprite pass: billboards sorted back to front and drawn over the walls,
//! each pixel tested against the wall depth buffer.

use std::rc::Rc;
use vstd::prelude::*;
use crate::color::{unpacked, Color};
use crate::framebuffer::{clip_first, clip_last, clip_span, Framebuffer};
use crate::texture::Texture;

verus! {

/// Texels with an alpha below this are not drawn.
pub const ALPHA_CUTOFF: u8 = 10;

/// The frames of a sprite's animation, in playing order.
#[derive(Clone)]
pub struct SpriteAnim {
    pub frames: Vec<Rc<Texture>>,
}

/// The frame that is shown at `tick`: the animation wraps around.
pub open spec fn spec_frame_index(tick: int, count: int) -> int {
    if count >= 1 {
        tick % count
    } else {
        0
    }
}

/// Index of the frame that is shown at `tick` in an animation of `count` frames.
pub fn frame_index(tick: usize, count: usize) -> (idx: usize)
    ensures
        idx == spec_frame_index(tick as int, count as int),
        count >= 1 ==> idx < count,
{
    let n: usize = if count >= 1 { count } else { 1 };
    tick % n
}

impl SpriteAnim {
    /// The frame that is shown at `tick`, counted in frames since the start.
    pub fn frame_at(&self, tick: usize) -> (tex: &Texture)
        requires
            self.frames.len() >= 1,
        ensures
            *tex == *self.frames[spec_frame_index(tick as int, self.frames.len() as int)],
    {
        let idx: usize = frame_index(tick, self.frames.len());
        &*self.frames[idx]
    }
}

/// Whether something at depth `depth` is hidden in column `x` by the wall
/// there: the wall is at least as near. A column without a depth entry hides
/// nothing.
pub open spec fn hidden_at(depth: u32, zbuf: Seq<u32>, x: int) -> bool {
    0 <= x < zbuf.len() && depth >= zbuf[x]
}

/// Tests a depth against the wall depth buffer in column `x`.
pub fn is_hidden_at(depth: u32, zbuf: &Vec<u32>, x: i32) -> (hidden: bool)
    requires
        0 <= x,
    ensures
        hidden == hidden_at(depth, zbuf@, x as int),
{
    (x as usize) < zbuf.len() && depth >= zbuf[x as usize]
}

/// A sprite projected to the screen: the rectangle it covers, how far it is,
/// and which texel each covered column and row shows.
pub struct Billboard<'a> {
    /// Sort key: distance from the viewer. A larger key is drawn earlier.
    pub distance: u32,
    /// Depth key: compared with the wall depth buffer, smaller is nearer.
    pub depth: u32,
    /// First and last screen column, before clipping.
    pub x0: i32,
    pub x1: i32,
    /// First and last screen row, before clipping.
    pub y0: i32,
    pub y1: i32,
    /// The animation frame that is shown.
    pub texture: &'a Texture,
    /// Texture column for each screen column, from the first clipped column.
    pub tex_cols: Vec<i32>,
    /// Texture row for each screen row, from the first clipped row.
    pub tex_rows: Vec<i32>,
}

impl<'a> Billboard<'a> {
    pub open spec fn first_col(&self) -> int {
        clip_first(self.x0 as int)
    }

    pub open spec fn last_col(&self, width: int) -> int {
        clip_last(self.x1 as int, width)
    }

    pub open spec fn first_row(&self) -> int {
        clip_first(self.y0 as int)
    }

    pub open spec fn last_row(&self, height: int) -> int {
        clip_last(self.y1 as int, height)
    }

    /// The billboard's texture can be sampled, and it names a texture column
    /// and row for every screen column and row that it covers.
    pub open spec fn wf(&self, width: int, height: int) -> bool {
        &&& self.texture.wf()
        &&& self.tex_cols.len() >= self.last_col(width) - self.first_col() + 1
        &&& self.tex_rows.len() >= self.last_row(height) - self.first_row() + 1
    }

    /// Whether pixel `(x, y)` lies in the clipped rectangle.
    pub open spec fn covers(&self, width: int, height: int, x: int, y: int) -> bool {
        &&& self.first_col() <= x <= self.last_col(width)
        &&& self.first_row() <= y <= self.last_row(height)
    }

    /// Whether a wall hides the billboard in column `x`: the wall there is at
    /// least as near. A column without a depth entry hides nothing.
    pub open spec fn occluded(&self, zbuf: Seq<u32>, x: int) -> bool {
        hidden_at(self.depth, zbuf, x)
    }

    /// The texel that the billboard shows at pixel `(x, y)`.
    pub open spec fn texel_at(&self, x: int, y: int) -> u32 {
        self.texture.spec_texel(
            self.tex_cols[x - self.first_col()] as int,
            self.tex_rows[y - self.first_row()] as int,
        )
    }

    /// Whether the billboard writes pixel `(x, y)`: it covers the pixel, no
    /// wall hides it there, and its texel is opaque enough.
    pub open spec fn shows(&self, zbuf: Seq<u32>, width: int, height: int, x: int, y: int) -> bool {
        &&& self.covers(width, height, x, y)
        &&& !self.occluded(zbuf, x)
        &&& unpacked(self.texel_at(x, y)).a >= ALPHA_CUTOFF
    }

    /// The colour of pixel `(x, y)` once the billboard was drawn over `under`.
    pub open spec fn over(
        &self,
        zbuf: Seq<u32>,
        width: int,
        height: int,
        x: int,
        y: int,
        under: Color,
    ) -> Color {
        if self.shows(zbuf, width, height, x, y) {
            unpacked(self.texel_at(x, y))
        } else {
            under
        }
    }

    /// The pen after the first `n` clipped rows of column `x` were drawn.
    pub open spec fn column_pen(
        &self,
        zbuf: Seq<u32>,
        width: int,
        height: int,
        x: int,
        n: int,
        pen: Color,
    ) -> Color
        decreases n,
    {
        if n <= 0 {
            pen
        } else {
            self.over(
                zbuf,
                width,
                height,
                x,
                self.first_row() + n - 1,
                self.column_pen(zbuf, width, height, x, n - 1, pen),
            )
        }
    }

    /// The pen after the first `n` clipped columns were drawn.
    pub open spec fn columns_pen(
        &self,
        zbuf: Seq<u32>,
        width: int,
        height: int,
        n: int,
        pen: Color,
    ) -> Color
        decreases n,
    {
        if n <= 0 {
            pen
        } else {
            self.column_pen(
                zbuf,
                width,
                height,
                self.first_col() + n - 1,
                self.last_row(height) - self.first_row() + 1,
                self.columns_pen(zbuf, width, height, n - 1, pen),
            )
        }
    }

    /// The pen after the whole billboard was drawn: the colour of the last
    /// pixel it wrote, column by column and top to bottom.
    pub open spec fn pen_after(&self, zbuf: Seq<u32>, width: int, height: int, pen: Color) -> Color {
        self.columns_pen(zbuf, width, height, self.last_col(width) - self.first_col() + 1, pen)
    }
}

/// The sort keys of the billboards, in their given order.
pub open spec fn distances(sprites: Seq<Billboard>) -> Seq<u32> {
    Seq::new(sprites.len(), |i: int| sprites[i].distance)
}

/// `order` lists every index of `keys` once, larger keys first, and equal
/// keys in the order of their indices.
pub open spec fn farther_first(keys: Seq<u32>, order: Seq<usize>) -> bool {
    &&& order.len() == keys.len()
    &&& forall|i: int| 0 <= i < order.len() ==> (#[trigger] order[i]) < keys.len()
    &&& forall|k: usize| k < keys.len() ==> #[trigger] order.contains(k)
    &&& forall|i: int, j: int|
        0 <= i < j < order.len() ==> keys[#[trigger] order[i] as int] > keys[#[trigger] order[j] as int] || (
        keys[order[i] as int] == keys[order[j] as int] && order[i] < order[j])
}

/// The colour of pixel `(x, y)` after the first `n` billboards of `order`
/// were drawn over `base`.
pub open spec fn composite(
    sprites: Seq<Billboard>,
    order: Seq<usize>,
    zbuf: Seq<u32>,
    width: int,
    height: int,
    n: int,
    x: int,
    y: int,
    base: Color,
) -> Color
    decreases n,
{
    if n <= 0 {
        base
    } else {
        sprites[order[n - 1] as int].over(
            zbuf,
            width,
            height,
            x,
            y,
            composite(sprites, order, zbuf, width, height, n - 1, x, y, base),
        )
    }
}

/// The pen after the first `n` billboards of `order` were drawn.
pub open spec fn sprites_pen(
    sprites: Seq<Billboard>,
    order: Seq<usize>,
    zbuf: Seq<u32>,
    width: int,
    height: int,
    n: int,
    pen: Color,
) -> Color
    decreases n,
{
    if n <= 0 {
        pen
    } else {
        sprites[order[n - 1] as int].pen_after(
            zbuf,
            width,
            height,
            sprites_pen(sprites, order, zbuf, width, height, n - 1, pen),
        )
    }
}

/// Whether index `p` comes before index `q` when drawing back to front.
pub open spec fn drawn_before(keys: Seq<u32>, p: int, q: int) -> bool {
    keys[p] > keys[q] || (keys[p] == keys[q] && p < q)
}

/// Sorts the indices of `keys` back to front: larger keys first, and equal
/// keys in the order in which they were given.
pub fn back_to_front(keys: &Vec<u32>) -> (order: Vec<usize>)
    ensures
        farther_first(keys@, order@),
{
    let mut order: Vec<usize> = Vec::new();
    let mut i: usize = 0;
    while i < keys.len()
        invariant
            i <= keys.len(),
            order.len() == i,
            forall|a: int| 0 <= a < i ==> (#[trigger] order[a]) < i,
            forall|k: usize| k < i ==> #[trigger] order@.contains(k),
            forall|a: int, b: int|
                0 <= a < b < i ==> drawn_before(
                    keys@,
                    #[trigger] order[a] as int,
                    #[trigger] order[b] as int,
                ),
        decreases keys.len() - i,
    {
        let mut pos: usize = 0;
        while pos < order.len() && keys[order[pos]] >= keys[i]
            invariant
                i < keys.len(),
                order.len() == i,
                pos <= order.len(),
                forall|a: int| 0 <= a < i ==> (#[trigger] order[a]) < i,
                forall|a: int| 0 <= a < pos ==> keys[(#[trigger] order[a]) as int] >= keys[i as int],
            decreases order.len() - pos,
        {
            pos += 1;
        }
        let ghost before = order@;
        order.insert(pos, i);
        proof {
            let after = order@;
            assert forall|k: usize| k < i + 1 implies #[trigger] after.contains(k) by {
                if k == i {
                    assert(after[pos as int] == k);
                } else {
                    assert(before.contains(k));
                    let j = choose|j: int| 0 <= j < before.len() && before[j] == k;
                    if j < pos {
                        assert(after[j] == k);
                    } else {
                        assert(after[j + 1] == k);
                    }
                }
            }
            assert forall|a: int, b: int| 0 <= a < b < i + 1 implies drawn_before(
                keys@,
                #[trigger] after[a] as int,
                #[trigger] after[b] as int,
            ) by {
                if b < pos {
                    assert(after[a] == before[a] && after[b] == before[b]);
                } else if b == pos {
                    assert(after[a] == before[a]);
                } else if a < pos {
                    assert(after[a] == before[a] && after[b] == before[b - 1]);
                } else if a == pos {
                    assert(after[b] == before[b - 1]);
                    if b - 1 > pos {
                        assert(drawn_before(keys@, before[pos as int] as int, before[b - 1] as int));
                    }
                } else {
                    assert(after[a] == before[a - 1] && after[b] == before[b - 1]);
                }
            }
        }
        i += 1;
    }
    order
}

/// Two back-to-front orders of the same keys agree on their first `n` places.
proof fn lemma_orders_agree(keys: Seq<u32>, o1: Seq<usize>, o2: Seq<usize>, n: int)
    requires
        farther_first(keys, o1),
        farther_first(keys, o2),
        0 <= n <= keys.len(),
    ensures
        forall|i: int| 0 <= i < n ==> o1[i] == o2[i],
    decreases n,
{
    if n > 0 {
        lemma_orders_agree(keys, o1, o2, n - 1);
        let i = n - 1;
        let p = o1[i];
        let q = o2[i];
        if p != q {
            assert(o2.contains(p));
            let j = choose|j: int| 0 <= j < o2.len() && o2[j] == p;
            assert(o1.contains(q));
            let k = choose|k: int| 0 <= k < o1.len() && o1[k] == q;
            if j < i {
                assert(o1[j] == p);
                assert(drawn_before(keys, o1[j] as int, o1[i] as int));
            } else if k < i {
                assert(o2[k] == q);
                assert(drawn_before(keys, o2[k] as int, o2[i] as int));
            } else {
                assert(drawn_before(keys, o2[i] as int, o2[j] as int));
                assert(drawn_before(keys, o1[i] as int, o1[k] as int));
            }
        }
    }
}

/// There is only one back-to-front order of given keys.
pub proof fn lemma_farther_first_unique(keys: Seq<u32>, o1: Seq<usize>, o2: Seq<usize>)
    requires
        farther_first(keys, o1),
        farther_first(keys, o2),
    ensures
        o1 == o2,
{
    lemma_orders_agree(keys, o1, o2, keys.len() as int);
    assert(o1 =~= o2);
}

/// A billboard that the walls hide in every column that it covers changes no
/// pixel.
pub proof fn lemma_occluded_changes_nothing(
    b: Billboard,
    zbuf: Seq<u32>,
    width: int,
    height: int,
    x: int,
    y: int,
    under: Color,
)
    requires
        forall|c: int| b.first_col() <= c <= b.last_col(width) ==> b.occluded(zbuf, c),
    ensures
        b.over(zbuf, width, height, x, y, under) == under,
{
}

/// Billboards that the walls hide in every column that they cover change no
/// pixel, however many of them are drawn.
pub proof fn lemma_hidden_sprites_change_nothing(
    sprites: Seq<Billboard>,
    order: Seq<usize>,
    zbuf: Seq<u32>,
    width: int,
    height: int,
    n: int,
    x: int,
    y: int,
    base: Color,
)
    requires
        0 <= n <= order.len(),
        forall|i: int| 0 <= i < order.len() ==> (#[trigger] order[i]) < sprites.len(),
        forall|k: int, c: int|
            0 <= k < sprites.len() && sprites[k].first_col() <= c <= sprites[k].last_col(width)
                ==> #[trigger] sprites[k].occluded(zbuf, c),
    ensures
        composite(sprites, order, zbuf, width, height, n, x, y, base) == base,
    decreases n,
{
    if n > 0 {
        lemma_hidden_sprites_change_nothing(sprites, order, zbuf, width, height, n - 1, x, y, base);
        let b = sprites[order[n - 1] as int];
        if b.first_col() <= x <= b.last_col(width) {
            assert(b.occluded(zbuf, x));
        }
    }
}

/// Where the one billboard that is nearer than all others shows a texel, the
/// pixel ends with that texel's colour, in whatever order the billboards were
/// given: the nearest is drawn last.
pub proof fn lemma_nearest_shows(
    sprites: Seq<Billboard>,
    order: Seq<usize>,
    zbuf: Seq<u32>,
    width: int,
    height: int,
    k: usize,
    x: int,
    y: int,
    base: Color,
)
    requires
        farther_first(distances(sprites), order),
        k < sprites.len(),
        forall|j: int| 0 <= j < sprites.len() && j != k ==> (#[trigger] sprites[j]).distance > sprites[k as int].distance,
        sprites[k as int].shows(zbuf, width, height, x, y),
    ensures
        composite(sprites, order, zbuf, width, height, sprites.len() as int, x, y, base) == unpacked(
            sprites[k as int].texel_at(x, y),
        ),
{
    let keys = distances(sprites);
    let n = sprites.len() as int;
    assert(order.contains(k));
    let at = choose|at: int| 0 <= at < order.len() && order[at] == k;
    assert(keys.len() == n && order.len() == n);
    if at < n - 1 {
        let other = order[n - 1] as int;
        assert(0 <= other < n);
        assert(drawn_before(keys, order[at] as int, order[n - 1] as int));
        assert(keys[other] == sprites[other].distance && keys[k as int] == sprites[k as int].distance);
        if other != k {
            assert(sprites[other].distance > sprites[k as int].distance);
        }
        assert(false);
    }
    assert(order[n - 1] == k);
    assert(composite(sprites, order, zbuf, width, height, n, x, y, base) == sprites[k as int].over(
        zbuf,
        width,
        height,
        x,
        y,
        composite(sprites, order, zbuf, width, height, n - 1, x, y, base),
    ));
}

/// Draws the rows of one screen column of a billboard, unless a wall hides
/// the billboard there.
pub fn draw_billboard_column(
    framebuffer: &mut Framebuffer,
    sprite: &Billboard,
    zbuf: &Vec<u32>,
    xs: i32,
)
    requires
        old(framebuffer).spec_width() <= i32::MAX,
        old(framebuffer).spec_height() <= i32::MAX,
        sprite.wf(old(framebuffer).spec_width() as int, old(framebuffer).spec_height() as int),
        sprite.first_col() <= xs <= sprite.last_col(old(framebuffer).spec_width() as int),
    ensures
        final(framebuffer).spec_width() == old(framebuffer).spec_width(),
        final(framebuffer).spec_height() == old(framebuffer).spec_height(),
        final(framebuffer).pen() == sprite.column_pen(
            zbuf@,
            old(framebuffer).spec_width() as int,
            old(framebuffer).spec_height() as int,
            xs as int,
            sprite.last_row(old(framebuffer).spec_height() as int) - sprite.first_row() + 1,
            old(framebuffer).pen(),
        ),
        forall|px: int, py: int|
            0 <= px < old(framebuffer).spec_width() && 0 <= py < old(framebuffer).spec_height()
                ==> #[trigger] final(framebuffer).pixel(px, py) == if px == xs {
                sprite.over(
                    zbuf@,
                    old(framebuffer).spec_width() as int,
                    old(framebuffer).spec_height() as int,
                    px,
                    py,
                    old(framebuffer).pixel(px, py),
                )
            } else {
                old(framebuffer).pixel(px, py)
            },
{
    let ghost w = framebuffer.spec_width() as int;
    let ghost h = framebuffer.spec_height() as int;
    let xa: i32 = clip_span(sprite.x0, sprite.x1, framebuffer.width()).0;
    let (ya, yb) = clip_span(sprite.y0, sprite.y1, framebuffer.height());
    if is_hidden_at(sprite.depth, zbuf, xs) {
        proof {
            lemma_hidden_column_pen(*sprite, zbuf@, w, h, xs as int, yb - ya + 1, framebuffer.pen());
        }
        return ;
    }
    let tx: i32 = sprite.tex_cols[(xs - xa) as usize];
    let mut ys: i32 = ya;
    while ys <= yb
        invariant
            w == framebuffer.spec_width() == old(framebuffer).spec_width(),
            h == framebuffer.spec_height() == old(framebuffer).spec_height(),
            w <= i32::MAX,
            h <= i32::MAX,
            xa == sprite.first_col(),
            ya == sprite.first_row(),
            yb == sprite.last_row(h),
            xa <= xs <= sprite.last_col(w),
            sprite.wf(w, h),
            !sprite.occluded(zbuf@, xs as int),
            tx == sprite.tex_cols[xs - xa],
            ya <= ys,
            ys <= yb + 1 || ys == ya,
            framebuffer.pen() == sprite.column_pen(zbuf@, w, h, xs as int, ys - ya, old(framebuffer).pen()),
            forall|px: int, py: int|
                0 <= px < w && 0 <= py < h ==> #[trigger] framebuffer.pixel(px, py) == if px == xs
                    && py < ys {
                    sprite.over(zbuf@, w, h, px, py, old(framebuffer).pixel(px, py))
                } else {
                    old(framebuffer).pixel(px, py)
                },
        decreases yb + 1 - ys,
    {
        let ty: i32 = sprite.tex_rows[(ys - ya) as usize];
        let pix: u32 = sprite.texture.texel_clamped(tx, ty);
        let c = Color::from_argb(pix);
        if c.a >= ALPHA_CUTOFF {
            framebuffer.set_current_color(c);
            framebuffer.set_pixel(xs as u32, ys as u32);
        }
        ys += 1;
    }
}

/// The pen does not change in a column where a wall hides the billboard.
proof fn lemma_hidden_column_pen(
    b: Billboard,
    zbuf: Seq<u32>,
    width: int,
    height: int,
    x: int,
    n: int,
    pen: Color,
)
    requires
        b.occluded(zbuf, x),
    ensures
        b.column_pen(zbuf, width, height, x, n, pen) == pen,
    decreases n,
{
    if n > 0 {
        lemma_hidden_column_pen(b, zbuf, width, height, x, n - 1, pen);
    }
}

/// Draws a billboard over what the framebuffer holds: column by column, each
/// from top to bottom.
pub fn draw_billboard(framebuffer: &mut Framebuffer, sprite: &Billboard, zbuf: &Vec<u32>)
    requires
        old(framebuffer).spec_width() <= i32::MAX,
        old(framebuffer).spec_height() <= i32::MAX,
        sprite.wf(old(framebuffer).spec_width() as int, old(framebuffer).spec_height() as int),
    ensures
        final(framebuffer).spec_width() == old(framebuffer).spec_width(),
        final(framebuffer).spec_height() == old(framebuffer).spec_height(),
        final(framebuffer).pen() == sprite.pen_after(
            zbuf@,
            old(framebuffer).spec_width() as int,
            old(framebuffer).spec_height() as int,
            old(framebuffer).pen(),
        ),
        forall|px: int, py: int|
            0 <= px < old(framebuffer).spec_width() && 0 <= py < old(framebuffer).spec_height()
                ==> #[trigger] final(framebuffer).pixel(px, py) == sprite.over(
                zbuf@,
                old(framebuffer).spec_width() as int,
                old(framebuffer).spec_height() as int,
                px,
                py,
                old(framebuffer).pixel(px, py),
            ),
{
    let ghost w = framebuffer.spec_width() as int;
    let ghost h = framebuffer.spec_height() as int;
    let (xa, xb) = clip_span(sprite.x0, sprite.x1, framebuffer.width());
    let mut xs: i32 = xa;
    while xs <= xb
        invariant
            w == framebuffer.spec_width() == old(framebuffer).spec_width(),
            h == framebuffer.spec_height() == old(framebuffer).spec_height(),
            w <= i32::MAX,
            h <= i32::MAX,
            xa == sprite.first_col(),
            xb == sprite.last_col(w),
            sprite.wf(w, h),
            xa <= xs,
            xs <= xb + 1 || xs == xa,
            framebuffer.pen() == sprite.columns_pen(zbuf@, w, h, xs - xa, old(framebuffer).pen()),
            forall|px: int, py: int|
                0 <= px < w && 0 <= py < h ==> #[trigger] framebuffer.pixel(px, py) == if px < xs {
                    sprite.over(zbuf@, w, h, px, py, old(framebuffer).pixel(px, py))
                } else {
                    old(framebuffer).pixel(px, py)
                },
        decreases xb + 1 - xs,
    {
        draw_billboard_column(framebuffer, sprite, zbuf, xs);
        xs += 1;
    }
}

/// Draws the billboards in the given order, each over the ones before it.
pub fn draw_billboards(
    framebuffer: &mut Framebuffer,
    sprites: &Vec<Billboard>,
    order: &Vec<usize>,
    zbuf: &Vec<u32>,
)
    requires
        old(framebuffer).spec_width() <= i32::MAX,
        old(framebuffer).spec_height() <= i32::MAX,
        forall|k: int|
            0 <= k < sprites.len() ==> (#[trigger] sprites[k]).wf(
                old(framebuffer).spec_width() as int,
                old(framebuffer).spec_height() as int,
            ),
        forall|i: int| 0 <= i < order.len() ==> (#[trigger] order[i]) < sprites.len(),
    ensures
        final(framebuffer).spec_width() == old(framebuffer).spec_width(),
        final(framebuffer).spec_height() == old(framebuffer).spec_height(),
        final(framebuffer).pen() == sprites_pen(
            sprites@,
            order@,
            zbuf@,
            old(framebuffer).spec_width() as int,
            old(framebuffer).spec_height() as int,
            order.len() as int,
            old(framebuffer).pen(),
        ),
        forall|px: int, py: int|
            0 <= px < old(framebuffer).spec_width() && 0 <= py < old(framebuffer).spec_height()
                ==> #[trigger] final(framebuffer).pixel(px, py) == composite(
                sprites@,
                order@,
                zbuf@,
                old(framebuffer).spec_width() as int,
                old(framebuffer).spec_height() as int,
                order.len() as int,
                px,
                py,
                old(framebuffer).pixel(px, py),
            ),
{
    let ghost w = framebuffer.spec_width() as int;
    let ghost h = framebuffer.spec_height() as int;
    let mut n: usize = 0;
    while n < order.len()
        invariant
            n <= order.len(),
            w == framebuffer.spec_width() == old(framebuffer).spec_width(),
            h == framebuffer.spec_height() == old(framebuffer).spec_height(),
            w <= i32::MAX,
            h <= i32::MAX,
            forall|k: int| 0 <= k < sprites.len() ==> (#[trigger] sprites[k]).wf(w, h),
            forall|i: int| 0 <= i < order.len() ==> (#[trigger] order[i]) < sprites.len(),
            framebuffer.pen() == sprites_pen(sprites@, order@, zbuf@, w, h, n as int, old(framebuffer).pen()),
            forall|px: int, py: int|
                0 <= px < w && 0 <= py < h ==> #[trigger] framebuffer.pixel(px, py) == composite(
                    sprites@,
                    order@,
                    zbuf@,
                    w,
                    h,
                    n as int,
                    px,
                    py,
                    old(framebuffer).pixel(px, py),
                ),
        decreases order.len() - n,
    {
        draw_billboard(framebuffer, &sprites[order[n]], zbuf);
        n += 1;
    }
}

/// The sprite pass of one frame: sorts the billboards back to front by their
/// distance and draws them in that order over the walls, so that a nearer
/// billboard covers a farther one.
pub fn render_sprites(framebuffer: &mut Framebuffer, sprites: &Vec<Billboard>, zbuf: &Vec<u32>)
    requires
        old(framebuffer).spec_width() <= i32::MAX,
        old(framebuffer).spec_height() <= i32::MAX,
        forall|k: int|
            0 <= k < sprites.len() ==> (#[trigger] sprites[k]).wf(
                old(framebuffer).spec_width() as int,
                old(framebuffer).spec_height() as int,
            ),
    ensures
        final(framebuffer).spec_width() == old(framebuffer).spec_width(),
        final(framebuffer).spec_height() == old(framebuffer).spec_height(),
        exists|order: Seq<usize>|
            {
                &&& farther_first(distances(sprites@), order)
                &&& final(framebuffer).pen() == sprites_pen(
                    sprites@,
                    order,
                    zbuf@,
                    old(framebuffer).spec_width() as int,
                    old(framebuffer).spec_height() as int,
                    sprites.len() as int,
                    old(framebuffer).pen(),
                )
                &&& forall|px: int, py: int|
                    0 <= px < old(framebuffer).spec_width() && 0 <= py < old(framebuffer).spec_height()
                        ==> #[trigger] final(framebuffer).pixel(px, py) == composite(
                        sprites@,
                        order,
                        zbuf@,
                        old(framebuffer).spec_width() as int,
                        old(framebuffer).spec_height() as int,
                        sprites.len() as int,
                        px,
                        py,
                        old(framebuffer).pixel(px, py),
                    )
            },
{
    let mut keys: Vec<u32> = Vec::with_capacity(sprites.len());
    let mut i: usize = 0;
    while i < sprites.len()
        invariant
            i <= sprites.len(),
            keys.len() == i,
            forall|k: int| 0 <= k < i ==> keys[k] == (#[trigger] sprites[k]).distance,
        decreases sprites.len() - i,
    {
        keys.push(sprites[i].distance);
        i += 1;
    }
    assert(keys@ =~= distances(sprites@));
    let order = back_to_front(&keys);
    draw_billboards(framebuffer, sprites, &order, zbuf);
}

} // verus!
