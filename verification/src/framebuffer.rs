//! The pixel grid that every raster pass draws into.

use vstd::prelude::*;
use crate::color::Color;

verus! {

/// A `width` x `height` grid of colours in row-major order, with a pen colour
/// that `set_pixel` writes.
pub struct Framebuffer {
    width: u32,
    height: u32,
    buffer: Vec<Color>,
    current_color: Color,
}

/// `old` cut down or padded with black to `len` pixels.
pub open spec fn resized(old: Seq<Color>, len: nat) -> Seq<Color> {
    Seq::new(len, |i: int| if i < old.len() { old[i] } else { Color::black() })
}

/// Two cells of a row-major grid with the same index are the same cell.
pub proof fn lemma_cell_index_injective(w: int, x1: int, y1: int, x2: int, y2: int)
    requires
        0 <= x1 < w,
        0 <= x2 < w,
        0 <= y1,
        0 <= y2,
        y1 * w + x1 == y2 * w + x2,
    ensures
        x1 == x2,
        y1 == y2,
{
    assert(y1 == y2) by (nonlinear_arith)
        requires
            0 <= x1 < w,
            0 <= x2 < w,
            0 <= y1,
            0 <= y2,
            y1 * w + x1 == y2 * w + x2,
    ;
}

/// First index of the span `first..=last` that lies on a screen.
pub open spec fn clip_first(first: int) -> int {
    if first > 0 {
        first
    } else {
        0
    }
}

/// Last index of the span `first..=last` that lies on a screen `size` long.
pub open spec fn clip_last(last: int, size: int) -> int {
    if last < size - 1 {
        last
    } else {
        size - 1
    }
}

/// Clips the span `first..=last` of rows or columns to a screen `size` long.
/// The result is empty, its first index above its last, where the span
/// misses the screen.
pub fn clip_span(first: i32, last: i32, size: u32) -> (span: (i32, i32))
    requires
        size <= i32::MAX,
    ensures
        span.0 == clip_first(first as int),
        span.1 == clip_last(last as int, size as int),
{
    let size: i32 = size as i32;
    let lo: i32 = if first > 0 { first } else { 0 };
    let hi: i32 = if last < size - 1 { last } else { size - 1 };
    (lo, hi)
}

impl View for Framebuffer {
    type V = Seq<Color>;

    /// The pixels, row after row.
    closed spec fn view(&self) -> Seq<Color> {
        self.buffer@
    }
}

impl Framebuffer {
    /// Holds of every framebuffer: the storage matches the dimensions.
    #[verifier::type_invariant]
    pub closed spec fn well_formed(self) -> bool {
        &&& self.width * self.height <= u32::MAX
        &&& self.buffer.len() == self.width * self.height
    }

    pub closed spec fn spec_width(&self) -> u32 {
        self.width
    }

    pub closed spec fn spec_height(&self) -> u32 {
        self.height
    }

    /// The colour that `set_pixel` writes.
    pub closed spec fn pen(&self) -> Color {
        self.current_color
    }

    /// The colour at column `x` of row `y`.
    pub open spec fn pixel(&self, x: int, y: int) -> Color
        recommends
            0 <= x < self.spec_width(),
            0 <= y < self.spec_height(),
    {
        self@[y * self.spec_width() + x]
    }

    /// A well-formed framebuffer holds exactly `width * height` pixels.
    pub proof fn lemma_len(self)
        requires
            self.well_formed(),
        ensures
            self.spec_width() * self.spec_height() <= u32::MAX,
            self@.len() == self.spec_width() * self.spec_height(),
    {
    }

    /// A black framebuffer with a white pen.
    pub fn new(width: u32, height: u32) -> (fb: Self)
        requires
            width * height <= u32::MAX,
        ensures
            fb.spec_width() == width,
            fb.spec_height() == height,
            fb.pen() == Color::white(),
            fb@ == Seq::new((width * height) as nat, |i: int| Color::black()),
    {
        let len: u32 = width * height;
        let buffer = vec![Color::black(); len as usize];
        Framebuffer { width, height, buffer, current_color: Color::white() }
    }

    #[verifier::when_used_as_spec(spec_width)]
    pub fn width(&self) -> (w: u32)
        ensures
            w == self.spec_width(),
    {
        self.width
    }

    #[verifier::when_used_as_spec(spec_height)]
    pub fn height(&self) -> (h: u32)
        ensures
            h == self.spec_height(),
    {
        self.height
    }

    /// Changes the dimensions. The pixel storage is cut or padded with black
    /// at its end; the pixels that stay keep their index, not their place.
    pub fn resize(&mut self, w: u32, h: u32)
        requires
            w * h <= u32::MAX,
        ensures
            final(self).spec_width() == w,
            final(self).spec_height() == h,
            final(self).pen() == old(self).pen(),
            final(self)@ == resized(old(self)@, (w * h) as nat),
    {
        let len: usize = (w * h) as usize;
        let kept: usize = self.buffer.len();
        let mut buffer: Vec<Color> = Vec::with_capacity(len);
        let mut i: usize = 0;
        while i < len
            invariant
                i <= len,
                kept == self.buffer.len(),
                buffer.len() == i,
                forall|k: int| 0 <= k < i ==> buffer[k] == resized(self.buffer@, len as nat)[k],
            decreases len - i,
        {
            let c = if i < kept {
                self.buffer[i]
            } else {
                Color::black()
            };
            buffer.push(c);
            i += 1;
        }
        *self = Framebuffer { width: w, height: h, buffer, current_color: self.current_color };
    }

    pub fn set_current_color(&mut self, color: Color)
        ensures
            final(self).pen() == color,
            final(self)@ == old(self)@,
            final(self).spec_width() == old(self).spec_width(),
            final(self).spec_height() == old(self).spec_height(),
            forall|px: int, py: int| #[trigger] final(self).pixel(px, py) == old(self).pixel(px, py),
    {
        proof {
            use_type_invariant(&*self);
        }
        self.current_color = color;
    }

    /// Writes the pen at `(x, y)`; a point outside the grid is ignored.
    pub fn set_pixel(&mut self, x: u32, y: u32)
        ensures
            final(self).pen() == old(self).pen(),
            final(self).spec_width() == old(self).spec_width(),
            final(self).spec_height() == old(self).spec_height(),
            x < old(self).spec_width() && y < old(self).spec_height() ==> final(self)@ == old(
                self,
            )@.update(y * old(self).spec_width() + x, old(self).pen()),
            !(x < old(self).spec_width() && y < old(self).spec_height()) ==> final(self)@ == old(
                self,
            )@,
            forall|px: int, py: int|
                0 <= px < old(self).spec_width() && 0 <= py < old(self).spec_height()
                    ==> #[trigger] final(self).pixel(px, py) == if px == x && py == y {
                    old(self).pen()
                } else {
                    old(self).pixel(px, py)
                },
    {
        proof {
            use_type_invariant(&*self);
        }
        if x < self.width && y < self.height {
            assert(y * self.width + x < self.width * self.height) by (nonlinear_arith)
                requires
                    x < self.width,
                    y < self.height,
            ;
            let idx: usize = (y * self.width + x) as usize;
            self.buffer[idx] = self.current_color;
            proof {
                assert forall|px: int, py: int|
                    0 <= px < self.width && 0 <= py < self.height implies #[trigger] self.pixel(
                    px,
                    py,
                ) == if px == x && py == y {
                    old(self).pen()
                } else {
                    old(self).pixel(px, py)
                } by {
                    if py * self.width + px == y * self.width + x {
                        lemma_cell_index_injective(self.width as int, px, py, x as int, y as int);
                    }
                    assert(0 <= py * self.width + px < self.width * self.height)
                        by (nonlinear_arith)
                        requires
                            0 <= px < self.width,
                            0 <= py < self.height,
                    ;
                }
            }
        }
    }

    /// Fills the whole grid with `color`.
    pub fn clear(&mut self, color: Color)
        ensures
            final(self).pen() == old(self).pen(),
            final(self).spec_width() == old(self).spec_width(),
            final(self).spec_height() == old(self).spec_height(),
            final(self)@ == Seq::new(old(self)@.len(), |i: int| color),
    {
        proof {
            use_type_invariant(&*self);
        }
        let n: usize = self.buffer.len();
        let mut i: usize = 0;
        while i < n
            invariant
                i <= n,
                n == self.buffer.len(),
                self.buffer.len() == old(self).buffer.len(),
                n == self.width * self.height <= u32::MAX,
                self.width == old(self).width,
                self.height == old(self).height,
                self.current_color == old(self).current_color,
                forall|k: int| 0 <= k < i ==> self.buffer[k] == color,
            decreases n - i,
        {
            self.buffer[i] = color;
            i += 1;
        }
    }

    /// The colour at `(x, y)`, or `None` outside the grid.
    pub fn get_pixel(&self, x: u32, y: u32) -> (c: Option<Color>)
        ensures
            c == if x < self.spec_width() && y < self.spec_height() {
                Some(self.pixel(x as int, y as int))
            } else {
                None
            },
    {
        proof {
            use_type_invariant(self);
        }
        if x < self.width && y < self.height {
            assert(y * self.width + x < self.width * self.height) by (nonlinear_arith)
                requires
                    x < self.width,
                    y < self.height,
            ;
            let idx: usize = (y * self.width + x) as usize;
            Some(self.buffer[idx])
        } else {
            None
        }
    }
}

} // verus!
