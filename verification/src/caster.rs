//! Ray marching: what a ray meets at each point that it samples.

use vstd::prelude::*;
use crate::framebuffer::Framebuffer;
use crate::maze::{obstacle, row_reaches, spec_sample, Maze, FLOOR};

verus! {

/// World units between two samples of a ray.
pub const RAY_STEP: u32 = 10;

/// One sample of a ray at the world point `(x, y)`. Returns what stops the
/// ray there: a wall tile, or `' '` where the ray has left the grid, on
/// whichever side. Where nothing stops it the result is `None`, and with
/// `draw_line` set the sample is marked on the overlay in the pen colour.
pub fn cast_step(
    framebuffer: &mut Framebuffer,
    maze: &Maze,
    x: isize,
    y: isize,
    block_size: usize,
    draw_line: bool,
) -> (hit: Option<char>)
    requires
        block_size >= 1,
        x >= 0 && y >= 0 ==> row_reaches(maze@, x as int, y as int, block_size as int),
    ensures
        hit == spec_sample(maze@, x as int, y as int, block_size as int),
        final(framebuffer).spec_width() == old(framebuffer).spec_width(),
        final(framebuffer).spec_height() == old(framebuffer).spec_height(),
        final(framebuffer).pen() == old(framebuffer).pen(),
        forall|px: int, py: int|
            0 <= px < old(framebuffer).spec_width() && 0 <= py < old(framebuffer).spec_height()
                ==> #[trigger] final(framebuffer).pixel(px, py) == if hit is None && draw_line && px == x as u32
                && py == y as u32 {
                old(framebuffer).pen()
            } else {
                old(framebuffer).pixel(px, py)
            },
{
    if x < 0 || y < 0 {
        return Some(FLOOR);
    }
    let hit = obstacle(maze, x as usize, y as usize, block_size);
    if hit.is_none() && draw_line {
        framebuffer.set_pixel(
            #[verifier::truncate]
            (x as u32),
            #[verifier::truncate]
            (y as u32),
        );
    }
    hit
}

} // verus!
