//! The minimap: where it stands on the screen and how each tile is coloured.

use vstd::prelude::*;
use crate::color::Color;

verus! {

/// The screen corner that the minimap is drawn in.
#[derive(Clone, Copy, Debug, PartialEq, Eq, Structural)]
pub enum Corner {
    TopLeft,
    TopRight,
    BottomLeft,
    BottomRight,
}

/// How the minimap is laid out.
#[derive(Clone, Copy, Debug)]
pub struct MiniMapOpts {
    /// Side of one tile of the minimap, in pixels.
    pub tile: i32,
    /// Distance from the edges of the screen, in pixels.
    pub margin: i32,
    /// The corner to draw in.
    pub corner: Corner,
}

/// Where the minimap stands: its top left pixel and its size in pixels.
#[derive(Clone, Copy, Debug, PartialEq, Eq, Structural)]
pub struct MiniMapLayout {
    pub x0: i32,
    pub y0: i32,
    pub map_w: i32,
    pub map_h: i32,
}

/// Pixels between the map and the frame around it.
pub const FRAME_PAD: i32 = 3;

/// Whether `v` is the value of an `i32`.
pub open spec fn fits(v: int) -> bool {
    i32::MIN <= v <= i32::MAX
}

/// The left edge of a map `map_w` wide.
pub open spec fn spec_left(opts: MiniMapOpts, map_w: int, screen_w: int) -> int {
    match opts.corner {
        Corner::TopLeft | Corner::BottomLeft => opts.margin as int,
        Corner::TopRight | Corner::BottomRight => screen_w - opts.margin - map_w,
    }
}

/// The top edge of a map `map_h` high.
pub open spec fn spec_top(opts: MiniMapOpts, map_h: int, screen_h: int) -> int {
    match opts.corner {
        Corner::TopLeft | Corner::TopRight => opts.margin as int,
        Corner::BottomLeft | Corner::BottomRight => screen_h - opts.margin - map_h,
    }
}

/// Whether an edge at `start`, its frame, and the tiles laid from it can be
/// computed in `i32`: `count` tiles of side `tile`, `extent` in all.
pub open spec fn span_fits(start: int, extent: int, tile: int, count: int, both: bool) -> bool {
    &&& fits(extent)
    &&& fits(start)
    &&& fits(start - FRAME_PAD)
    &&& fits(extent + 2 * FRAME_PAD)
    &&& both ==> fits(start + (count - 1) * tile)
}

/// The layout of a minimap of `w_cells` x `h_cells` tiles on a screen of
/// `screen_w` x `screen_h` pixels; `None` where a coordinate of the map, of
/// its frame or of one of its tiles is not the value of an `i32`.
pub open spec fn spec_layout(
    opts: MiniMapOpts,
    w_cells: int,
    h_cells: int,
    screen_w: int,
    screen_h: int,
) -> Option<MiniMapLayout> {
    let map_w = w_cells * opts.tile;
    let map_h = h_cells * opts.tile;
    let x0 = spec_left(opts, map_w, screen_w);
    let y0 = spec_top(opts, map_h, screen_h);
    let both = w_cells >= 1 && h_cells >= 1;
    let right = opts.corner == Corner::TopRight || opts.corner == Corner::BottomRight;
    let bottom = opts.corner == Corner::BottomLeft || opts.corner == Corner::BottomRight;
    if span_fits(x0, map_w, opts.tile as int, w_cells, both) && span_fits(
        y0,
        map_h,
        opts.tile as int,
        h_cells,
        both,
    ) && (right ==> fits(screen_w - opts.margin)) && (bottom ==> fits(screen_h - opts.margin)) {
        Some(MiniMapLayout { x0: x0 as i32, y0: y0 as i32, map_w: map_w as i32, map_h: map_h as i32 })
    } else {
        None
    }
}

/// Whether the `i64` value `v` is the value of an `i32`.
fn in_range(v: i64) -> (b: bool)
    ensures
        b == fits(v as int),
{
    -2147483648 <= v && v <= 2147483647
}

/// Checks one axis of the layout.
fn span_in_range(start: i64, extent: i64, tile: i32, count: i32, both: bool) -> (b: bool)
    requires
        -0x5000_0000_0000_0000 <= start <= 0x5000_0000_0000_0000,
        -0x4000_0000_0000_0000 <= extent <= 0x4000_0000_0000_0000,
    ensures
        b == span_fits(start as int, extent as int, tile as int, count as int, both),
{
    assert(-0x8000_0000 * 0x8000_0000 <= (count - 1) * tile <= 0x8000_0001 * 0x8000_0000)
        by (nonlinear_arith)
        requires
            -0x8000_0000 <= tile <= 0x7fff_ffff,
            -0x8000_0001 <= count - 1 <= 0x7fff_fffe,
    ;
    in_range(extent) && in_range(start) && in_range(start - FRAME_PAD as i64) && in_range(
        extent + 2 * FRAME_PAD as i64,
    ) && (!both || in_range(start + (count as i64 - 1) * tile as i64))
}

/// Lays the minimap out in its corner of the screen.
pub fn layout(opts: &MiniMapOpts, w_cells: i32, h_cells: i32, screen_w: i32, screen_h: i32) -> (l: Option<
    MiniMapLayout,
>)
    ensures
        l == spec_layout(*opts, w_cells as int, h_cells as int, screen_w as int, screen_h as int),
{
    assert(-0x8000_0000 * 0x8000_0000 <= w_cells * opts.tile <= 0x8000_0000 * 0x8000_0000)
        by (nonlinear_arith)
        requires
            -0x8000_0000 <= opts.tile <= 0x7fff_ffff,
            -0x8000_0000 <= w_cells <= 0x7fff_ffff,
    ;
    assert(-0x8000_0000 * 0x8000_0000 <= h_cells * opts.tile <= 0x8000_0000 * 0x8000_0000)
        by (nonlinear_arith)
        requires
            -0x8000_0000 <= opts.tile <= 0x7fff_ffff,
            -0x8000_0000 <= h_cells <= 0x7fff_ffff,
    ;
    let map_w: i64 = w_cells as i64 * opts.tile as i64;
    let map_h: i64 = h_cells as i64 * opts.tile as i64;
    let right: bool = match opts.corner {
        Corner::TopRight | Corner::BottomRight => true,
        _ => false,
    };
    let bottom: bool = match opts.corner {
        Corner::BottomLeft | Corner::BottomRight => true,
        _ => false,
    };
    let x0: i64 = if right {
        screen_w as i64 - opts.margin as i64 - map_w
    } else {
        opts.margin as i64
    };
    let y0: i64 = if bottom {
        screen_h as i64 - opts.margin as i64 - map_h
    } else {
        opts.margin as i64
    };
    let both: bool = w_cells >= 1 && h_cells >= 1;
    if span_in_range(x0, map_w, opts.tile, w_cells, both) && span_in_range(
        y0,
        map_h,
        opts.tile,
        h_cells,
        both,
    ) && (!right || in_range(screen_w as i64 - opts.margin as i64)) && (!bottom || in_range(
        screen_h as i64 - opts.margin as i64,
    )) {
        Some(MiniMapLayout { x0: x0 as i32, y0: y0 as i32, map_w: map_w as i32, map_h: map_h as i32 })
    } else {
        None
    }
}

impl MiniMapLayout {
    /// The frame around the map: left, top, width and height.
    pub fn frame(&self) -> (r: (i32, i32, i32, i32))
        requires
            fits(self.x0 - FRAME_PAD),
            fits(self.y0 - FRAME_PAD),
            fits(self.map_w + 2 * FRAME_PAD),
            fits(self.map_h + 2 * FRAME_PAD),
        ensures
            r == (
                (self.x0 - FRAME_PAD) as i32,
                (self.y0 - FRAME_PAD) as i32,
                (self.map_w + 2 * FRAME_PAD) as i32,
                (self.map_h + 2 * FRAME_PAD) as i32,
            ),
    {
        (
            self.x0 - FRAME_PAD,
            self.y0 - FRAME_PAD,
            self.map_w + 2 * FRAME_PAD,
            self.map_h + 2 * FRAME_PAD,
        )
    }
}

/// The colour of a tile on the minimap.
pub open spec fn spec_cell_color(c: char) -> Color {
    if c == '#' {
        Color { r: 169, g: 169, b: 169, a: 255 }
    } else if c == 'A' {
        Color { r: 128, g: 128, b: 128, a: 255 }
    } else if c == 'g' {
        Color { r: 0, g: 128, b: 0, a: 255 }
    } else if c == 'p' {
        Color::sky_blue()
    } else if c == ' ' {
        Color { r: 255, g: 255, b: 255, a: 40 }
    } else {
        Color { r: 255, g: 255, b: 255, a: 80 }
    }
}

/// The colour of a tile on the minimap: the two wall materials in greys, the
/// goal green, the start sky blue, floor and unknown tiles in faint white.
pub fn cell_color(c: char) -> (color: Color)
    ensures
        color == spec_cell_color(c),
{
    match c {
        '#' => Color::new(169, 169, 169, 255),
        'A' => Color::new(128, 128, 128, 255),
        'g' => Color::new(0, 128, 0, 255),
        'p' => Color::sky_blue(),
        ' ' => Color::new(255, 255, 255, 40),
        _ => Color::new(255, 255, 255, 80),
    }
}

} // verus!
