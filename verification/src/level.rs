//! Furnishing a level: where crates stand against the walls of a maze.

use vstd::arithmetic::div_mod::lemma_add_mod_noop;
use vstd::prelude::*;
use crate::maze::{rectangular, Maze, FLOOR, WALL, WALL_ALT};

verus! {

/// The wall that a crate leans against, seen from its tile.
#[derive(Clone, Copy, Debug, PartialEq, Eq, Structural)]
pub enum Side {
    Right,
    Left,
    Down,
    Up,
}

/// A floor tile that gets a crate, and the wall that the crate is pushed to.
#[derive(Clone, Copy, Debug, PartialEq, Eq, Structural)]
pub struct CrateSite {
    /// Column of the tile.
    pub i: usize,
    /// Row of the tile.
    pub j: usize,
    pub side: Side,
}

/// Crates stand on every tenth diagonal of the grid.
pub const CRATE_SPACING: usize = 10;

/// Whether a tile is one of the wall materials.
pub open spec fn is_wall(c: char) -> bool {
    c == WALL || c == WALL_ALT
}

/// Whether the tile at `(i, j)` exists and is wall.
pub open spec fn wall_at(maze: Seq<Vec<char>>, i: int, j: int) -> bool {
    0 <= j < maze.len() && 0 <= i < maze[j].len() && is_wall(maze[j][i])
}

/// The side on which a crate on tile `(i, j)` stands, if the tile gets one:
/// it is floor, it lies on a crate diagonal, and it has a wall beside it. Of
/// several walls the right one is taken before the left, the lower and the
/// upper.
pub open spec fn site_side(maze: Seq<Vec<char>>, i: int, j: int) -> Option<Side> {
    if maze[j][i] != FLOOR || (i + j) % (CRATE_SPACING as int) != 0 {
        None
    } else if wall_at(maze, i + 1, j) {
        Some(Side::Right)
    } else if wall_at(maze, i - 1, j) {
        Some(Side::Left)
    } else if wall_at(maze, i, j + 1) {
        Some(Side::Down)
    } else if wall_at(maze, i, j - 1) {
        Some(Side::Up)
    } else {
        None
    }
}

/// Whether `(i1, j1)` comes before `(i2, j2)` in reading order.
pub open spec fn reads_before(i1: int, j1: int, i2: int, j2: int) -> bool {
    j1 < j2 || (j1 == j2 && i1 < i2)
}

/// Whether `sites` holds an entry for tile `(x, y)`.
pub open spec fn listed(sites: Seq<CrateSite>, x: int, y: int) -> bool {
    exists|k: int| 0 <= k < sites.len() && (#[trigger] sites[k]).i == x && sites[k].j == y
}

/// `sites` holds the crate sites of the tiles before `(i, j)` in reading
/// order: each with its side, none missing, in reading order.
pub open spec fn sites_before(maze: Seq<Vec<char>>, sites: Seq<CrateSite>, i: int, j: int) -> bool {
    &&& forall|k: int|
        0 <= k < sites.len() ==> {
            let s = #[trigger] sites[k];
            &&& s.j < maze.len()
            &&& s.i < maze[s.j as int].len()
            &&& reads_before(s.i as int, s.j as int, i, j)
            &&& site_side(maze, s.i as int, s.j as int) == Some(s.side)
        }
    &&& forall|a: int, b: int|
        0 <= a < b < sites.len() ==> reads_before(
            (#[trigger] sites[a]).i as int,
            sites[a].j as int,
            (#[trigger] sites[b]).i as int,
            sites[b].j as int,
        )
    &&& forall|x: int, y: int|
        0 <= y < maze.len() && 0 <= x < maze[y].len() && reads_before(x, y, i, j) && (#[trigger] site_side(
            maze,
            x,
            y,
        )) is Some ==> listed(sites, x, y)
}

/// `sites` holds all crate sites of the maze.
pub open spec fn all_sites(maze: Seq<Vec<char>>, sites: Seq<CrateSite>) -> bool {
    sites_before(maze, sites, 0, maze.len() as int)
}

/// The side of the crate on tile `(i, j)`, if the tile gets one.
pub fn crate_side(maze: &Maze, i: usize, j: usize) -> (side: Option<Side>)
    requires
        rectangular(maze@),
        j < maze.len(),
        i < maze[j as int].len(),
    ensures
        side == site_side(maze@, i as int, j as int),
{
    proof {
        lemma_add_mod_noop(i as int, j as int, CRATE_SPACING as int);
    }
    if maze[j][i] != FLOOR || (i % CRATE_SPACING + j % CRATE_SPACING) % CRATE_SPACING != 0 {
        return None;
    }
    let row = &maze[j];
    if i + 1 < row.len() && (row[i + 1] == WALL || row[i + 1] == WALL_ALT) {
        Some(Side::Right)
    } else if i >= 1 && (row[i - 1] == WALL || row[i - 1] == WALL_ALT) {
        Some(Side::Left)
    } else if j + 1 < maze.len() && (maze[j + 1][i] == WALL || maze[j + 1][i] == WALL_ALT) {
        Some(Side::Down)
    } else if j >= 1 && (maze[j - 1][i] == WALL || maze[j - 1][i] == WALL_ALT) {
        Some(Side::Up)
    } else {
        None
    }
}

/// Lists the crate sites of a maze in reading order.
pub fn crate_sites(maze: &Maze) -> (sites: Vec<CrateSite>)
    requires
        rectangular(maze@),
    ensures
        all_sites(maze@, sites@),
{
    let mut sites: Vec<CrateSite> = Vec::new();
    let mut j: usize = 0;
    while j < maze.len()
        invariant
            j <= maze.len(),
            rectangular(maze@),
            sites_before(maze@, sites@, 0, j as int),
        decreases maze.len() - j,
    {
        let mut i: usize = 0;
        while i < maze[j].len()
            invariant
                j < maze.len(),
                i <= maze[j as int].len(),
                rectangular(maze@),
                sites_before(maze@, sites@, i as int, j as int),
            decreases maze[j as int].len() - i,
        {
            let ghost before = sites@;
            let found = crate_side(maze, i, j);
            if let Some(side) = found {
                sites.push(CrateSite { i, j, side });
                assert(sites@[before.len() as int].i == i);
                assert(listed(sites@, i as int, j as int));
            }
            proof {
                let after = sites@;
                assert forall|x: int, y: int|
                    0 <= y < maze.len() && 0 <= x < maze[y].len() && reads_before(x, y, i + 1, j as int) && (
                    #[trigger] site_side(maze@, x, y)) is Some implies listed(after, x, y) by {
                    if !(x == i && y == j) {
                        assert(reads_before(x, y, i as int, j as int));
                        assert(listed(before, x, y));
                        let k = choose|k: int|
                            0 <= k < before.len() && (#[trigger] before[k]).i == x && before[k].j == y;
                        assert(after[k] == before[k]);
                    }
                }
                assert forall|k: int| 0 <= k < after.len() implies {
                    let s = #[trigger] after[k];
                    &&& s.j < maze.len()
                    &&& s.i < maze[s.j as int].len()
                    &&& reads_before(s.i as int, s.j as int, i + 1, j as int)
                    &&& site_side(maze@, s.i as int, s.j as int) == Some(s.side)
                } by {
                    if k < before.len() {
                        assert(after[k] == before[k]);
                    }
                }
                assert forall|a: int, b: int| 0 <= a < b < after.len() implies reads_before(
                    (#[trigger] after[a]).i as int,
                    after[a].j as int,
                    (#[trigger] after[b]).i as int,
                    after[b].j as int,
                ) by {
                    assert(after[a] == before[a]);
                    if b < before.len() {
                        assert(after[b] == before[b]);
                    }
                }
            }
            i += 1;
        }
        proof {
            assert forall|x: int, y: int|
                0 <= y < maze.len() && 0 <= x < maze[y].len() && reads_before(x, y, 0, j + 1) && (
                #[trigger] site_side(maze@, x, y)) is Some implies listed(sites@, x, y) by {
                assert(reads_before(x, y, i as int, j as int));
            }
        }
        j += 1;
    }
    sites
}

} // verus!
