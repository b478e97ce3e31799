//! The maze: a grid of tile identifiers, read from text or carved at random.

use vstd::arithmetic::div_mod::lemma_fundamental_div_mod;
use vstd::prelude::*;
use crate::carve::{
    carve, carved_cells, carving, cells, center, closed_at, east_tile, is_pillar, lemma_cells_finite,
    middle_tile, origin, seen, seen_cells, south_tile, tallied, thread_rng,
};
use crate::reach::{connected, is_path, lemma_connected_grows, lemma_connected_self, Pos};

verus! {

/// Rows of tile identifiers. `' '` is floor, `'p'` the start, `'g'` the goal;
/// every other identifier is a wall material.
pub type Maze = Vec<Vec<char>>;

pub const FLOOR: char = ' ';

pub const START: char = 'p';

pub const GOAL: char = 'g';

pub const WALL: char = '#';

pub const WALL_ALT: char = 'A';

/// Whether a tile can be walked on and seen through.
pub open spec fn is_walkable(c: char) -> bool {
    c == FLOOR || c == START || c == GOAL
}

/// Whether a tile can be walked on and seen through.
#[verifier::when_used_as_spec(is_walkable)]
pub fn walkable(c: char) -> (b: bool)
    ensures
        b == is_walkable(c),
{
    c == FLOOR || c == START || c == GOAL
}

/// Every row is as long as the first.
pub open spec fn rectangular(maze: Seq<Vec<char>>) -> bool {
    forall|j: int| 0 <= j < maze.len() ==> (#[trigger] maze[j]).len() == maze[0].len()
}

/// The positions of the walkable tiles.
pub open spec fn walkable_cells(maze: Seq<Vec<char>>) -> Set<Pos> {
    Set::new(
        |p: Pos| 0 <= p.1 < maze.len() && 0 <= p.0 < maze[p.1].len() && is_walkable(maze[p.1][p.0]),
    )
}

/// What stops a ray, or a step, at the world point `(x, y)`: the wall tile of
/// its cell, or `' '` where the point lies outside the grid; nothing where the
/// cell is walkable.
pub open spec fn spec_obstacle(maze: Seq<Vec<char>>, x: int, y: int, block_size: int) -> Option<char> {
    let i = x / block_size;
    let j = y / block_size;
    if j >= maze.len() || i >= maze[0].len() {
        Some(FLOOR)
    } else if is_walkable(maze[j][i]) {
        None
    } else {
        Some(maze[j][i])
    }
}

/// Whether the row of the cell of the world point `(x, y)` is long enough to
/// hold that cell, where the point lies inside the grid as the first row
/// spans it. It is so for every point of a rectangular grid.
pub open spec fn row_reaches(maze: Seq<Vec<char>>, x: int, y: int, block_size: int) -> bool {
    let i = x / block_size;
    let j = y / block_size;
    j < maze.len() && i < maze[0].len() ==> i < maze[j].len()
}

/// Tests `row_reaches` for the world point `(x, y)`.
pub fn has_cell(maze: &Maze, x: usize, y: usize, block_size: usize) -> (b: bool)
    requires
        block_size >= 1,
    ensures
        b == row_reaches(maze@, x as int, y as int, block_size as int),
{
    let i: usize = x / block_size;
    let j: usize = y / block_size;
    !(j < maze.len() && i < maze[0].len()) || i < maze[j].len()
}

/// What stops a ray at a world point with signed coordinates: as
/// `spec_obstacle`, and a point with a negative coordinate lies outside the
/// grid.
pub open spec fn spec_sample(maze: Seq<Vec<char>>, x: int, y: int, block_size: int) -> Option<char> {
    if x < 0 || y < 0 {
        Some(FLOOR)
    } else {
        spec_obstacle(maze, x, y, block_size)
    }
}

/// A ray is reported to have left the grid exactly at the points that lie
/// before its first row or column, beyond its last row, or beyond the last
/// column of its first row: there, and nowhere else, the sample is `' '`.
pub proof fn lemma_sample_outside(maze: Seq<Vec<char>>, x: int, y: int, block_size: int)
    requires
        block_size >= 1,
    ensures
        spec_sample(maze, x, y, block_size) == Some(FLOOR) <==> (x < 0 || y < 0 || y >= maze.len()
            * block_size || x >= maze[0].len() * block_size),
{
    if x >= 0 && y >= 0 {
        lemma_obstacle_outside(maze, x, y, block_size);
    }
}

/// A sample in a walkable cell, or outside the grid, never reports a wall:
/// it reports nothing, or that the ray has left.
pub proof fn lemma_sample_open(maze: Seq<Vec<char>>, x: int, y: int, block_size: int)
    requires
        block_size >= 1,
        x < 0 || y < 0 || y / block_size >= maze.len() || x / block_size >= maze[0].len() || is_walkable(
            maze[y / block_size][x / block_size],
        ),
    ensures
        spec_sample(maze, x, y, block_size) is None || spec_sample(maze, x, y, block_size) == Some(FLOOR),
{
}

/// A ray is reported to have left the grid exactly at the points that lie
/// beyond its last row or beyond the last column of its first row: there, and
/// nowhere else, the obstacle is `' '`.
pub proof fn lemma_obstacle_outside(maze: Seq<Vec<char>>, x: int, y: int, block_size: int)
    requires
        block_size >= 1,
        0 <= x,
        0 <= y,
    ensures
        spec_obstacle(maze, x, y, block_size) == Some(FLOOR) <==> (y >= maze.len() * block_size || x
            >= maze[0].len() * block_size),
{
    lemma_cell_beyond(x, maze[0].len() as int, block_size);
    lemma_cell_beyond(y, maze.len() as int, block_size);
}

/// A coordinate lies in a cell from `count` on exactly when it is at least
/// `count` cells away from zero.
proof fn lemma_cell_beyond(coord: int, count: int, block_size: int)
    requires
        block_size >= 1,
        0 <= coord,
        0 <= count,
    ensures
        coord / block_size >= count <==> coord >= count * block_size,
{
    lemma_fundamental_div_mod(coord, block_size);
    let q = coord / block_size;
    let r = coord % block_size;
    assert(0 <= r < block_size);
    if q >= count {
        assert(block_size * q >= count * block_size) by (nonlinear_arith)
            requires
                q >= count,
                block_size >= 1,
        ;
    } else {
        assert(block_size * q + block_size <= count * block_size) by (nonlinear_arith)
            requires
                q + 1 <= count,
                block_size >= 1,
        ;
    }
}

/// Looks up the cell of the world point `(x, y)` in a grid of square cells
/// `block_size` wide, and says what is in the way there.
pub fn obstacle(maze: &Maze, x: usize, y: usize, block_size: usize) -> (hit: Option<char>)
    requires
        block_size >= 1,
        row_reaches(maze@, x as int, y as int, block_size as int),
    ensures
        hit == spec_obstacle(maze@, x as int, y as int, block_size as int),
{
    let i: usize = x / block_size;
    let j: usize = y / block_size;
    if j >= maze.len() || i >= maze[0].len() {
        return Some(FLOOR);
    }
    let cell: char = maze[j][i];
    if cell != FLOOR && cell != START && cell != GOAL {
        Some(cell)
    } else {
        None
    }
}

/// Whether the world point `(x, y)` lies in a walkable cell of the grid.
pub fn is_walkable_at(maze: &Maze, block_size: usize, x: usize, y: usize) -> (b: bool)
    requires
        block_size >= 1,
        row_reaches(maze@, x as int, y as int, block_size as int),
    ensures
        b == (spec_obstacle(maze@, x as int, y as int, block_size as int) is None),
{
    obstacle(maze, x, y, block_size).is_none()
}

/// Whether the world point `(x, y)` lies in the goal cell.
pub fn is_goal_at(maze: &Maze, block_size: usize, x: usize, y: usize) -> (b: bool)
    requires
        block_size >= 1,
        row_reaches(maze@, x as int, y as int, block_size as int),
    ensures
        b == {
            let i = x as int / block_size as int;
            let j = y as int / block_size as int;
            j < maze.len() && i < maze[0].len() && maze[j][i] == GOAL
        },
{
    let i: usize = x / block_size;
    let j: usize = y / block_size;
    j < maze.len() && i < maze[0].len() && maze[j][i] == GOAL
}

/// Whether `(i, j)` is the first start tile in reading order.
pub open spec fn is_first_start(maze: Seq<Vec<char>>, i: int, j: int) -> bool {
    &&& 0 <= j < maze.len()
    &&& 0 <= i < maze[j].len()
    &&& maze[j][i] == START
    &&& forall|i2: int| 0 <= i2 < i ==> maze[j][i2] != START
    &&& forall|j2: int, i2: int| 0 <= j2 < j && 0 <= i2 < maze[j2].len() ==> maze[j2][i2] != START
}

/// Whether the grid holds no start tile.
pub open spec fn has_no_start(maze: Seq<Vec<char>>) -> bool {
    forall|j: int, i: int| 0 <= j < maze.len() && 0 <= i < maze[j].len() ==> maze[j][i] != START
}

/// Column and row of the first start tile in reading order, if there is one.
pub fn find_start(maze: &Maze) -> (start: Option<(usize, usize)>)
    ensures
        match start {
            Some((i, j)) => is_first_start(maze@, i as int, j as int),
            None => has_no_start(maze@),
        },
{
    let mut j: usize = 0;
    while j < maze.len()
        invariant
            j <= maze.len(),
            forall|j2: int, i2: int|
                0 <= j2 < j && 0 <= i2 < maze[j2].len() ==> maze[j2][i2] != START,
        decreases maze.len() - j,
    {
        let mut i: usize = 0;
        while i < maze[j].len()
            invariant
                j < maze.len(),
                i <= maze[j as int].len(),
                forall|i2: int| 0 <= i2 < i ==> maze[j as int][i2] != START,
                forall|j2: int, i2: int|
                    0 <= j2 < j && 0 <= i2 < maze[j2].len() ==> maze[j2][i2] != START,
            decreases maze[j as int].len() - i,
        {
            if maze[j][i] == START {
                return Some((i, j));
            }
            i += 1;
        }
        j += 1;
    }
    None
}

/// The world coordinate of the middle of cell `index` along one axis, in
/// a grid of cells `block_size` wide; `None` where it is no `usize`.
pub fn cell_center(index: usize, block_size: usize) -> (c: Option<usize>)
    ensures
        c == if index * block_size + block_size / 2 <= usize::MAX {
            Some((index * block_size + block_size / 2) as usize)
        } else {
            None::<usize>
        },
{
    match index.checked_mul(block_size) {
        Some(start) => start.checked_add(block_size / 2),
        None => None,
    }
}

/// Whether every row is as long as the first.
pub fn is_rectangular(maze: &Maze) -> (b: bool)
    ensures
        b == rectangular(maze@),
{
    let mut j: usize = 0;
    while j < maze.len()
        invariant
            j <= maze.len(),
            forall|r: int| 0 <= r < j ==> (#[trigger] maze[r]).len() == maze[0].len(),
        decreases maze.len() - j,
    {
        if maze[j].len() != maze[0].len() {
            return false;
        }
        j += 1;
    }
    true
}

/// The tile in column `i` of row `j`.
pub open spec fn tile(maze: Seq<Vec<char>>, i: int, j: int) -> char {
    maze[j][i]
}

/// The grid has `height` rows of `width` tiles.
pub open spec fn has_size(maze: Seq<Vec<char>>, width: int, height: int) -> bool {
    &&& maze.len() == height
    &&& forall|j: int| 0 <= j < height ==> (#[trigger] maze[j]).len() == width
}

/// What `retile_walls_stripes` needs of a grid with at least three rows: a
/// first row that is not empty, and inner rows that reach as far as the last
/// inner column of the first.
pub open spec fn stripes_applicable(maze: Seq<Vec<char>>) -> bool {
    maze.len() >= 3 ==> {
        &&& maze[0].len() >= 1
        &&& forall|j: int| 1 <= j < maze.len() - 1 ==> (#[trigger] maze[j]).len() >= maze[0].len() - 1
    }
}

/// Whether the tile at `(i, j)` lies on a diagonal stripe: stripes are two
/// tiles wide and every third one is taken.
pub open spec fn in_stripe(i: int, j: int) -> bool {
    (i / 2 + j / 2) % 3 == 0
}

/// Whether `(i, j)` is off the border of a `width` x `height` grid.
pub open spec fn is_inner(width: int, height: int, i: int, j: int) -> bool {
    1 <= i < width - 1 && 1 <= j < height - 1
}

/// The tile at `(i, j)` after the stripes were laid: an inner `'#'` on a
/// stripe becomes `'A'`, every other tile stays.
pub open spec fn restriped(maze: Seq<Vec<char>>, i: int, j: int) -> char {
    if is_inner(maze[0].len() as int, maze.len() as int, i, j) && maze[j][i] == WALL && in_stripe(i, j) {
        WALL_ALT
    } else {
        maze[j][i]
    }
}

/// Gives part of the inner walls a second material, in diagonal stripes. The
/// border, the floor, the start and the goal stay as they are.
pub fn retile_walls_stripes(maze: &mut Maze)
    requires
        stripes_applicable(old(maze)@),
    ensures
        final(maze).len() == old(maze).len(),
        forall|j: int| 0 <= j < old(maze).len() ==> (#[trigger] final(maze)[j]).len() == old(maze)[j].len(),
        forall|i: int, j: int|
            0 <= j < old(maze).len() && 0 <= i < old(maze)[j].len() ==> #[trigger] tile(final(maze)@, i, j)
                == restriped(old(maze)@, i, j),
{
    let h: usize = maze.len();
    if h == 0 {
        return ;
    }
    let w: usize = maze[0].len();
    let mut j: usize = 1;
    while j < h - 1
        invariant
            1 <= j,
            h == maze.len() == old(maze).len(),
            h >= 1,
            w == old(maze)[0].len(),
            stripes_applicable(old(maze)@),
            forall|r: int| 0 <= r < h ==> (#[trigger] maze[r]).len() == old(maze)[r].len(),
            forall|i: int, r: int|
                0 <= r < h && 0 <= i < old(maze)[r].len() ==> #[trigger] tile(maze@, i, r) == if r < j {
                    restriped(old(maze)@, i, r)
                } else {
                    tile(old(maze)@, i, r)
                },
        decreases h - j,
    {
        let mut i: usize = 1;
        while i < w - 1
            invariant
                1 <= i,
                1 <= j < h - 1,
                w >= 1,
                h == maze.len() == old(maze).len(),
                w == old(maze)[0].len(),
                stripes_applicable(old(maze)@),
                forall|r: int| 0 <= r < h ==> (#[trigger] maze[r]).len() == old(maze)[r].len(),
                forall|c: int, r: int|
                    0 <= r < h && 0 <= c < old(maze)[r].len() ==> #[trigger] tile(maze@, c, r) == if r < j
                        || (r == j && c < i) {
                        restriped(old(maze)@, c, r)
                    } else {
                        tile(old(maze)@, c, r)
                    },
            decreases w - i,
        {
            assert(tile(maze@, i as int, j as int) == tile(old(maze)@, i as int, j as int));
            if maze[j][i] == WALL {
                if ((i / 2) + (j / 2)) % 3 == 0 {
                    let ghost before = maze@;
                    maze[j][i] = WALL_ALT;
                    assert forall|c: int, r: int| 0 <= r < h && 0 <= c < old(maze)[r].len() implies #[trigger] tile(
                        maze@,
                        c,
                        r,
                    ) == if r < j || (r == j && c < i + 1) {
                        restriped(old(maze)@, c, r)
                    } else {
                        tile(old(maze)@, c, r)
                    } by {
                        if r != j || c != i {
                            assert(tile(maze@, c, r) == tile(before, c, r));
                        }
                    }
                }
            }
            i += 1;
        }
        assert forall|c: int| w - 1 <= c < old(maze)[j as int].len() && 0 <= c implies restriped(
            old(maze)@,
            c,
            j as int,
        ) == tile(old(maze)@, c, j as int) by {}
        assert(restriped(old(maze)@, 0, j as int) == tile(old(maze)@, 0, j as int));
        j += 1;
    }
    assert forall|i: int, r: int| 0 <= r < h && 0 <= i < old(maze)[r].len() implies #[trigger] tile(
        maze@,
        i,
        r,
    ) == restriped(old(maze)@, i, r) by {
        if r >= j {
            assert(!is_inner(w as int, h as int, i, r));
        }
        if r == 0 {
            assert(!is_inner(w as int, h as int, i, r));
        }
    }
}

/// What holds of every maze that `make_maze` carves from a `cw` x `ch` cell
/// grid. The grid has a tile for every cell and for every wall between and
/// around the cells. Its border is wall, and so are the corners between the
/// cells. The goal is the middle of the last
/// cell and nowhere else; the start is the middle of the first cell and
/// nowhere else, but where the grid is a single cell the goal takes its place.
/// Inner walls on a stripe are `'A'`, all other walls `'#'`. From the middle
/// of the first cell a path over walkable tiles leads to the middle of every
/// cell. The walkable tiles are the middles of the cells and one passage
/// fewer than there are cells, so the passages join the cells as a tree: no
/// wall can be spared and no passage goes in a circle.
pub open spec fn generated(maze: Seq<Vec<char>>, cw: int, ch: int) -> bool {
    let gw = 2 * cw + 1;
    let gh = 2 * ch + 1;
    &&& has_size(maze, gw, gh)
    &&& forall|i: int, j: int|
        0 <= i < gw && 0 <= j < gh ==> {
            let c = #[trigger] tile(maze, i, j);
            &&& is_walkable(c) || c == WALL || c == WALL_ALT
            &&& (i == 0 || j == 0 || i == gw - 1 || j == gh - 1) ==> c == WALL
            &&& is_pillar(i, j) ==> !is_walkable(c)
            &&& c == GOAL <==> (i == gw - 2 && j == gh - 2)
            &&& c == START <==> (i == 1 && j == 1 && !(cw == 1 && ch == 1))
            &&& c == WALL_ALT ==> in_stripe(i, j)
            &&& c == WALL ==> !(is_inner(gw, gh, i, j) && in_stripe(i, j))
        }
    &&& forall|x: int, y: int|
        0 <= x < cw && 0 <= y < ch ==> connected(walkable_cells(maze), origin(), #[trigger] center(x, y))
    &&& walkable_cells(maze).finite()
    &&& walkable_cells(maze).len() == 2 * cw * ch - 1
}

/// A generated maze of more than one cell has exactly one start, in the middle
/// of the first cell, and exactly one goal, in the middle of the last, and a
/// path over walkable tiles leads from the one to the other.
pub proof fn lemma_start_reaches_goal(maze: Seq<Vec<char>>, cw: int, ch: int)
    requires
        1 <= cw,
        1 <= ch,
        !(cw == 1 && ch == 1),
        generated(maze, cw, ch),
    ensures
        forall|i: int, j: int|
            0 <= i < 2 * cw + 1 && 0 <= j < 2 * ch + 1 ==> (#[trigger] tile(maze, i, j) == START <==> (i == 1
                && j == 1)),
        forall|i: int, j: int|
            0 <= i < 2 * cw + 1 && 0 <= j < 2 * ch + 1 ==> (#[trigger] tile(maze, i, j) == GOAL <==> (i == 2
                * cw - 1 && j == 2 * ch - 1)),
        connected(walkable_cells(maze), (1, 1), (2 * cw - 1, 2 * ch - 1)),
{
    assert(center(cw - 1, ch - 1) == (2 * cw - 1, 2 * ch - 1));
}

/// A grid of `height` rows of `width` wall tiles.
fn wall_grid(width: usize, height: usize) -> (maze: Maze)
    ensures
        has_size(maze@, width as int, height as int),
        forall|i: int, j: int| 0 <= i < width && 0 <= j < height ==> #[trigger] tile(maze@, i, j) == WALL,
{
    let mut maze: Maze = Vec::new();
    let mut j: usize = 0;
    while j < height
        invariant
            j <= height,
            has_size(maze@, width as int, j as int),
            forall|i: int, r: int| 0 <= i < width && 0 <= r < j ==> #[trigger] tile(maze@, i, r) == WALL,
        decreases height - j,
    {
        let row: Vec<char> = vec![WALL; width];
        let ghost before = maze@;
        maze.push(row);
        assert forall|i: int, r: int| 0 <= i < width && 0 <= r < j + 1 implies #[trigger] tile(
            maze@,
            i,
            r,
        ) == WALL by {
            if r < j {
                assert(tile(maze@, i, r) == tile(before, i, r));
            }
        }
        j += 1;
    }
    maze
}

/// Visit marks for a `cw` x `ch` cell grid, none of them set.
fn no_marks(cw: usize, ch: usize) -> (visited: Vec<Vec<bool>>)
    ensures
        visited.len() == ch,
        forall|y: int| 0 <= y < ch ==> (#[trigger] visited[y]).len() == cw,
        forall|x: int, y: int| 0 <= x < cw && 0 <= y < ch ==> !#[trigger] seen(visited@, x, y),
{
    let mut visited: Vec<Vec<bool>> = Vec::new();
    let mut y: usize = 0;
    while y < ch
        invariant
            y <= ch,
            visited.len() == y,
            forall|r: int| 0 <= r < y ==> (#[trigger] visited[r]).len() == cw,
            forall|x: int, r: int| 0 <= x < cw && 0 <= r < y ==> !#[trigger] seen(visited@, x, r),
        decreases ch - y,
    {
        let row: Vec<bool> = vec![false; cw];
        let ghost before = visited@;
        visited.push(row);
        assert forall|x: int, r: int| 0 <= x < cw && 0 <= r < y + 1 implies !#[trigger] seen(
            visited@,
            x,
            r,
        ) by {
            if r < y {
                assert(seen(visited@, x, r) == seen(before, x, r));
            }
        }
        y += 1;
    }
    visited
}

/// Where the first cell has been visited and every visited cell has only
/// visited neighbours, every cell has been visited.
proof fn lemma_all_seen(visited: Seq<Vec<bool>>, cw: int, ch: int, x: int, y: int)
    requires
        0 <= x < cw,
        0 <= y < ch,
        seen(visited, 0, 0),
        forall|a: int, b: int|
            0 <= a < cw && 0 <= b < ch && #[trigger] seen(visited, a, b) ==> closed_at(visited, cw, ch, a, b),
    ensures
        seen(visited, x, y),
    decreases x + y,
{
    if x > 0 {
        lemma_all_seen(visited, cw, ch, x - 1, y);
        assert(closed_at(visited, cw, ch, x - 1, y));
    } else if y > 0 {
        lemma_all_seen(visited, cw, ch, x, y - 1);
        assert(closed_at(visited, cw, ch, x, y - 1));
    }
}

/// Before carving, with the first cell taken in, one tile counts as opened:
/// the middle of that cell.
proof fn lemma_first_tally(maze: Seq<Vec<char>>, visited: Seq<Vec<bool>>, cw: int, ch: int)
    requires
        1 <= cw,
        1 <= ch,
        has_size(maze, 2 * cw + 1, 2 * ch + 1),
        forall|i: int, j: int| 0 <= i < 2 * cw + 1 && 0 <= j < 2 * ch + 1 ==> #[trigger] tile(maze, i, j) == WALL,
        forall|x: int, y: int| 0 <= x < cw && 0 <= y < ch ==> !#[trigger] seen(visited, x, y),
    ensures
        tallied(maze, seen_cells(visited, cw, ch).insert((0, 0)), cw, ch),
{
    reveal(tallied);
    let inside = seen_cells(visited, cw, ch).insert((0, 0));
    assert(inside =~= Set::<Pos>::empty().insert((0, 0)));
    assert forall|p: Pos| carved_cells(maze).contains(p) implies p == origin() by {
        assert(tile(maze, p.0, p.1) == WALL);
    }
    assert(maze[1].len() == 2 * cw + 1);
    assert(carved_cells(maze) =~= Set::<Pos>::empty().insert(origin()));
    assert forall|x: int, y: int| 0 <= x < cw && 0 <= y < ch implies #[trigger] middle_tile(maze, x, y)
        != FLOOR by {
        assert(tile(maze, 2 * x + 1, 2 * y + 1) == WALL);
    }
    assert forall|x: int, y: int| 0 <= x < cw - 1 && 0 <= y < ch implies #[trigger] east_tile(maze, x, y)
        != FLOOR by {
        assert(tile(maze, 2 * x + 2, 2 * y + 1) == WALL);
    }
    assert forall|x: int, y: int| 0 <= x < cw && 0 <= y < ch - 1 implies #[trigger] south_tile(maze, x, y)
        != FLOOR by {
        assert(tile(maze, 2 * x + 1, 2 * y + 2) == WALL);
    }
}

/// `placed` is `carved` with the start in the first cell and then the goal
/// in the last.
spec fn ends_placed(carved: Seq<Vec<char>>, placed: Seq<Vec<char>>, cw: int, ch: int) -> bool {
    &&& has_size(placed, 2 * cw + 1, 2 * ch + 1)
    &&& forall|i: int, j: int|
        0 <= i < 2 * cw + 1 && 0 <= j < 2 * ch + 1 ==> #[trigger] tile(placed, i, j) == if i == 2 * cw - 1
            && j == 2 * ch - 1 {
            GOAL
        } else if i == 1 && j == 1 {
            START
        } else {
            tile(carved, i, j)
        }
}

/// `done` is `placed` with the wall stripes laid.
spec fn stripes_laid(placed: Seq<Vec<char>>, done: Seq<Vec<char>>, cw: int, ch: int) -> bool {
    &&& has_size(done, 2 * cw + 1, 2 * ch + 1)
    &&& forall|i: int, j: int|
        0 <= i < 2 * cw + 1 && 0 <= j < 2 * ch + 1 ==> #[trigger] tile(done, i, j) == restriped(placed, i, j)
}

/// Once every cell has been visited, placing the ends and laying the stripes
/// finishes the maze.
proof fn lemma_generated(
    carved: Seq<Vec<char>>,
    placed: Seq<Vec<char>>,
    done: Seq<Vec<char>>,
    visited: Seq<Vec<bool>>,
    cw: int,
    ch: int,
)
    requires
        carving(carved, visited, cw, ch),
        tallied(carved, seen_cells(visited, cw, ch), cw, ch),
        forall|x: int, y: int| 0 <= x < cw && 0 <= y < ch ==> #[trigger] seen(visited, x, y),
        ends_placed(carved, placed, cw, ch),
        stripes_laid(placed, done, cw, ch),
    ensures
        generated(done, cw, ch),
{
    let gw = 2 * cw + 1;
    let gh = 2 * ch + 1;
    assert(placed[0].len() == gw && placed.len() == gh);
    assert forall|i: int, j: int| 0 <= i < gw && 0 <= j < gh implies {
        let c = #[trigger] tile(done, i, j);
        &&& is_walkable(c) || c == WALL || c == WALL_ALT
        &&& (i == 0 || j == 0 || i == gw - 1 || j == gh - 1) ==> c == WALL
        &&& is_pillar(i, j) ==> !is_walkable(c)
        &&& c == GOAL <==> (i == gw - 2 && j == gh - 2)
        &&& c == START <==> (i == 1 && j == 1 && !(cw == 1 && ch == 1))
        &&& c == WALL_ALT ==> in_stripe(i, j)
        &&& c == WALL ==> !(is_inner(gw, gh, i, j) && in_stripe(i, j))
    } by {
        assert(tile(done, i, j) == restriped(placed, i, j));
        let pc = tile(placed, i, j);
        assert(pc == if i == 2 * cw - 1 && j == 2 * ch - 1 {
            GOAL
        } else if i == 1 && j == 1 {
            START
        } else {
            tile(carved, i, j)
        });
        assert(tile(carved, i, j) == WALL || tile(carved, i, j) == FLOOR);
    }
    assert forall|p: Pos| carved_cells(carved).contains(p) implies walkable_cells(done).contains(p) by {
        let (i, j) = p;
        assert(carved[j].len() == gw && done[j].len() == gw);
        assert(tile(done, i, j) == restriped(placed, i, j));
        let pc = tile(placed, i, j);
        assert(pc == if i == 2 * cw - 1 && j == 2 * ch - 1 {
            GOAL
        } else if i == 1 && j == 1 {
            START
        } else {
            tile(carved, i, j)
        });
        assert(is_walkable(pc));
        assert(is_walkable(tile(done, i, j)));
    }
    assert(carved_cells(carved).subset_of(walkable_cells(done)));
    assert forall|x: int, y: int| 0 <= x < cw && 0 <= y < ch implies connected(
        walkable_cells(done),
        origin(),
        #[trigger] center(x, y),
    ) by {
        assert(seen(visited, x, y));
        lemma_connected_grows(carved_cells(carved), walkable_cells(done), origin(), center(x, y));
    }
    // the walkable tiles are the opened ones, and those are counted
    assert forall|p: Pos| walkable_cells(done).contains(p) implies carved_cells(carved).contains(p) by {
        let (i, j) = p;
        assert(carved[j].len() == gw && done[j].len() == gw);
        assert(tile(done, i, j) == restriped(placed, i, j));
        let pc = tile(placed, i, j);
        assert(pc == if i == 2 * cw - 1 && j == 2 * ch - 1 {
            GOAL
        } else if i == 1 && j == 1 {
            START
        } else {
            tile(carved, i, j)
        });
        assert(tile(carved, i, j) == WALL || tile(carved, i, j) == FLOOR);
        if i == 2 * cw - 1 && j == 2 * ch - 1 {
            assert(seen(visited, cw - 1, ch - 1));
            let goal = center(cw - 1, ch - 1);
            let path = choose|path: Seq<Pos>| #[trigger]
                is_path(carved_cells(carved), path) && path[0] == origin() && path.last() == goal;
            assert(carved_cells(carved).contains(path[path.len() - 1]));
        }
    }
    assert(walkable_cells(done) =~= carved_cells(carved));
    assert(seen_cells(visited, cw, ch) =~= cells(cw, ch));
    lemma_cells_finite(cw, ch);
    reveal(tallied);
    assert(2 * (cw * ch) - 1 == 2 * cw * ch - 1) by (nonlinear_arith);
}

/// Puts `c` at column `x` of row `y`.
fn put_tile(maze: &mut Maze, x: usize, y: usize, c: char)
    requires
        y < old(maze).len(),
        x < old(maze)[y as int].len(),
    ensures
        final(maze).len() == old(maze).len(),
        forall|j: int| 0 <= j < old(maze).len() ==> (#[trigger] final(maze)[j]).len() == old(maze)[j].len(),
        forall|i: int, j: int|
            0 <= j < old(maze).len() && 0 <= i < old(maze)[j].len() ==> #[trigger] tile(final(maze)@, i, j)
                == if i == x && j == y {
                c
            } else {
                tile(old(maze)@, i, j)
            },
{
    maze[y][x] = c;
}

/// Carves a random maze from a grid of `cell_w` x `cell_h` cells by a
/// depth-first walk from the first cell, puts the start into the first cell
/// and the goal into the last, and lays the wall stripes.
pub fn make_maze(cell_w: usize, cell_h: usize) -> (maze: Maze)
    requires
        1 <= cell_w,
        1 <= cell_h,
        4 * cell_w <= usize::MAX,
        4 * cell_h <= usize::MAX,
    ensures
        generated(maze@, cell_w as int, cell_h as int),
{
    let gw: usize = cell_w * 2 + 1;
    let gh: usize = cell_h * 2 + 1;
    let mut maze = wall_grid(gw, gh);
    let mut visited = no_marks(cell_w, cell_h);
    let mut rng = thread_rng();
    proof {
        assert(carved_cells(maze@).contains(origin()));
        lemma_connected_self(carved_cells(maze@), origin());
        lemma_first_tally(maze@, visited@, cell_w as int, cell_h as int);
    }
    carve(0, 0, cell_w, cell_h, &mut maze, &mut visited, &mut rng);
    let ghost carved = maze@;
    put_tile(&mut maze, 1, 1, START);
    put_tile(&mut maze, gw - 2, gh - 2, GOAL);
    let ghost placed = maze@;
    assert(ends_placed(carved, placed, cell_w as int, cell_h as int));
    retile_walls_stripes(&mut maze);
    proof {
        let cw = cell_w as int;
        let ch = cell_h as int;
        assert(stripes_laid(placed, maze@, cw, ch)) by {
            assert forall|i: int, j: int| 0 <= i < 2 * cw + 1 && 0 <= j < 2 * ch + 1 implies #[trigger] tile(
                maze@,
                i,
                j,
            ) == restriped(placed, i, j) by {}
        }
        assert forall|x: int, y: int| 0 <= x < cw && 0 <= y < ch implies #[trigger] seen(
            visited@,
            x,
            y,
        ) by {
            lemma_all_seen(visited@, cw, ch, x, y);
        }
        lemma_generated(carved, placed, maze@, visited@, cw, ch);
    }
    maze
}

} // verus!
