//! Depth-first carving of a maze: from a cell grid whose cells are all walled
//! in, passages are opened to unvisited neighbours in random order until every
//! cell has been visited.

use rand::seq::SliceRandom;
use vstd::prelude::*;
use vstd::set_lib::{lemma_len_subset, lemma_set_disjoint_lens};
use crate::maze::{tile, has_size, Maze, FLOOR, WALL};
use crate::reach::{connected, is_path, lemma_connected_grows, lemma_connected_step, Pos};

verus! {

/// The thread-local generator of the `rand` crate. Nothing is known of its
/// values.
#[verifier::external_type_specification]
#[verifier::external_body]
pub struct ExThreadRng(rand::rngs::ThreadRng);

/// Calls `rand::thread_rng`: a handle to the random number generator of the
/// running thread. Nothing is claimed of it.
#[verifier::external_body]
pub(crate) fn thread_rng() -> rand::rngs::ThreadRng {
    rand::thread_rng()
}

/// Calls `SliceRandom::shuffle`, which only swaps elements of the slice.
/// Trusted: the items after the call are those before it, each as often as
/// before; nothing is claimed of their order.
#[verifier::external_body]
pub(crate) fn shuffle(dirs: &mut Vec<(isize, isize)>, rng: &mut rand::rngs::ThreadRng)
    ensures
        final(dirs)@.to_multiset() == old(dirs)@.to_multiset(),
{
    dirs.shuffle(rng);
}

/// The tile position of the middle of cell `(cx, cy)`.
pub open spec fn center(cx: int, cy: int) -> Pos {
    (2 * cx + 1, 2 * cy + 1)
}

/// The tile position at which carving starts: the middle of cell `(0, 0)`.
pub open spec fn origin() -> Pos {
    (1, 1)
}

/// The positions that carving has opened, and the origin.
pub open spec fn carved_cells(maze: Seq<Vec<char>>) -> Set<Pos> {
    Set::new(
        |p: Pos|
            0 <= p.1 < maze.len() && 0 <= p.0 < maze[p.1].len() && (p == origin() || tile(maze, p.0, p.1)
                == FLOOR),
    )
}

/// Whether cell `(x, y)` has been visited.
pub open spec fn seen(visited: Seq<Vec<bool>>, x: int, y: int) -> bool {
    visited[y][x]
}

/// Whether every neighbour of cell `(x, y)` in the `cw` x `ch` cell grid has
/// been visited.
pub open spec fn closed_at(visited: Seq<Vec<bool>>, cw: int, ch: int, x: int, y: int) -> bool {
    &&& x + 1 < cw ==> seen(visited, x + 1, y)
    &&& x >= 1 ==> seen(visited, x - 1, y)
    &&& y + 1 < ch ==> seen(visited, x, y + 1)
    &&& y >= 1 ==> seen(visited, x, y - 1)
}

/// The cells that have not been visited yet.
pub open spec fn unvisited(visited: Seq<Vec<bool>>, cw: int, ch: int) -> Set<Pos> {
    Set::new(|p: Pos| 0 <= p.0 < cw && 0 <= p.1 < ch && !seen(visited, p.0, p.1))
}

/// The cells of the first `rows` rows of a cell grid `cw` wide.
pub open spec fn cells(cw: int, rows: int) -> Set<Pos> {
    Set::new(|p: Pos| 0 <= p.0 < cw && 0 <= p.1 < rows)
}

/// The first `n` cells of row `y`.
spec fn row_cells(n: int, y: int) -> Set<Pos> {
    Set::new(|p: Pos| 0 <= p.0 < n && p.1 == y)
}

proof fn lemma_row_finite(n: int, y: int)
    requires
        0 <= n,
    ensures
        row_cells(n, y).finite(),
        row_cells(n, y).len() == n,
    decreases n,
{
    if n == 0 {
        assert(row_cells(n, y) =~= Set::<Pos>::empty());
    } else {
        lemma_row_finite(n - 1, y);
        assert(row_cells(n, y) =~= row_cells(n - 1, y).insert((n - 1, y)));
    }
}

/// A cell grid of `rows` rows of `cw` cells has `cw * rows` cells.
pub proof fn lemma_cells_finite(cw: int, rows: int)
    requires
        0 <= cw,
        0 <= rows,
    ensures
        cells(cw, rows).finite(),
        cells(cw, rows).len() == cw * rows,
    decreases rows,
{
    if rows == 0 {
        assert(cells(cw, rows) =~= Set::<Pos>::empty());
    } else {
        lemma_cells_finite(cw, rows - 1);
        lemma_row_finite(cw, rows - 1);
        let above = cells(cw, rows - 1);
        let last = row_cells(cw, rows - 1);
        assert(cells(cw, rows) =~= above + last);
        assert(above.disjoint(last));
        lemma_set_disjoint_lens(above, last);
        assert(cw * rows == cw * (rows - 1) + cw) by (nonlinear_arith);
    }
}

/// Visiting one more cell, and perhaps others, leaves fewer unvisited cells.
proof fn lemma_fewer_unvisited(
    before: Seq<Vec<bool>>,
    after: Seq<Vec<bool>>,
    cw: int,
    ch: int,
    x: int,
    y: int,
)
    requires
        0 <= x < cw,
        0 <= y < ch,
        !seen(before, x, y),
        seen(after, x, y),
        forall|a: int, b: int| 0 <= a < cw && 0 <= b < ch && seen(before, a, b) ==> seen(after, a, b),
    ensures
        unvisited(after, cw, ch).len() < unvisited(before, cw, ch).len(),
{
    let ub = unvisited(before, cw, ch);
    let ua = unvisited(after, cw, ch);
    lemma_cells_finite(cw, ch);
    assert(ub.subset_of(cells(cw, ch)));
    lemma_len_subset(ub, cells(cw, ch));
    assert(ub.contains((x, y)));
    assert(ua.subset_of(ub.remove((x, y))));
    lemma_len_subset(ua, ub.remove((x, y)));
}

/// Whether `(i, j)` is a corner between four cells: no cell and no passage.
pub open spec fn is_pillar(i: int, j: int) -> bool {
    i % 2 == 0 && j % 2 == 0
}

/// What holds of the grid and the visit marks throughout carving: the sizes
/// fit, every tile is wall or floor, the border and the corners between the
/// cells are wall, and every visited cell is connected to the origin through
/// opened tiles.
pub open spec fn carving(maze: Seq<Vec<char>>, visited: Seq<Vec<bool>>, cw: int, ch: int) -> bool {
    &&& 1 <= cw
    &&& 1 <= ch
    &&& 4 * cw <= usize::MAX
    &&& 4 * ch <= usize::MAX
    &&& has_size(maze, 2 * cw + 1, 2 * ch + 1)
    &&& visited.len() == ch
    &&& forall|y: int| 0 <= y < ch ==> (#[trigger] visited[y]).len() == cw
    &&& forall|i: int, j: int|
        0 <= i < 2 * cw + 1 && 0 <= j < 2 * ch + 1 ==> #[trigger] tile(maze, i, j) == WALL || tile(
            maze,
            i,
            j,
        ) == FLOOR
    &&& forall|i: int, j: int|
        0 <= i < 2 * cw + 1 && 0 <= j < 2 * ch + 1 && (i == 0 || j == 0 || i == 2 * cw || j == 2 * ch
            || is_pillar(i, j)) ==> #[trigger] tile(maze, i, j) == WALL
    &&& forall|x: int, y: int|
        0 <= x < cw && 0 <= y < ch && #[trigger] seen(visited, x, y) ==> connected(
            carved_cells(maze),
            origin(),
            center(x, y),
        )
}

/// The cells that have been visited.
pub open spec fn seen_cells(visited: Seq<Vec<bool>>, cw: int, ch: int) -> Set<Pos> {
    Set::new(|p: Pos| 0 <= p.0 < cw && 0 <= p.1 < ch && seen(visited, p.0, p.1))
}

/// The tile in the middle of cell `(x, y)`.
pub open spec fn middle_tile(maze: Seq<Vec<char>>, x: int, y: int) -> char {
    tile(maze, 2 * x + 1, 2 * y + 1)
}

/// The tile between cell `(x, y)` and its right neighbour.
pub open spec fn east_tile(maze: Seq<Vec<char>>, x: int, y: int) -> char {
    tile(maze, 2 * x + 2, 2 * y + 1)
}

/// The tile between cell `(x, y)` and its lower neighbour.
pub open spec fn south_tile(maze: Seq<Vec<char>>, x: int, y: int) -> char {
    tile(maze, 2 * x + 1, 2 * y + 2)
}

/// The passages are counted: with the cells `inside` taken in, the opened
/// tiles are one for each of them and one for each but the first, the
/// passage by which it was reached. No cell outside has an open middle, and
/// an open tile between two cells joins two cells that are inside.
#[verifier::opaque]
pub open spec fn tallied(maze: Seq<Vec<char>>, inside: Set<Pos>, cw: int, ch: int) -> bool {
    &&& inside.subset_of(cells(cw, ch))
    &&& inside.contains((0, 0))
    &&& carved_cells(maze).finite()
    &&& carved_cells(maze).len() == 2 * inside.len() - 1
    &&& forall|x: int, y: int|
        0 <= x < cw && 0 <= y < ch && !inside.contains((x, y)) ==> #[trigger] middle_tile(maze, x, y)
            != FLOOR
    &&& forall|x: int, y: int|
        0 <= x < cw - 1 && 0 <= y < ch && #[trigger] east_tile(maze, x, y) == FLOOR ==> inside.contains(
            (x, y),
        ) && inside.contains((x + 1, y))
    &&& forall|x: int, y: int|
        0 <= x < cw && 0 <= y < ch - 1 && #[trigger] south_tile(maze, x, y) == FLOOR ==> inside.contains(
            (x, y),
        ) && inside.contains((x, y + 1))
}

/// `after` is `before` with the middles of the cells `(cx, cy)` and
/// `(nx, ny)` and the tile between them opened.
pub open spec fn passage_opened(
    before: Seq<Vec<char>>,
    after: Seq<Vec<char>>,
    cw: int,
    ch: int,
    cx: int,
    cy: int,
    nx: int,
    ny: int,
) -> bool {
    &&& has_size(before, 2 * cw + 1, 2 * ch + 1)
    &&& has_size(after, 2 * cw + 1, 2 * ch + 1)
    &&& forall|i: int, j: int|
        0 <= i < 2 * cw + 1 && 0 <= j < 2 * ch + 1 ==> #[trigger] tile(after, i, j) == if (i == 2 * cx + 1
            && j == 2 * cy + 1) || (i == 2 * nx + 1 && j == 2 * ny + 1) || (i == cx + nx + 1 && j == cy + ny
            + 1) {
            FLOOR
        } else {
            tile(before, i, j)
        }
}

/// Opening a passage from a connected cell connects its neighbour too, and
/// keeps what holds throughout carving.
proof fn lemma_passage_carving(
    before: Seq<Vec<char>>,
    after: Seq<Vec<char>>,
    visited: Seq<Vec<bool>>,
    cw: int,
    ch: int,
    cx: int,
    cy: int,
    nx: int,
    ny: int,
)
    requires
        carving(before, visited, cw, ch),
        passage_opened(before, after, cw, ch, cx, cy, nx, ny),
        0 <= cx < cw,
        0 <= cy < ch,
        0 <= nx < cw,
        0 <= ny < ch,
        (nx == cx && (ny == cy + 1 || cy == ny + 1)) || (ny == cy && (nx == cx + 1 || cx == nx + 1)),
        connected(carved_cells(before), origin(), center(cx, cy)),
    ensures
        carving(after, visited, cw, ch),
        carved_cells(before).subset_of(carved_cells(after)),
        carved_cells(before).contains(center(cx, cy)),
        connected(carved_cells(after), origin(), center(cx, cy)),
        connected(carved_cells(after), origin(), center(nx, ny)),
{
    let c1 = center(cx, cy);
    let c2 = center(nx, ny);
    let mid: Pos = (cx + nx + 1, cy + ny + 1);
    let opened = carved_cells(after);
    assert forall|p: Pos| carved_cells(before).contains(p) implies opened.contains(p) by {
        assert(after[p.1].len() == 2 * cw + 1);
        assert(tile(after, p.0, p.1) == FLOOR || tile(after, p.0, p.1) == tile(before, p.0, p.1));
    }
    assert(carved_cells(before).subset_of(opened));
    assert forall|x: int, y: int| 0 <= x < cw && 0 <= y < ch && #[trigger] seen(
        visited,
        x,
        y,
    ) implies connected(opened, origin(), center(x, y)) by {
        lemma_connected_grows(carved_cells(before), opened, origin(), center(x, y));
    }
    lemma_connected_grows(carved_cells(before), opened, origin(), c1);
    assert(after[mid.1].len() == 2 * cw + 1 && after[c2.1].len() == 2 * cw + 1);
    assert(tile(after, mid.0, mid.1) == FLOOR);
    assert(opened.contains(mid));
    lemma_connected_step(opened, origin(), c1, mid);
    assert(tile(after, c2.0, c2.1) == FLOOR);
    assert(opened.contains(c2));
    lemma_connected_step(opened, origin(), mid, c2);
    assert(carved_cells(before).contains(c1)) by {
        let path = choose|path: Seq<Pos>| #[trigger]
            is_path(carved_cells(before), path) && path[0] == origin() && path.last() == c1;
        assert(carved_cells(before).contains(path[path.len() - 1]));
    }
    assert forall|i: int, j: int| 0 <= i < 2 * cw + 1 && 0 <= j < 2 * ch + 1 implies #[trigger] tile(
        after,
        i,
        j,
    ) == WALL || tile(after, i, j) == FLOOR by {
        assert(tile(before, i, j) == WALL || tile(before, i, j) == FLOOR);
    }
    assert forall|i: int, j: int|
        0 <= i < 2 * cw + 1 && 0 <= j < 2 * ch + 1 && (i == 0 || j == 0 || i == 2 * cw || j == 2 * ch
            || is_pillar(i, j)) implies #[trigger] tile(after, i, j) == WALL by {
        assert(tile(before, i, j) == WALL);
    }
}

/// Opening a passage from a cell inside to a neighbour outside takes the
/// neighbour in and keeps the count.
proof fn lemma_passage_tally(
    before: Seq<Vec<char>>,
    after: Seq<Vec<char>>,
    inside: Set<Pos>,
    cw: int,
    ch: int,
    cx: int,
    cy: int,
    nx: int,
    ny: int,
)
    requires
        1 <= cw,
        1 <= ch,
        tallied(before, inside, cw, ch),
        passage_opened(before, after, cw, ch, cx, cy, nx, ny),
        0 <= cx < cw,
        0 <= cy < ch,
        0 <= nx < cw,
        0 <= ny < ch,
        (nx == cx && (ny == cy + 1 || cy == ny + 1)) || (ny == cy && (nx == cx + 1 || cx == nx + 1)),
        inside.contains((cx, cy)),
        !inside.contains((nx, ny)),
        carved_cells(before).contains(center(cx, cy)),
    ensures
        tallied(after, inside.insert((nx, ny)), cw, ch),
{
    reveal(tallied);
    let more = inside.insert((nx, ny));
    let c1 = center(cx, cy);
    let c2 = center(nx, ny);
    let mid: Pos = (cx + nx + 1, cy + ny + 1);
    let old_open = carved_cells(before);
    let new_open = carved_cells(after);
    lemma_cells_finite(cw, ch);
    lemma_len_subset(inside, cells(cw, ch));
    // the two new tiles were closed
    assert(!old_open.contains(c2)) by {
        assert(middle_tile(before, nx, ny) != FLOOR);
    }
    assert(!old_open.contains(mid)) by {
        if ny == cy {
            let x = if nx == cx + 1 { cx } else { nx };
            assert(mid == (2 * x + 2, 2 * cy + 1));
            if east_tile(before, x, cy) == FLOOR {
                assert(inside.contains((x, cy)) && inside.contains((x + 1, cy)));
            }
        } else {
            let y = if ny == cy + 1 { cy } else { ny };
            assert(mid == (2 * cx + 1, 2 * y + 2));
            if south_tile(before, cx, y) == FLOOR {
                assert(inside.contains((cx, y)) && inside.contains((cx, y + 1)));
            }
        }
    }
    assert forall|p: Pos| new_open.contains(p) <==> old_open.insert(mid).insert(c2).contains(p) by {
        let (i, j) = p;
        if 0 <= j < 2 * ch + 1 && 0 <= i < 2 * cw + 1 {
            assert(before[j].len() == 2 * cw + 1 && after[j].len() == 2 * cw + 1);
            assert(tile(after, i, j) == FLOOR || tile(after, i, j) == tile(before, i, j));
        }
    }
    assert(new_open =~= old_open.insert(mid).insert(c2));
    assert(new_open.len() == old_open.len() + 2);
    assert(more.len() == inside.len() + 1);
    assert forall|x: int, y: int| 0 <= x < cw && 0 <= y < ch && !more.contains((x, y)) implies #[trigger] middle_tile(
        after,
        x,
        y,
    ) != FLOOR by {
        assert(tile(after, 2 * x + 1, 2 * y + 1) == tile(before, 2 * x + 1, 2 * y + 1));
        assert(middle_tile(before, x, y) != FLOOR);
    }
    assert forall|x: int, y: int|
        0 <= x < cw - 1 && 0 <= y < ch && #[trigger] east_tile(after, x, y) == FLOOR implies more.contains(
        (x, y),
    ) && more.contains((x + 1, y)) by {
        if 2 * x + 2 == mid.0 && 2 * y + 1 == mid.1 {
        } else {
            assert(tile(after, 2 * x + 2, 2 * y + 1) == tile(before, 2 * x + 2, 2 * y + 1));
            assert(east_tile(before, x, y) == FLOOR);
        }
    }
    assert forall|x: int, y: int|
        0 <= x < cw && 0 <= y < ch - 1 && #[trigger] south_tile(after, x, y) == FLOOR implies more.contains(
        (x, y),
    ) && more.contains((x, y + 1)) by {
        if 2 * x + 1 == mid.0 && 2 * y + 2 == mid.1 {
        } else {
            assert(tile(after, 2 * x + 1, 2 * y + 2) == tile(before, 2 * x + 1, 2 * y + 2));
            assert(south_tile(before, x, y) == FLOOR);
        }
    }
}

/// Opens the tile at column `x` of row `y`.
fn open_tile(maze: &mut Maze, x: usize, y: usize)
    requires
        y < old(maze).len(),
        x < old(maze)[y as int].len(),
    ensures
        final(maze).len() == old(maze).len(),
        forall|j: int| 0 <= j < old(maze).len() ==> (#[trigger] final(maze)[j]).len() == old(maze)[j].len(),
        forall|i: int, j: int|
            0 <= j < old(maze).len() && 0 <= i < old(maze)[j].len() ==> #[trigger] tile(final(maze)@, i, j)
                == if i == x && j == y {
                FLOOR
            } else {
                tile(old(maze)@, i, j)
            },
{
    maze[y][x] = FLOOR;
}

/// Marks cell `(x, y)` as visited.
fn mark(visited: &mut Vec<Vec<bool>>, x: usize, y: usize)
    requires
        y < old(visited).len(),
        x < old(visited)[y as int].len(),
    ensures
        final(visited).len() == old(visited).len(),
        forall|j: int|
            0 <= j < old(visited).len() ==> (#[trigger] final(visited)[j]).len() == old(visited)[j].len(),
        forall|i: int, j: int|
            0 <= j < old(visited).len() && 0 <= i < old(visited)[j].len() ==> #[trigger] seen(
                final(visited)@,
                i,
                j,
            ) == (seen(old(visited)@, i, j) || (i == x && j == y)),
{
    visited[y][x] = true;
}

/// A step to one of the four neighbours.
pub open spec fn is_unit_step(d: (isize, isize)) -> bool {
    d == (0isize, -1isize) || d == (1isize, 0isize) || d == (0isize, 1isize) || d == (-1isize, 0isize)
}

/// The four steps, in some order.
spec fn all_steps(dirs: Seq<(isize, isize)>) -> bool {
    &&& dirs.len() == 4
    &&& forall|k: int| 0 <= k < 4 ==> is_unit_step(#[trigger] dirs[k])
    &&& forall|d: (isize, isize)| is_unit_step(d) ==> #[trigger] dirs.contains(d)
}

/// The four steps to a neighbour, in random order.
fn shuffled_steps(rng: &mut rand::rngs::ThreadRng) -> (dirs: Vec<(isize, isize)>)
    ensures
        all_steps(dirs@),
{
    let mut dirs: Vec<(isize, isize)> = Vec::new();
    dirs.push((0, -1));
    dirs.push((1, 0));
    dirs.push((0, 1));
    dirs.push((-1, 0));
    let ghost fixed = dirs@;
    assert(fixed =~= seq![(0isize, -1isize), (1isize, 0isize), (0isize, 1isize), (-1isize, 0isize)]);
    shuffle(&mut dirs, rng);
    proof {
        fixed.to_multiset_ensures();
        dirs@.to_multiset_ensures();
        assert forall|k: int| 0 <= k < 4 implies is_unit_step(#[trigger] dirs@[k]) by {
            assert(dirs@.contains(dirs@[k]));
            assert(dirs@.to_multiset().count(dirs@[k]) > 0);
            assert(fixed.to_multiset().count(dirs@[k]) > 0);
            assert(fixed.contains(dirs@[k]));
        }
        assert forall|d: (isize, isize)| is_unit_step(d) implies #[trigger] dirs@.contains(d) by {
            assert(fixed[0] == (0isize, -1isize) && fixed[1] == (1isize, 0isize) && fixed[2] == (
                0isize,
                1isize,
            ) && fixed[3] == (-1isize, 0isize));
            assert(fixed.contains(d));
            assert(fixed.to_multiset().count(d) > 0);
            assert(dirs@.to_multiset().count(d) > 0);
        }
    }
    dirs
}

/// Whether the neighbour of cell `(x, y)` in direction `d` has been visited,
/// where the cell grid has such a neighbour.
pub open spec fn neighbour_seen(
    visited: Seq<Vec<bool>>,
    cw: int,
    ch: int,
    x: int,
    y: int,
    d: (isize, isize),
) -> bool {
    0 <= x + d.0 < cw && 0 <= y + d.1 < ch ==> seen(visited, x + d.0, y + d.1)
}

/// Opens the middle of cell `(cx, cy)`, the middle of its neighbour
/// `(nx, ny)`, and the tile between the two.
fn open_passage(
    cx: usize,
    cy: usize,
    nx: usize,
    ny: usize,
    cw: usize,
    ch: usize,
    maze: &mut Maze,
    visited: &Vec<Vec<bool>>,
)
    requires
        carving(old(maze)@, visited@, cw as int, ch as int),
        cx < cw,
        cy < ch,
        nx < cw,
        ny < ch,
        (nx == cx && (ny == cy + 1 || cy == ny + 1)) || (ny == cy && (nx == cx + 1 || cx == nx + 1)),
        connected(carved_cells(old(maze)@), origin(), center(cx as int, cy as int)),
        tallied(old(maze)@, seen_cells(visited@, cw as int, ch as int), cw as int, ch as int),
        seen(visited@, cx as int, cy as int),
        !seen(visited@, nx as int, ny as int),
    ensures
        carving(final(maze)@, visited@, cw as int, ch as int),
        carved_cells(old(maze)@).subset_of(carved_cells(final(maze)@)),
        connected(carved_cells(final(maze)@), origin(), center(cx as int, cy as int)),
        connected(carved_cells(final(maze)@), origin(), center(nx as int, ny as int)),
        tallied(
            final(maze)@,
            seen_cells(visited@, cw as int, ch as int).insert((nx as int, ny as int)),
            cw as int,
            ch as int,
        ),
{
    let ghost w = cw as int;
    let ghost h = ch as int;
    let x1: usize = cx * 2 + 1;
    let y1: usize = cy * 2 + 1;
    let x2: usize = nx * 2 + 1;
    let y2: usize = ny * 2 + 1;
    open_tile(maze, x1, y1);
    open_tile(maze, x2, y2);
    open_tile(maze, (x1 + x2) / 2, (y1 + y2) / 2);
    proof {
        let before = old(maze)@;
        assert(passage_opened(before, maze@, w, h, cx as int, cy as int, nx as int, ny as int));
        lemma_passage_carving(before, maze@, visited@, w, h, cx as int, cy as int, nx as int, ny as int);
        lemma_passage_tally(
            before,
            maze@,
            seen_cells(visited@, w, h),
            w,
            h,
            cx as int,
            cy as int,
            nx as int,
            ny as int,
        );
    }
}

/// Visits cell `(cx, cy)` and carves on from it: for each neighbour, taken in
/// random order, that has not been visited when its turn comes, the wall
/// between the two cells is opened and carving goes on from the neighbour.
pub fn carve(
    cx: usize,
    cy: usize,
    cw: usize,
    ch: usize,
    maze: &mut Maze,
    visited: &mut Vec<Vec<bool>>,
    rng: &mut rand::rngs::ThreadRng,
)
    requires
        carving(old(maze)@, old(visited)@, cw as int, ch as int),
        cx < cw,
        cy < ch,
        !seen(old(visited)@, cx as int, cy as int),
        connected(carved_cells(old(maze)@), origin(), center(cx as int, cy as int)),
        tallied(
            old(maze)@,
            seen_cells(old(visited)@, cw as int, ch as int).insert((cx as int, cy as int)),
            cw as int,
            ch as int,
        ),
    ensures
        carving(final(maze)@, final(visited)@, cw as int, ch as int),
        tallied(final(maze)@, seen_cells(final(visited)@, cw as int, ch as int), cw as int, ch as int),
        seen(final(visited)@, cx as int, cy as int),
        forall|x: int, y: int|
            0 <= x < cw && 0 <= y < ch && seen(old(visited)@, x, y) ==> #[trigger] seen(final(visited)@, x, y),
        forall|x: int, y: int|
            0 <= x < cw && 0 <= y < ch && #[trigger] seen(final(visited)@, x, y) && !seen(
                old(visited)@,
                x,
                y,
            ) ==> closed_at(final(visited)@, cw as int, ch as int, x, y),
        carved_cells(old(maze)@).subset_of(carved_cells(final(maze)@)),
    decreases unvisited(old(visited)@, cw as int, ch as int).len(),
{
    let ghost w = cw as int;
    let ghost h = ch as int;
    mark(visited, cx, cy);
    let dirs = shuffled_steps(rng);
    proof {
        lemma_fewer_unvisited(old(visited)@, visited@, w, h, cx as int, cy as int);
        assert(seen_cells(visited@, w, h) =~= seen_cells(old(visited)@, w, h).insert((cx as int, cy as int)));
    }
    let mut k: usize = 0;
    while k < dirs.len()
        invariant
            w == cw,
            h == ch,
            cx < cw,
            cy < ch,
            k <= 4,
            all_steps(dirs@),
            carving(maze@, visited@, w, h),
            tallied(maze@, seen_cells(visited@, w, h), w, h),
            !seen(old(visited)@, cx as int, cy as int),
            seen(visited@, cx as int, cy as int),
            connected(carved_cells(maze@), origin(), center(cx as int, cy as int)),
            carved_cells(old(maze)@).subset_of(carved_cells(maze@)),
            forall|x: int, y: int|
                0 <= x < w && 0 <= y < h && seen(old(visited)@, x, y) ==> #[trigger] seen(visited@, x, y),
            forall|x: int, y: int|
                0 <= x < w && 0 <= y < h && #[trigger] seen(visited@, x, y) && !seen(old(visited)@, x, y)
                    && !(x == cx && y == cy) ==> closed_at(visited@, w, h, x, y),
            forall|m: int|
                0 <= m < k ==> neighbour_seen(visited@, w, h, cx as int, cy as int, #[trigger] dirs[m]),
            unvisited(visited@, w, h).len() < unvisited(old(visited)@, w, h).len(),
        decreases dirs.len() - k,
    {
        let d: (isize, isize) = dirs[k];
        assert(is_unit_step(d));
        let nx: isize = cx as isize + d.0;
        let ny: isize = cy as isize + d.1;
        if !(nx < 0 || nx >= cw as isize || ny < 0 || ny >= ch as isize) {
            let nx: usize = nx as usize;
            let ny: usize = ny as usize;
            if !visited[ny][nx] {
                let ghost marks = visited@;
                open_passage(cx, cy, nx, ny, cw, ch, maze, visited);
                let ghost opened = maze@;
                carve(nx, ny, cw, ch, maze, visited, rng);
                proof {
                    lemma_fewer_unvisited(old(visited)@, visited@, w, h, cx as int, cy as int);
                    lemma_connected_grows(
                        carved_cells(opened),
                        carved_cells(maze@),
                        origin(),
                        center(cx as int, cy as int),
                    );
                    assert forall|m: int| 0 <= m < k implies neighbour_seen(
                        visited@,
                        w,
                        h,
                        cx as int,
                        cy as int,
                        #[trigger] dirs[m],
                    ) by {
                        assert(neighbour_seen(marks, w, h, cx as int, cy as int, dirs[m]));
                    }
                    assert forall|x: int, y: int|
                        0 <= x < w && 0 <= y < h && #[trigger] seen(visited@, x, y) && !seen(
                            old(visited)@,
                            x,
                            y,
                        ) && !(x == cx && y == cy) implies closed_at(visited@, w, h, x, y) by {
                        if seen(marks, x, y) {
                            assert(closed_at(marks, w, h, x, y));
                        }
                    }
                }
            }
        }
        k += 1;
    }
    proof {
        let x = cx as int;
        let y = cy as int;
        assert(closed_at(visited@, w, h, x, y)) by {
            assert(dirs@.contains((1isize, 0isize)));
            assert(dirs@.contains((-1isize, 0isize)));
            assert(dirs@.contains((0isize, 1isize)));
            assert(dirs@.contains((0isize, -1isize)));
        }
    }
}

} // verus!
