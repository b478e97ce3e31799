use raycaster::maze::{
    cell_center, find_start, has_cell, is_goal_at, is_rectangular, is_walkable_at, make_maze, obstacle,
    retile_walls_stripes,
    walkable, Maze,
};
use raycaster::parse::parse_maze;

fn grid(rows: &[&str]) -> Maze {
    rows.iter().map(|r| r.chars().collect()).collect()
}

fn text(maze: &Maze) -> Vec<String> {
    maze.iter().map(|r| r.iter().collect()).collect()
}

#[test]
fn walkable_tiles_are_floor_start_and_goal() {
    assert!(walkable(' '));
    assert!(walkable('p'));
    assert!(walkable('g'));
    assert!(!walkable('#'));
    assert!(!walkable('A'));
    assert!(!walkable('x'));
}

#[test]
fn parse_maze_takes_one_row_per_line() {
    let m = parse_maze("###\n#p#\n###\n");
    assert_eq!(text(&m), vec!["###", "#p#", "###"]);
}

#[test]
fn parse_maze_keeps_a_last_line_without_line_feed() {
    let m = parse_maze("#g\n #");
    assert_eq!(text(&m), vec!["#g", " #"]);
}

#[test]
fn parse_maze_strips_carriage_returns_before_line_feeds() {
    let m = parse_maze("ab\r\ncd\r\n");
    assert_eq!(text(&m), vec!["ab", "cd"]);
    let m = parse_maze("a\rb\n");
    assert_eq!(text(&m), vec!["a\rb"]);
    let m = parse_maze("ab\r");
    assert_eq!(text(&m), vec!["ab\r"]);
    let m = parse_maze("\r\r\n");
    assert_eq!(text(&m), vec!["\r"]);
}

#[test]
fn parse_maze_keeps_empty_lines() {
    let m = parse_maze("a\n\nb\n\n");
    assert_eq!(text(&m), vec!["a", "", "b", ""]);
    let m = parse_maze("\n");
    assert_eq!(text(&m), vec![""]);
}

#[test]
fn parse_maze_of_nothing_is_empty() {
    assert_eq!(parse_maze("").len(), 0);
}

#[test]
fn parse_maze_agrees_with_str_lines() {
    for t in ["", "\n", "a", "a\n", "a\r\n", "\r\n\r\n", "ab\ncd", "x\n\n\ny\r", "###\n# #\n###", "é✓\nñ"] {
        let want: Vec<String> = t.lines().map(|l| l.to_string()).collect();
        assert_eq!(text(&parse_maze(t)), want, "text {:?}", t);
    }
}

#[test]
fn parse_maze_reads_a_single_tile() {
    let m = parse_maze("p");
    assert_eq!(m, vec![vec!['p']]);
    assert_eq!(find_start(&m), Some((0, 0)));
    assert_eq!(obstacle(&m, 5, 5, 64), None);
    assert_eq!(obstacle(&m, 64, 5, 64), Some(' '));
}

#[test]
fn find_start_gives_column_then_row() {
    let m = grid(&["####", "#  #", "# p#", "####"]);
    assert_eq!(find_start(&m), Some((2, 2)));
}

#[test]
fn find_start_takes_the_first_in_reading_order() {
    let m = grid(&["#  p", "p  #", "pp##"]);
    assert_eq!(find_start(&m), Some((3, 0)));
    let m = grid(&["", "#", " pp"]);
    assert_eq!(find_start(&m), Some((1, 2)));
}

#[test]
fn find_start_without_start_is_none() {
    assert_eq!(find_start(&grid(&["###", "#g#", "###"])), None);
    assert_eq!(find_start(&Vec::new()), None);
}

#[test]
fn cell_center_is_the_middle_of_the_cell() {
    assert_eq!(cell_center(0, 64), Some(32));
    assert_eq!(cell_center(1, 64), Some(96));
    assert_eq!(cell_center(3, 7), Some(24));
    assert_eq!(cell_center(5, 0), Some(0));
}

#[test]
fn cell_center_beyond_usize_is_none() {
    assert_eq!(cell_center(usize::MAX, 2), None);
    assert_eq!(cell_center(2, usize::MAX), None);
    assert_eq!(cell_center(1, usize::MAX), None);
    assert_eq!(cell_center(0, usize::MAX), Some(usize::MAX / 2));
    assert_eq!(cell_center(usize::MAX, 1), Some(usize::MAX));
}

#[test]
fn is_rectangular_compares_with_the_first_row() {
    assert!(is_rectangular(&Vec::new()));
    assert!(is_rectangular(&grid(&[""])));
    assert!(is_rectangular(&grid(&["ab", "cd", "ef"])));
    assert!(!is_rectangular(&grid(&["ab", "c", "ef"])));
    assert!(!is_rectangular(&grid(&["ab", "cd", "efg"])));
    assert!(!is_rectangular(&grid(&["", "x"])));
}

#[test]
fn obstacle_reports_walls_by_their_tile() {
    let m = grid(&["#A#", "#p ", "#g#"]);
    assert_eq!(obstacle(&m, 0, 0, 10), Some('#'));
    assert_eq!(obstacle(&m, 10, 9, 10), Some('A'));
    assert_eq!(obstacle(&m, 19, 0, 10), Some('A'));
    assert_eq!(obstacle(&m, 20, 0, 10), Some('#'));
}

#[test]
fn obstacle_lets_walkable_tiles_pass() {
    let m = grid(&["#A#", "#p ", "#g#"]);
    assert_eq!(obstacle(&m, 10, 10, 10), None);
    assert_eq!(obstacle(&m, 29, 19, 10), None);
    assert_eq!(obstacle(&m, 15, 25, 10), None);
}

#[test]
fn obstacle_outside_the_grid_is_a_blank() {
    let m = grid(&["#A#", "#p ", "#g#"]);
    assert_eq!(obstacle(&m, 30, 10, 10), Some(' '));
    assert_eq!(obstacle(&m, 10, 30, 10), Some(' '));
    assert_eq!(obstacle(&m, usize::MAX, usize::MAX, 10), Some(' '));
    assert_eq!(obstacle(&Vec::new(), 0, 0, 10), Some(' '));
}

#[test]
fn is_walkable_at_goes_by_the_cell() {
    let m = grid(&["#A#", "#p ", "#g#"]);
    assert!(is_walkable_at(&m, 10, 10, 10));
    assert!(is_walkable_at(&m, 10, 20, 10));
    assert!(!is_walkable_at(&m, 10, 0, 10));
    assert!(!is_walkable_at(&m, 10, 30, 10));
    assert!(!is_walkable_at(&m, 10, 10, 30));
}

#[test]
fn is_goal_at_finds_the_goal_cell() {
    let m = grid(&["#A#", "#p ", "#g#"]);
    assert!(is_goal_at(&m, 10, 15, 25));
    assert!(!is_goal_at(&m, 10, 15, 15));
    assert!(!is_goal_at(&m, 10, 15, 35));
    assert!(!is_goal_at(&m, 10, 35, 25));
}

#[test]
fn retile_lays_stripes_on_inner_walls() {
    let mut m = grid(&[
        "#######", //
        "#######", //
        "#######", //
        "#######", //
        "#######", //
        "#######", //
        "#######",
    ]);
    retile_walls_stripes(&mut m);
    assert_eq!(
        text(&m),
        vec![
            "#######", //
            "#A#####", //
            "####AA#", //
            "####AA#", //
            "##AA###", //
            "##AA###", //
            "#######",
        ]
    );
}

#[test]
fn retile_leaves_floor_start_and_goal() {
    let mut m = grid(&["#####", "#p  #", "# g #", "#   #", "#####"]);
    let before = m.clone();
    retile_walls_stripes(&mut m);
    assert_eq!(m, before);
}

#[test]
fn retile_leaves_small_grids() {
    for rows in [vec![], vec!["#"], vec!["###", "###"], vec!["", ""], vec!["#", "#", "#"], vec!["##", "##", "##"]] {
        let mut m = grid(&rows);
        let before = m.clone();
        retile_walls_stripes(&mut m);
        assert_eq!(m, before);
    }
}

#[test]
fn retile_goes_by_the_first_row() {
    let mut m = grid(&["######", "#####", "#########", "######"]);
    retile_walls_stripes(&mut m);
    assert_eq!(text(&m), vec!["######", "#A###", "####A####", "######"]);
}

fn count(maze: &Maze, c: char) -> usize {
    maze.iter().map(|r| r.iter().filter(|&&t| t == c).count()).sum()
}

fn flood(maze: &Maze, from: (usize, usize)) -> Vec<Vec<bool>> {
    let mut seen = vec![vec![false; maze[0].len()]; maze.len()];
    let mut stack = vec![from];
    while let Some((i, j)) = stack.pop() {
        if j >= maze.len() || i >= maze[j].len() || seen[j][i] || !walkable(maze[j][i]) {
            continue;
        }
        seen[j][i] = true;
        stack.push((i + 1, j));
        stack.push((i, j + 1));
        if i > 0 {
            stack.push((i - 1, j));
        }
        if j > 0 {
            stack.push((i, j - 1));
        }
    }
    seen
}

fn check_generated(cw: usize, ch: usize) {
    let m = make_maze(cw, ch);
    let gw = 2 * cw + 1;
    let gh = 2 * ch + 1;
    assert_eq!(m.len(), gh);
    for row in &m {
        assert_eq!(row.len(), gw);
    }
    assert_eq!(count(&m, 'g'), 1);
    assert_eq!(m[gh - 2][gw - 2], 'g');
    if cw == 1 && ch == 1 {
        assert_eq!(count(&m, 'p'), 0);
    } else {
        assert_eq!(count(&m, 'p'), 1);
        assert_eq!(m[1][1], 'p');
    }
    let seen = flood(&m, (1, 1));
    for j in 0..gh {
        for i in 0..gw {
            let c = m[j][i];
            assert!(c == '#' || c == 'A' || c == ' ' || c == 'p' || c == 'g');
            let border = i == 0 || j == 0 || i == gw - 1 || j == gh - 1;
            if border {
                assert_eq!(c, '#');
            }
            let stripe = (i / 2 + j / 2) % 3 == 0;
            if c == 'A' {
                assert!(!border && stripe);
            }
            if c == '#' {
                assert!(border || !stripe);
            }
            if i % 2 == 1 && j % 2 == 1 {
                assert!(seen[j][i], "cell ({}, {}) of a {}x{} maze is cut off", i, j, cw, ch);
            }
            if walkable(c) {
                assert!(seen[j][i]);
            }
        }
    }
    // a maze carved depth first is a tree: one passage fewer than cells
    let open = count(&m, ' ') + count(&m, 'p') + count(&m, 'g');
    assert_eq!(open, cw * ch + (cw * ch - 1));
}

#[test]
fn make_maze_joins_start_and_goal() {
    for _ in 0..20 {
        check_generated(12, 9);
    }
}

#[test]
fn make_maze_works_for_every_small_grid() {
    for cw in 1..7 {
        for ch in 1..7 {
            check_generated(cw, ch);
        }
    }
}

#[test]
fn make_maze_of_one_cell_has_the_goal_in_it() {
    let m = make_maze(1, 1);
    assert_eq!(text(&m), vec!["###", "#g#", "###"]);
}

#[test]
fn make_maze_of_one_row_is_a_corridor() {
    let m = make_maze(4, 1);
    assert_eq!(text(&m), vec!["#########", "#p     g#", "#########"]);
    let m = make_maze(1, 3);
    assert_eq!(text(&m), vec!["###", "#p#", "# #", "# #", "# #", "#g#", "###"]);
}

#[test]
fn make_maze_carves_in_random_order() {
    let first = make_maze(8, 8);
    let mut differs = false;
    for _ in 0..40 {
        if make_maze(8, 8) != first {
            differs = true;
        }
    }
    assert!(differs);
}

#[test]
fn make_maze_handles_a_long_walk() {
    check_generated(60, 40);
}

#[test]
fn has_cell_tells_where_a_row_is_too_short() {
    let m = grid(&["####", "#", "####"]);
    // the second row holds column 0 only
    assert!(has_cell(&m, 5, 15, 10));
    assert!(!has_cell(&m, 15, 15, 10));
    assert!(!has_cell(&m, 39, 19, 10));
    // other rows and points outside the grid need no cell
    assert!(has_cell(&m, 35, 5, 10));
    assert!(has_cell(&m, 40, 15, 10));
    assert!(has_cell(&m, 15, 30, 10));
    assert!(has_cell(&Vec::new(), 0, 0, 1));
}

#[test]
fn obstacle_reads_a_ragged_maze_where_its_rows_reach() {
    let m = grid(&["# #", " ", "#A# #"]);
    assert_eq!(obstacle(&m, 5, 15, 10), None);
    assert_eq!(obstacle(&m, 15, 25, 10), Some('A'));
    // the width goes by the first row
    assert_eq!(obstacle(&m, 45, 25, 10), Some(' '));
}
