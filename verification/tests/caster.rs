use raycaster::caster::{cast_step, RAY_STEP};
use raycaster::color::Color;
use raycaster::framebuffer::Framebuffer;
use raycaster::maze::Maze;

fn grid(rows: &[&str]) -> Maze {
    rows.iter().map(|r| r.chars().collect()).collect()
}

/// Marches a ray from `(px, py)` at angle `a`, one sample every `RAY_STEP`
/// units, until a sample is stopped.
fn march(maze: &Maze, px: f32, py: f32, a: f32, block_size: usize) -> (f32, char) {
    let mut fb = Framebuffer::new(0, 0);
    let mut d: f32 = 0.0;
    loop {
        let x = (px + d * a.cos()).floor() as isize;
        let y = (py + d * a.sin()).floor() as isize;
        if let Some(c) = cast_step(&mut fb, maze, x, y, block_size, false) {
            return (d, c);
        }
        d += RAY_STEP as f32;
    }
}

#[test]
fn ray_step_is_ten_units() {
    assert_eq!(RAY_STEP, 10);
}

#[test]
fn cast_step_stops_at_walls_and_outside() {
    let m = grid(&["###", "# A", "###"]);
    let mut fb = Framebuffer::new(4, 4);
    assert_eq!(cast_step(&mut fb, &m, 70, 70, 64, false), None);
    assert_eq!(cast_step(&mut fb, &m, 130, 70, 64, false), Some('A'));
    assert_eq!(cast_step(&mut fb, &m, 10, 70, 64, false), Some('#'));
    assert_eq!(cast_step(&mut fb, &m, 200, 70, 64, false), Some(' '));
    assert_eq!(cast_step(&mut fb, &m, 70, 192, 64, false), Some(' '));
}

#[test]
fn cast_step_before_the_first_row_or_column_is_outside() {
    let m = grid(&["   ", "   "]);
    let mut fb = Framebuffer::new(4, 4);
    assert_eq!(cast_step(&mut fb, &m, -1, 5, 10, true), Some(' '));
    assert_eq!(cast_step(&mut fb, &m, 5, -1, 10, true), Some(' '));
    assert_eq!(cast_step(&mut fb, &m, isize::MIN, isize::MIN, 10, true), Some(' '));
    assert_eq!(cast_step(&mut fb, &m, 0, 0, 10, false), None);
    for y in 0..4 {
        for x in 0..4 {
            assert_eq!(fb.get_pixel(x, y), Some(Color::black()));
        }
    }
}

#[test]
fn cast_step_marks_open_samples_when_asked() {
    let m = grid(&["   ", "   "]);
    let mut fb = Framebuffer::new(8, 8);
    let pen = Color::new(9, 9, 9, 9);
    fb.set_current_color(pen);
    assert_eq!(cast_step(&mut fb, &m, 3, 5, 4, true), None);
    assert_eq!(cast_step(&mut fb, &m, 6, 1, 4, false), None);
    for y in 0..8 {
        for x in 0..8 {
            let want = if x == 3 && y == 5 { pen } else { Color::black() };
            assert_eq!(fb.get_pixel(x, y), Some(want));
        }
    }
}

#[test]
fn cast_step_does_not_mark_stopped_samples() {
    let m = grid(&["# ", "  "]);
    let mut fb = Framebuffer::new(40, 40);
    assert_eq!(cast_step(&mut fb, &m, 3, 3, 10, true), Some('#'));
    assert_eq!(cast_step(&mut fb, &m, 25, 3, 10, true), Some(' '));
    assert_eq!(fb.get_pixel(3, 3), Some(Color::black()));
    assert_eq!(fb.get_pixel(25, 3), Some(Color::black()));
}

#[test]
fn cast_step_ignores_marks_off_the_overlay() {
    let m = grid(&["    "]);
    let mut fb = Framebuffer::new(2, 2);
    assert_eq!(cast_step(&mut fb, &m, 30, 5, 10, true), None);
    for y in 0..2 {
        for x in 0..2 {
            assert_eq!(fb.get_pixel(x, y), Some(Color::black()));
        }
    }
}

#[test]
fn axis_aligned_ray_is_within_one_step_of_the_wall() {
    // a corridor along x: the wall beyond it starts at x = 5 * 64
    let m = grid(&["#######", "#     #", "#######"]);
    for start in [70.0f32, 100.5, 163.0, 200.0, 318.0] {
        let (d, c) = march(&m, start, 96.0, 0.0, 64);
        assert_eq!(c, '#');
        let exact = 6.0 * 64.0 - start;
        assert!(d >= exact && d < exact + RAY_STEP as f32, "from {}: {} for {}", start, d, exact);
    }
    // and along y, downwards
    let m = grid(&["###", "# #", "# #", "# #", "#A#"]);
    for start in [64.0f32, 80.0, 255.0] {
        let (d, c) = march(&m, 96.0, start, std::f32::consts::FRAC_PI_2, 64);
        assert_eq!(c, 'A');
        let exact = 4.0 * 64.0 - start;
        assert!(d >= exact && d < exact + RAY_STEP as f32);
    }
}

#[test]
fn ray_through_open_ground_leaves_the_grid() {
    let m = grid(&["    ", "    ", "    "]);
    // towards the right edge at x = 200, the lower edge at y = 150
    let (d, c) = march(&m, 20.0, 75.0, 0.0, 50);
    assert_eq!(c, ' ');
    assert!(d >= 180.0 && d < 190.0);
    let (d, c) = march(&m, 20.0, 75.0, std::f32::consts::FRAC_PI_2, 50);
    assert_eq!(c, ' ');
    assert!(d >= 75.0 && d < 85.0);
    let (d, c) = march(&m, 20.0, 75.0, std::f32::consts::FRAC_PI_4, 50);
    assert_eq!(c, ' ');
    assert!(d >= 75.0 * std::f32::consts::SQRT_2);
}

#[test]
fn ray_through_open_ground_leaves_the_grid_on_the_low_sides() {
    let m = grid(&["    ", "    ", "    "]);
    let (d, c) = march(&m, 20.0, 75.0, std::f32::consts::PI, 50);
    assert_eq!(c, ' ');
    assert!(d >= 20.0 && d <= 30.0);
    let (d, c) = march(&m, 20.0, 75.0, -std::f32::consts::FRAC_PI_2, 50);
    assert_eq!(c, ' ');
    assert!(d >= 75.0 && d <= 85.0);
    let (d, c) = march(&m, 20.0, 75.0, -2.5, 50);
    assert_eq!(c, ' ');
    assert!(d >= 20.0 && d <= 40.0);
    // every direction leaves a maze without walls
    for k in 0..64 {
        let a = k as f32 * std::f32::consts::PI / 32.0;
        let (d, c) = march(&m, 100.0, 75.0, a, 50);
        assert_eq!(c, ' ');
        assert!(d >= 75.0 && d <= 150.0);
    }
}

#[test]
fn cosine_correction_flattens_a_wall() {
    // a wall face at x = 640, seen from (100, 320) looking along x
    let rows: Vec<String> = (0..10).map(|_| "          #".to_string()).collect();
    let refs: Vec<&str> = rows.iter().map(|r| r.as_str()).collect();
    let m = grid(&refs);
    let facing = 0.0f32;
    let (straight, _) = march(&m, 100.0, 320.0, facing, 64);
    for off in [0.05f32, 0.2, 0.4] {
        let (left, _) = march(&m, 100.0, 320.0, facing - off, 64);
        let (right, _) = march(&m, 100.0, 320.0, facing + off, 64);
        let pl = left * (-off).cos();
        let pr = right * off.cos();
        assert!((pl - pr).abs() < 1e-3);
        assert!((pl - straight).abs() < RAY_STEP as f32);
        assert!(left > straight);
    }
}

#[test]
fn single_tile_maze_is_left_after_a_few_steps() {
    let m = grid(&["p"]);
    assert_eq!(march(&m, 32.0, 32.0, 0.0, 64), (40.0, ' '));
    assert_eq!(march(&m, 32.0, 32.0, std::f32::consts::FRAC_PI_2, 64), (40.0, ' '));
    assert_eq!(march(&m, 32.0, 32.0, std::f32::consts::FRAC_PI_4, 64), (50.0, ' '));
    assert_eq!(march(&m, 63.5, 0.0, 0.3, 64), (10.0, ' '));
    assert_eq!(march(&m, 64.0, 10.0, 2.0, 64), (0.0, ' '));
}
