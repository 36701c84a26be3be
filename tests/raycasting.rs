use raycaster::camera::Camera;
use raycaster::compose::{compose_frame, fade, render_background, render_column};
use raycaster::framebuffer::{Framebuffer, Pixel};
use raycaster::game::{render, GameState};
use raycaster::geometry::{bound, floor_div, Vector, TURN, UNIT};
use raycaster::map::{Grid, EMPTY};
use raycaster::raycast::{
    cast_columns, column_cosines, column_heading, column_headings, correct_distance, cosine, shoot_vector,
};
use raycaster::screen::{diff, CellWrite, Screen};

fn room(w: usize, h: usize) -> Grid {
    let mut rows = Vec::new();
    for y in 0..h {
        let mut row = Vec::new();
        for x in 0..w {
            if x == 0 || y == 0 || x == w - 1 || y == h - 1 {
                row.push('#');
            } else {
                row.push(' ');
            }
        }
        rows.push(row);
    }
    Grid::new(rows).unwrap()
}

fn unit_of(heading: i64) -> Vector {
    let a = heading as f64 / TURN as f64 * 2.0 * std::f64::consts::PI;
    Vector { x: (a.cos() * UNIT as f64).round() as i64, y: (a.sin() * UNIT as f64).round() as i64 }
}

fn cos_off(heading: i64, dir: i64) -> i64 {
    let a = (heading - dir) as f64 / TURN as f64 * 2.0 * std::f64::consts::PI;
    (a.cos() * UNIT as f64).round() as i64
}

fn frame_inputs(cam: &Camera, width: usize) -> (Vec<Vector>, Vec<i64>) {
    let headings = column_headings(cam, width);
    let dirs = headings.iter().map(|h| unit_of(*h)).collect();
    let cosines = headings.iter().map(|h| cos_off(*h, cam.dir)).collect();
    (dirs, cosines)
}

#[test]
fn rays_at_the_four_walls_of_a_room() {
    let grid = room(5, 5);
    let p = Vector { x: 2_500_000, y: 2_500_000 };
    for quarter in 0..4 {
        let v = unit_of(quarter * TURN / 4);
        let (c, d) = shoot_vector(&grid, p, v);
        assert_eq!(c, '#');
        assert!((d - 1500).abs() <= 1, "heading {} gave {}", quarter, d);
    }
    assert_eq!(shoot_vector(&grid, p, Vector { x: UNIT, y: 0 }), ('#', 1500));
    assert_eq!(shoot_vector(&grid, p, Vector { x: -UNIT, y: 0 }), ('#', 1501));
}

#[test]
fn ray_leaving_an_open_grid_returns_empty() {
    let grid = Grid::new(vec![vec![' ', ' '], vec![' ', ' ']]).unwrap();
    let (c, d) = shoot_vector(&grid, Vector { x: 500_000, y: 500_000 }, Vector { x: UNIT, y: 0 });
    assert_eq!(c, EMPTY);
    assert_eq!(d, 1500);
}

#[test]
fn ray_without_direction_stops_at_the_step_cap() {
    let grid = Grid::new(vec![vec![' ', ' '], vec![' ', ' ']]).unwrap();
    let (c, d) = shoot_vector(&grid, Vector { x: 500_000, y: 500_000 }, Vector { x: 0, y: 0 });
    assert_eq!(c, EMPTY);
    assert_eq!(d, 5000);
}

#[test]
fn fisheye_correction_flattens_a_wall() {
    let grid = room(40, 40);
    let cam = Camera { pos: Vector { x: 20_500_000, y: 20_500_000 }, dir: 0, fov: TURN * 55 / 360 };
    let (dirs, cosines) = frame_inputs(&cam, 41);
    let depth = cast_columns(&grid, cam.pos, &dirs, &cosines);
    let raw_first = shoot_vector(&grid, cam.pos, dirs[0]).1;
    assert!(raw_first > 19_000);
    for (c, d) in depth {
        assert_eq!(c, '#');
        assert!((d - 18_500).abs() <= 3, "corrected distance {}", d);
    }
}

#[test]
fn small_room_columns_agree() {
    let grid = room(3, 3);
    let cam = Camera { pos: Vector { x: 1_500_000, y: 1_500_000 }, dir: 0, fov: TURN / 36 };
    let mut game = GameState::new(3, 10, grid, cam);
    let (dirs, _) = frame_inputs(&cam, 3);
    render(&mut game, &dirs, unit_of(cam.dir));
    for (c, d) in game.depth_buf.iter() {
        assert_eq!(*c, '#');
        assert!((*d - 500).abs() <= 2, "corrected distance {}", d);
    }
    let first = game.depth_buf[0].1;
    assert!(game.depth_buf.iter().all(|e| (e.1 - first).abs() <= 2));
    assert_eq!(game.screen.front.get(1, 5), Pixel { c: '\u{2588}', fg: 36, bg: 36 });
}

#[test]
fn column_headings_spread_the_field_of_view() {
    let cam = Camera { pos: Vector { x: 0, y: 0 }, dir: 0, fov: 40_000 };
    assert_eq!(column_headings(&cam, 3), vec![1_420_000, 1_433_333, 6_666]);
    assert_eq!(column_heading(&cam, 3, 1), 1_433_333);
    let cam = Camera { pos: Vector { x: 0, y: 0 }, dir: 360_000, fov: 720_000 };
    assert_eq!(column_headings(&cam, 4), vec![0, 180_000, 360_000, 540_000]);
}

#[test]
fn correction_scales_by_the_cosine() {
    assert_eq!(correct_distance(2000, UNIT / 2), 1000);
    assert_eq!(correct_distance(2000, UNIT), 2000);
    assert_eq!(correct_distance(3, -UNIT / 2), -2);
    assert_eq!(correct_distance(0, 123), 0);
}

#[test]
fn nearer_walls_are_taller() {
    let mut last_top = 0;
    let mut last_bottom = usize::MAX;
    for d in [1250i64, 1500, 2500, 5000, 10_000, 40_000] {
        let mut fb = Framebuffer::new(1, 40);
        render_column(&mut fb, 0, d);
        let top = (0..40).find(|y| fb.get(0, *y) != Pixel { c: ' ', fg: 0, bg: 255 }).unwrap();
        let bottom = (0..40).rev().find(|y| fb.get(0, *y) != Pixel { c: ' ', fg: 0, bg: 255 }).unwrap();
        assert!(top >= last_top && bottom <= last_bottom, "distance {}", d);
        last_top = top;
        last_bottom = bottom;
    }
}

#[test]
fn near_wall_fills_the_column() {
    let mut fb = Framebuffer::new(2, 40);
    render_column(&mut fb, 1, 1249);
    let f = fade(1249);
    for y in 0..40 {
        assert_eq!(fb.get(1, y), Pixel { c: '\u{2588}', fg: f, bg: f });
        assert_eq!(fb.get(0, y), Pixel { c: ' ', fg: 0, bg: 255 });
    }
    let mut fb = Framebuffer::new(1, 40);
    render_column(&mut fb, 0, -500);
    assert_eq!(fb.get(0, 0), Pixel { c: '\u{2588}', fg: 0, bg: 0 });
}

#[test]
fn wall_edges_and_span() {
    let mut fb = Framebuffer::new(1, 40);
    render_column(&mut fb, 0, 2500);
    assert_eq!(fade(2500), 82);
    assert_eq!(fb.get(0, 9), Pixel { c: ' ', fg: 0, bg: 255 });
    assert_eq!(fb.get(0, 10), Pixel { c: '\u{2588}', fg: 82, bg: 255 });
    for y in 11..30 {
        assert_eq!(fb.get(0, y), Pixel { c: '\u{2588}', fg: 82, bg: 82 });
    }
    assert_eq!(fb.get(0, 30), Pixel { c: '\u{2581}', fg: 255, bg: 82 });
    assert_eq!(fb.get(0, 31), Pixel { c: ' ', fg: 0, bg: 255 });
}

#[test]
fn partial_edge_glyphs() {
    // height 10, distance 3000: margin 2.9166..., so 7 eighths of the top cell are margin.
    let mut fb = Framebuffer::new(1, 10);
    render_column(&mut fb, 0, 3000);
    let f = fade(3000);
    assert_eq!(fb.get(0, 2), Pixel { c: '\u{2581}', fg: f, bg: 255 });
    assert_eq!(fb.get(0, 7), Pixel { c: '\u{2588}', fg: 255, bg: f });
    assert_eq!(fb.get(0, 5), Pixel { c: '\u{2588}', fg: f, bg: f });
}

#[test]
fn wall_at_the_scale_distance_spans_the_screen() {
    let mut fb = Framebuffer::new(1, 8);
    render_column(&mut fb, 0, 1250);
    let f = fade(1250);
    assert_eq!(fb.get(0, 0), Pixel { c: '\u{2588}', fg: f, bg: 255 });
    for y in 1..8 {
        assert_eq!(fb.get(0, y), Pixel { c: '\u{2588}', fg: f, bg: f });
    }
}

#[test]
fn fade_values() {
    assert_eq!(fade(0), 0);
    assert_eq!(fade(-5), 0);
    assert_eq!(fade(6000), 127);
    assert_eq!(fade(23_999), 254);
    assert_eq!(fade(24_000), 255);
    assert_eq!(fade(1_000_000), 255);
    let mut last = 0u8;
    for d in 0..30_000i64 {
        let f = fade(d);
        assert!(f >= last);
        last = f;
    }
}

#[test]
fn identical_frames_need_no_write() {
    let a = Framebuffer::new(4, 3);
    let b = Framebuffer::new(4, 3);
    assert!(diff(&a, &b).is_empty());
}

#[test]
fn one_changed_cell_gives_one_write() {
    let mut a = Framebuffer::new(4, 3);
    let b = Framebuffer::new(4, 3);
    let p = Pixel { c: 'x', fg: 51, bg: 255 };
    a.set(2, 1, p);
    assert_eq!(diff(&a, &b), vec![CellWrite { x: 2, y: 1, pixel: p }]);
}

#[test]
fn draw_lists_changes_and_swaps() {
    let mut screen = Screen::new(3, 2);
    let p = Pixel { c: '#', fg: 0, bg: 255 };
    screen.front.set(0, 1, p);
    screen.front.set(2, 0, p);
    let writes = screen.draw();
    assert_eq!(writes, vec![CellWrite { x: 2, y: 0, pixel: p }, CellWrite { x: 0, y: 1, pixel: p }]);
    assert_eq!(screen.previous.get(0, 1), p);
    assert_eq!(screen.front.get(0, 1), Pixel { c: ' ', fg: 0, bg: 255 });
    screen.swap_buf();
    assert_eq!(screen.front.get(2, 0), p);
}

#[test]
fn background_bands() {
    let mut screen = Screen::new(2, 20);
    render_background(&mut screen);
    assert_eq!(screen.front.get(1, 0), Pixel { c: ' ', fg: 255, bg: 255 });
    assert_eq!(screen.front.get(1, 10), Pixel { c: ' ', fg: 255, bg: 255 });
    assert_eq!(screen.front.get(1, 11), Pixel { c: '.', fg: 90, bg: 255 });
    assert_eq!(screen.front.get(0, 13), Pixel { c: '.', fg: 90, bg: 255 });
    assert_eq!(screen.front.get(0, 14), Pixel { c: '-', fg: 77, bg: 255 });
    assert_eq!(screen.front.get(0, 15), Pixel { c: 'x', fg: 51, bg: 255 });
    assert_eq!(screen.front.get(0, 17), Pixel { c: '#', fg: 0, bg: 255 });
    assert_eq!(screen.front.get(0, 19), Pixel { c: '#', fg: 0, bg: 255 });
}

#[test]
fn compose_draws_walls_over_the_backdrop() {
    let mut screen = Screen::new(2, 20);
    compose_frame(&mut screen, &vec![(' ', 1_000_000), ('#', 2500)]);
    assert_eq!(screen.front.get(0, 19), Pixel { c: '#', fg: 0, bg: 255 });
    assert_eq!(screen.front.get(1, 10), Pixel { c: '\u{2588}', fg: 82, bg: 82 });
    assert_eq!(screen.front.get(1, 0), Pixel { c: ' ', fg: 255, bg: 255 });
}

#[test]
fn heading_returns_after_a_full_turn() {
    let mut cam = Camera { pos: Vector { x: 0, y: 0 }, dir: 0, fov: 220_000 };
    for _ in 0..240 {
        cam.turn(TURN / 240);
    }
    assert_eq!(cam.dir, 0);
    cam.turn(-6000);
    assert_eq!(cam.dir, 1_434_000);
    cam.turn(6000);
    assert_eq!(cam.dir, 0);
}

#[test]
fn bound_wraps_both_ways() {
    assert_eq!(bound(-1, 0, 10), 9);
    assert_eq!(bound(25, 0, 10), 5);
    assert_eq!(bound(10, 0, 10), 0);
    assert_eq!(bound(-20, 0, 10), 0);
    assert_eq!(bound(3, 2, 5), 3);
    assert_eq!(bound(1, 2, 5), 4);
}

#[test]
fn floor_division_rounds_down() {
    assert_eq!(floor_div(-7, 2), -4);
    assert_eq!(floor_div(7, 2), 3);
    assert_eq!(floor_div(-8, 2), -4);
}

#[test]
fn vector_arithmetic() {
    let a = Vector { x: 3, y: -4 };
    let b = Vector { x: 10, y: 20 };
    assert_eq!(a.add(b), Vector { x: 13, y: 16 });
    assert_eq!(a.sub(b), Vector { x: -7, y: -24 });
    assert_eq!(b.mul(UNIT / 2), Vector { x: 5, y: 10 });
    assert_eq!(a.mul(UNIT / 2), Vector { x: 1, y: -2 });
}

#[test]
fn camera_moves_through_walls() {
    let mut cam = Camera { pos: Vector { x: 2_500_000, y: 2_500_000 }, dir: 0, fov: 220_000 };
    cam.step(70_000, Vector { x: UNIT, y: 0 });
    assert_eq!(cam.pos, Vector { x: 2_570_000, y: 2_500_000 });
    cam.strafe(-70_000, Vector { x: UNIT, y: 0 });
    assert_eq!(cam.pos, Vector { x: 2_570_000, y: 2_430_000 });
    cam.step(-10 * UNIT, Vector { x: UNIT, y: 0 });
    assert_eq!(cam.pos.x, -7_430_000);
}

#[test]
fn grid_lookup_and_shape() {
    assert!(Grid::new(vec![vec!['#', ' '], vec!['#']]).is_none());
    let g = Grid::new(vec![vec!['#', ' '], vec![' ', '#']]).unwrap();
    assert_eq!((g.w, g.h), (2, 2));
    assert_eq!(g.at(0, 0), Some('#'));
    assert_eq!(g.at(1, 0), Some(' '));
    assert_eq!(g.at(2, 0), None);
    assert_eq!(g.at(0, 2), None);
    let empty = Grid::new(Vec::new()).unwrap();
    assert_eq!((empty.w, empty.h), (0, 0));
}

#[test]
fn cosine_is_the_dot_product_of_unit_vectors() {
    let f = Vector { x: UNIT, y: 0 };
    assert_eq!(cosine(Vector { x: UNIT, y: 0 }, f), UNIT);
    assert_eq!(cosine(Vector { x: 0, y: UNIT }, f), 0);
    assert_eq!(cosine(Vector { x: -UNIT, y: 0 }, f), -UNIT);
    assert_eq!(cosine(Vector { x: 600_000, y: 800_000 }, Vector { x: 0, y: UNIT }), 800_000);
    assert_eq!(cosine(Vector { x: 1_000_001, y: 0 }, Vector { x: 1_000_001, y: 0 }), UNIT);
    assert_eq!(column_cosines(&vec![Vector { x: 600_000, y: 800_000 }, Vector { x: 0, y: -UNIT }], f), vec![600_000, 0]);
}

#[test]
fn flat_wall_through_render() {
    let grid = room(40, 40);
    let cam = Camera { pos: Vector { x: 20_500_000, y: 20_500_000 }, dir: 0, fov: TURN * 55 / 360 };
    let mut game = GameState::new(41, 20, grid, cam);
    let (dirs, _) = frame_inputs(&cam, 41);
    render(&mut game, &dirs, Vector { x: UNIT, y: 0 });
    for (c, d) in game.depth_buf.iter() {
        assert_eq!(*c, '#');
        assert!((*d - 18_500).abs() <= 2, "corrected distance {}", d);
    }
}

#[test]
fn new_game_starts_blank() {
    let game = GameState::new(4, 3, room(3, 3), Camera { pos: Vector { x: 0, y: 0 }, dir: 0, fov: 0 });
    let blank = Pixel { c: ' ', fg: 0, bg: 255 };
    for y in 0..3 {
        for x in 0..4 {
            assert_eq!(game.screen.front.get(x, y), blank);
            assert_eq!(game.screen.previous.get(x, y), blank);
        }
    }
    assert_eq!(game.depth_buf, vec![(' ', 0); 4]);
}
