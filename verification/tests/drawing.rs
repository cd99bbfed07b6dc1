use snake_evo::font::{digits, draw_char, draw_chars, draw_text, glyph_5x7, GLYPH_A};
use snake_evo::game::Game;
use snake_evo::grid::{Dir, Pos};
use snake_evo::raster::{
    blend_pixel, clear_rgba, fill_block, fill_cell_rgb, fill_cell_rgba, fill_rect_rgba,
    point_in_rect, stroke_rect_rgba, HEIGHT, WIDTH,
};
use snake_evo::scene::{
    draw_button, draw_chart, draw_eyes, draw_game_transparent, largest_of, paint_cell,
};

fn frame() -> Vec<u8> {
    vec![0u8; (WIDTH * HEIGHT * 4) as usize]
}

fn px(f: &[u8], x: u32, y: u32) -> (u8, u8, u8, u8) {
    let i = ((y * WIDTH + x) * 4) as usize;
    (f[i], f[i + 1], f[i + 2], f[i + 3])
}

fn count(f: &[u8], c: (u8, u8, u8, u8)) -> usize {
    f.chunks_exact(4).filter(|p| (p[0], p[1], p[2], p[3]) == c).count()
}

#[test]
fn clearing_sets_whole_pixels() {
    let mut f = vec![9u8; 11];
    clear_rgba(&mut f, 1, 2, 3, 4);
    assert_eq!(f, vec![1, 2, 3, 4, 1, 2, 3, 4, 9, 9, 9]);
    let mut empty: Vec<u8> = Vec::new();
    clear_rgba(&mut empty, 1, 2, 3, 4);
    assert!(empty.is_empty());
}

#[test]
fn blending_mixes_by_opacity() {
    let mut f = frame();
    clear_rgba(&mut f, 100, 200, 50, 7);
    blend_pixel(&mut f, 3, 2, 200, 100, 250, 128);
    // (200 * 128 + 100 * 127) / 255 = 150, and so on; the pixel turns opaque.
    assert_eq!(px(&f, 3, 2), (150, 149, 150, 255));
    assert_eq!(px(&f, 4, 2), (100, 200, 50, 7));
    assert_eq!(px(&f, 3, 3), (100, 200, 50, 7));
    blend_pixel(&mut f, 5, 5, 10, 20, 30, 255);
    assert_eq!(px(&f, 5, 5), (10, 20, 30, 255));
    blend_pixel(&mut f, 6, 5, 10, 20, 30, 0);
    assert_eq!(px(&f, 6, 5), (100, 200, 50, 255));
    // Outside the frame nothing happens.
    let before = f.clone();
    blend_pixel(&mut f, WIDTH, 0, 1, 1, 1, 255);
    blend_pixel(&mut f, 0, HEIGHT, 1, 1, 1, 255);
    blend_pixel(&mut f, u32::MAX, u32::MAX, 1, 1, 1, 255);
    assert!(f == before);
    // A short frame: the last pixel that fits is the last one drawn.
    let mut short = vec![0u8; 10];
    blend_pixel(&mut short, 1, 0, 9, 9, 9, 255);
    assert_eq!(short, vec![0, 0, 0, 0, 9, 9, 9, 255, 0, 0]);
    blend_pixel(&mut short, 2, 0, 9, 9, 9, 255);
    assert_eq!(short, vec![0, 0, 0, 0, 9, 9, 9, 255, 0, 0]);
}

#[test]
fn rectangles_are_cut_to_the_frame() {
    let mut f = frame();
    fill_rect_rgba(&mut f, 10, 20, 3, 2, 255, 0, 0, 255);
    assert_eq!(count(&f, (255, 0, 0, 255)), 6);
    assert_eq!(px(&f, 10, 20), (255, 0, 0, 255));
    assert_eq!(px(&f, 12, 21), (255, 0, 0, 255));
    assert_eq!(px(&f, 13, 21), (0, 0, 0, 0));
    assert_eq!(px(&f, 12, 22), (0, 0, 0, 0));
    let mut g = frame();
    fill_rect_rgba(&mut g, WIDTH - 2, HEIGHT - 3, 50, 50, 0, 255, 0, 255);
    assert_eq!(count(&g, (0, 255, 0, 255)), 6);
    fill_rect_rgba(&mut g, WIDTH, 0, 5, 5, 1, 1, 1, 255);
    fill_rect_rgba(&mut g, 0, HEIGHT, 5, 5, 1, 1, 1, 255);
    fill_rect_rgba(&mut g, 5, 5, 0, 9, 1, 1, 1, 255);
    fill_rect_rgba(&mut g, u32::MAX, u32::MAX, u32::MAX, u32::MAX, 1, 1, 1, 255);
    fill_block(&mut g, u64::MAX, 3, 4, 4, 1, 1, 1, 255);
    assert_eq!(count(&g, (1, 1, 1, 255)), 0);
    fill_block(&mut g, 1, 1, 2, 2, 1, 1, 1, 255);
    assert_eq!(count(&g, (1, 1, 1, 255)), 4);
    // Blending twice goes twice as far.
    let mut h = frame();
    fill_rect_rgba(&mut h, 0, 0, 1, 1, 255, 255, 255, 128);
    assert_eq!(px(&h, 0, 0), (128, 128, 128, 255));
    fill_rect_rgba(&mut h, 0, 0, 1, 1, 255, 255, 255, 128);
    assert_eq!(px(&h, 0, 0), (191, 191, 191, 255));
}

#[test]
fn grid_cells() {
    let mut f = frame();
    fill_cell_rgb(&mut f, 2, 1, 5, 6, 7);
    assert_eq!(count(&f, (5, 6, 7, 255)), 400);
    assert_eq!(px(&f, 40, 20), (5, 6, 7, 255));
    assert_eq!(px(&f, 59, 39), (5, 6, 7, 255));
    assert_eq!(px(&f, 60, 39), (0, 0, 0, 0));
    assert_eq!(px(&f, 39, 20), (0, 0, 0, 0));
    fill_cell_rgba(&mut f, 39, 29, 200, 0, 0, 255);
    assert_eq!(px(&f, 799, 599), (200, 0, 0, 255));
    let before = f.clone();
    fill_cell_rgba(&mut f, 40, 0, 9, 9, 9, 255);
    fill_cell_rgb(&mut f, 0, 30, 9, 9, 9);
    fill_cell_rgb(&mut f, u32::MAX, u32::MAX, 9, 9, 9);
    paint_cell(&mut f, Pos::new(-1, 3), 9, 9, 9, 255);
    paint_cell(&mut f, Pos::new(3, -1), 9, 9, 9, 255);
    paint_cell(&mut f, Pos::new(65_000, 65_000), 9, 9, 9, 255);
    assert!(f == before);
    paint_cell(&mut f, Pos::new(0, 0), 9, 9, 9, 255);
    assert_eq!(count(&f, (9, 9, 9, 255)), 400);
}

#[test]
fn borders_blend_their_corners_twice() {
    let mut f = frame();
    stroke_rect_rgba(&mut f, 10, 10, 5, 4, 255, 255, 255, 128);
    // Sides once, corners twice.
    assert_eq!(px(&f, 12, 10), (128, 128, 128, 255));
    assert_eq!(px(&f, 12, 13), (128, 128, 128, 255));
    assert_eq!(px(&f, 10, 11), (128, 128, 128, 255));
    assert_eq!(px(&f, 14, 12), (128, 128, 128, 255));
    for corner in [(10, 10), (14, 10), (10, 13), (14, 13)] {
        assert_eq!(px(&f, corner.0, corner.1), (191, 191, 191, 255));
    }
    assert_eq!(px(&f, 12, 11), (0, 0, 0, 0));
    assert_eq!(count(&f, (128, 128, 128, 255)) + count(&f, (191, 191, 191, 255)), 14);
    // Nothing for an empty rectangle.
    let mut g = frame();
    stroke_rect_rgba(&mut g, 10, 10, 0, 4, 255, 255, 255, 255);
    stroke_rect_rgba(&mut g, 10, 10, 4, 0, 255, 255, 255, 255);
    assert_eq!(count(&g, (255, 255, 255, 255)), 0);
    // A border that leaves the frame is drawn along its edge.
    stroke_rect_rgba(&mut g, 790, 590, 100, 100, 255, 255, 255, 255);
    assert_eq!(px(&g, 799, 595), (255, 255, 255, 255));
    assert_eq!(px(&g, 795, 599), (255, 255, 255, 255));
    assert_eq!(px(&g, 790, 590), (255, 255, 255, 255));
    assert_eq!(count(&g, (255, 255, 255, 255)), 36);
    let mut h = frame();
    stroke_rect_rgba(&mut h, u32::MAX, 5, u32::MAX, 3, 255, 255, 255, 255);
    assert_eq!(count(&h, (255, 255, 255, 255)), 3);
    assert_eq!(px(&h, 799, 6), (255, 255, 255, 255));
}

#[test]
fn points_in_rectangles() {
    assert!(point_in_rect(5, 5, 5, 5, 1, 1));
    assert!(!point_in_rect(6, 5, 5, 5, 1, 1));
    assert!(!point_in_rect(4, 5, 5, 5, 3, 3));
    assert!(point_in_rect(7, 7, 5, 5, 3, 3));
    assert!(!point_in_rect(8, 7, 5, 5, 3, 3));
    assert!(!point_in_rect(5, 5, 5, 5, 0, 3));
    assert!(point_in_rect(u32::MAX, u32::MAX, u32::MAX, u32::MAX, 1, 1));
    assert!(point_in_rect(u32::MAX, 0, 3, 0, u32::MAX, 1));
}

#[test]
fn glyphs_of_the_font() {
    assert_eq!(glyph_5x7('A'), Some([0b01110, 0b10001, 0b10001, 0b11111, 0b10001, 0b10001, 0b10001]));
    assert_eq!(glyph_5x7('a'), Some(GLYPH_A));
    assert_eq!(glyph_5x7('1'), Some([0b00100, 0b01100, 0b00100, 0b00100, 0b00100, 0b00100, 0b01110]));
    assert_eq!(glyph_5x7('-'), Some([0, 0, 0, 0b11111, 0, 0, 0]));
    assert_eq!(glyph_5x7(' '), Some([0; 7]));
    assert_eq!(glyph_5x7('z'), glyph_5x7('Z'));
    assert_eq!(glyph_5x7('?'), None);
    assert_eq!(glyph_5x7('é'), None);
    let mut with_glyph = 0;
    for c in 0u8..128 {
        if glyph_5x7(c as char).is_some() {
            with_glyph += 1;
        }
    }
    assert_eq!(with_glyph, 26 * 2 + 10 + 4);
}

#[test]
fn characters_and_texts() {
    let white = (255, 255, 255, 255);
    let mut f = frame();
    assert_eq!(draw_char(&mut f, 'T', 10, 10, 1, white), 6);
    // The letter T: a bar of five and a stem of six.
    assert_eq!(count(&f, white), 11);
    assert_eq!(px(&f, 10, 10), white);
    assert_eq!(px(&f, 14, 10), white);
    assert_eq!(px(&f, 12, 16), white);
    assert_eq!(px(&f, 11, 11), (0, 0, 0, 0));
    let mut g = frame();
    assert_eq!(draw_char(&mut g, 'T', 10, 10, 3, white), 18);
    assert_eq!(count(&g, white), 99);
    assert_eq!(px(&g, 24, 12), white);
    assert_eq!(px(&g, 25, 12), (0, 0, 0, 0));
    let mut h = frame();
    assert_eq!(draw_char(&mut h, '?', 10, 10, 2, white), 12);
    assert_eq!(draw_char(&mut h, 'T', 10, 10, 0, white), 0);
    assert_eq!(draw_char(&mut h, 'T', WIDTH, 10, 2, white), 12);
    assert_eq!(draw_char(&mut h, 'T', u32::MAX, u32::MAX, 715_827_882, white), 4_294_967_292);
    assert_eq!(count(&h, white), 0);

    // A text is its characters side by side.
    let mut t = frame();
    draw_text(&mut t, "T?t", 100, 50, 2, white);
    let mut u = frame();
    draw_char(&mut u, 'T', 100, 50, 2, white);
    draw_char(&mut u, 'T', 124, 50, 2, white);
    assert!(t == u);
    assert_eq!(count(&t, white), 88);
    // Texts that run out of the frame are cut.
    let mut v = frame();
    draw_text(&mut v, "IIIIIIIIIIIIIIIIIIIIIIIIIIIIIIIIIIIIIIIIIIIIIIIIIIIIIIIIIIIIIIIIIIIIIIII", 700, 0, 2, white);
    let mut w = frame();
    draw_text(&mut w, "IIIIIIIII", 700, 0, 2, white);
    assert!(v == w);
    let mut x = frame();
    draw_chars(&mut x, &vec!['T', '?', 't'], 100, 50, 2, white);
    assert!(x == t);
}

#[test]
fn numbers_in_base_ten() {
    assert_eq!(digits(0), vec!['0']);
    assert_eq!(digits(7), vec!['7']);
    assert_eq!(digits(10), vec!['1', '0']);
    assert_eq!(digits(1197), vec!['1', '1', '9', '7']);
    let all: String = digits(u64::MAX).into_iter().collect();
    assert_eq!(all, u64::MAX.to_string());
    let some: String = digits(9_876_543_210).into_iter().collect();
    assert_eq!(some, "9876543210");
}

#[test]
fn eyes_look_ahead() {
    let black = (0, 0, 0, 255);
    for (dir, a, b) in [
        (Dir::Right, (12, 5), (12, 12)),
        (Dir::Left, (5, 5), (5, 12)),
        (Dir::Up, (5, 5), (12, 5)),
        (Dir::Down, (5, 12), (12, 12)),
    ] {
        let mut f = frame();
        clear_rgba(&mut f, 9, 9, 9, 9);
        draw_eyes(&mut f, Pos::new(3, 2), dir);
        assert_eq!(count(&f, black), 2);
        assert_eq!(px(&f, 60 + a.0, 40 + a.1), black);
        assert_eq!(px(&f, 60 + b.0, 40 + b.1), black);
    }
    let mut f = frame();
    draw_eyes(&mut f, Pos::new(-1, 0), Dir::Up);
    draw_eyes(&mut f, Pos::new(40, 0), Dir::Up);
    draw_eyes(&mut f, Pos::new(i32::MAX, i32::MIN), Dir::Up);
    assert_eq!(count(&f, black), 0);
}

fn game(body: &[(i32, i32)], dir: Dir, apple: (i32, i32), walls: bool) -> Game {
    let cells: Vec<Pos> = body.iter().map(|&(x, y)| Pos::new(x, y)).collect();
    Game::from_parts(40, 30, !walls, false, &cells, dir, Pos::new(apple.0, apple.1)).unwrap()
}

#[test]
fn a_manual_game_on_the_frame() {
    let mut f = frame();
    let g = game(&[(20, 15), (19, 15), (18, 15)], Dir::Right, (5, 5), false);
    g.draw(&mut f);
    // Board cells alternate.
    assert_eq!(px(&f, 0, 0), (35, 35, 50, 255));
    assert_eq!(px(&f, 20, 0), (30, 30, 40, 255));
    assert_eq!(px(&f, 20, 20), (35, 35, 50, 255));
    // Apple, head with eyes, body in darker greens.
    assert_eq!(px(&f, 100, 100), (220, 50, 50, 255));
    assert_eq!(px(&f, 400, 300), (100, 255, 100, 255));
    assert_eq!(px(&f, 412, 305), (0, 0, 0, 255));
    assert_eq!(px(&f, 412, 312), (0, 0, 0, 255));
    assert_eq!(px(&f, 380, 300), (50, 190, 50, 255));
    assert_eq!(px(&f, 360, 300), (50, 180, 50, 255));
    assert_eq!(count(&f, (100, 255, 100, 255)), 398);
    assert_eq!(count(&f, (255, 255, 100, 255)), 0);
    // A paused game says so.
    let mut paused = game(&[(20, 15), (19, 15), (18, 15)], Dir::Right, (5, 5), false);
    paused.set_paused(true);
    let mut p = frame();
    paused.draw(&mut p);
    let mut expected = f.clone();
    draw_text(&mut expected, "PAUSED", 350, 300, 2, (255, 255, 100, 255));
    assert!(p == expected);
    assert!(count(&p, (255, 255, 100, 255)) > 0);
}

#[test]
fn a_finished_game_shows_its_score() {
    let mut rng = <rand::rngs::SmallRng as rand::SeedableRng>::seed_from_u64(1);
    let mut g = game(&[(38, 3), (37, 3)], Dir::Right, (39, 3), true);
    assert!(g.step(&mut rng));
    g.update(&mut rng);
    assert!(!g.is_alive());
    assert_eq!(g.score(), 1);
    let mut f = frame();
    g.draw(&mut f);
    let mut alive = frame();
    let same = Game::from_parts(40, 30, false, false, &g.body(), g.dir(), g.apple()).unwrap();
    same.draw(&mut alive);
    draw_text(&mut alive, "GAME OVER", 320, 280, 2, (255, 100, 100, 255));
    draw_text(&mut alive, "SCORE: 1", 330, 320, 2, (255, 255, 255, 255));
    draw_text(&mut alive, "PRESS R TO RESTART", 270, 360, 2, (200, 200, 200, 255));
    assert!(f == alive);
    // The tenth segment and those after it share the darkest green.
    let long: Vec<(i32, i32)> = (0..14).map(|i| (20 - i, 10)).collect();
    let mut l = frame();
    game(&long, Dir::Right, (5, 5), false).draw(&mut l);
    assert_eq!(px(&l, 220, 200), (50, 110, 50, 255));
    assert_eq!(px(&l, 200, 200), (50, 100, 50, 255));
    assert_eq!(px(&l, 140, 200), (50, 100, 50, 255));
}

#[test]
fn faint_games_in_the_color_of_the_agent() {
    let mut f = frame();
    let long: Vec<(i32, i32)> = (0..36).map(|i| (38 - i, 10)).collect();
    let g = game(&long, Dir::Right, (5, 5), false);
    draw_game_transparent(&mut f, &g, 255, (100, 200, 250));
    assert_eq!(px(&f, 100, 100), (220, 50, 50, 255));
    // The head is brighter, as far as a byte goes.
    assert_eq!(px(&f, 38 * 20, 200), (130, 255, 255, 255));
    // Segment 1 is 1.5 percent darker, segment 10 15 percent.
    assert_eq!(px(&f, 37 * 20, 200), (98, 197, 246, 255));
    assert_eq!(px(&f, 28 * 20, 200), (85, 170, 212, 255));
    // From segment 34 on the color is halved.
    assert_eq!(px(&f, 5 * 20, 200), (50, 101, 126, 255));
    assert_eq!(px(&f, 4 * 20, 200), (50, 100, 125, 255));
    assert_eq!(px(&f, 3 * 20, 200), (50, 100, 125, 255));
    // Faintly drawn, the frame shows through.
    let mut h = frame();
    clear_rgba(&mut h, 10, 10, 15, 255);
    draw_game_transparent(&mut h, &g, 180, (100, 200, 250));
    assert_eq!(px(&h, 100, 100), (158, 38, 39, 255));
    // A game that is over is not drawn.
    let mut rng = <rand::rngs::SmallRng as rand::SeedableRng>::seed_from_u64(1);
    let mut dead = game(&[(39, 3)], Dir::Right, (5, 5), true);
    dead.update(&mut rng);
    let mut d = frame();
    draw_game_transparent(&mut d, &dead, 255, (100, 200, 250));
    assert!(d == frame());
}

#[test]
fn buttons() {
    let mut f = frame();
    draw_button(&mut f, 16, 476, 364, 32, "PAUSE   P");
    let mut e = frame();
    fill_rect_rgba(&mut e, 16, 476, 364, 32, 40, 40, 60, 160);
    stroke_rect_rgba(&mut e, 16, 476, 364, 32, 200, 200, 220, 120);
    draw_text(&mut e, "PAUSE   P", 26, 486, 2, (230, 240, 255, 255));
    assert!(f == e);
    assert_eq!(px(&f, 100, 480), (25, 25, 37, 255));
    assert_eq!(px(&f, 26, 486), (230, 240, 255, 255));
}

#[test]
fn charts_of_best_scores() {
    assert_eq!(largest_of(&[]), 0);
    assert_eq!(largest_of(&[3, 9, 2]), 9);
    let border = |f: &mut Vec<u8>| stroke_rect_rgba(f, 18, 348, 360, 120, 200, 200, 200, 120);
    let mut empty = frame();
    draw_chart(&mut empty, 18, 348, 360, 120, &[]);
    let mut only_border = frame();
    border(&mut only_border);
    assert!(empty == only_border);
    let mut zeros = frame();
    draw_chart(&mut zeros, 18, 348, 360, 120, &[0, 0, 0]);
    assert!(zeros == only_border);

    // Three values: bars of a third of the width, the largest 118 high.
    let mut f = frame();
    draw_chart(&mut f, 18, 348, 360, 120, &[1, 2, 4]);
    let mut e = frame();
    border(&mut e);
    fill_rect_rgba(&mut e, 19, 348 + 119 - 29, 119, 29, 120, 180, 255, 160);
    fill_rect_rgba(&mut e, 19 + 120, 348 + 119 - 59, 119, 59, 120, 180, 255, 160);
    fill_rect_rgba(&mut e, 19 + 240, 348 + 119 - 118, 119, 118, 120, 180, 255, 160);
    assert!(f == e);

    // More values than bars fit: the latest sixty are shown, six pixels each.
    let many: Vec<usize> = (0..100).collect();
    let mut m = frame();
    draw_chart(&mut m, 18, 348, 360, 120, &many);
    let mut n = frame();
    border(&mut n);
    for i in 0..60u32 {
        let v = 40 + i;
        let bh = v * 118 / 99;
        fill_rect_rgba(&mut n, 19 + i * 6, 348 + 119 - bh, 5, bh, 120, 180, 255, 160);
    }
    assert!(m == n);
    // Large values do not matter.
    let mut big = frame();
    draw_chart(&mut big, 0, 0, 6, 2, &[usize::MAX, usize::MAX / 2]);
    draw_chart(&mut big, u32::MAX, u32::MAX, u32::MAX, u32::MAX, &[usize::MAX, 1]);
}
