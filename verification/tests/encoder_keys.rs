use snake_evo::encoder::state_key;
use snake_evo::game::Game;
use snake_evo::grid::{Dir, Pos};

fn game(w: u16, h: u16, body: &[(i32, i32)], dir: Dir, apple: (i32, i32)) -> Game {
    let cells: Vec<Pos> = body.iter().map(|&(x, y)| Pos::new(x, y)).collect();
    Game::from_parts(w, h, true, false, &cells, dir, Pos::new(apple.0, apple.1)).unwrap()
}

#[test]
fn key_of_the_starting_position() {
    // Only the cell behind the head is taken; the apple is five cells ahead.
    let g = game(40, 30, &[(20, 15), (19, 15), (18, 15)], Dir::Right, (25, 15));
    assert_eq!(state_key(&g), 4096 + 65536 + 262144);
}

#[test]
fn key_sees_the_apple_ahead() {
    let g = game(40, 30, &[(20, 15), (19, 15), (18, 15)], Dir::Right, (21, 15));
    assert_eq!(state_key(&g), 2 * 4 + 4096 + 65536);
}

#[test]
fn key_sees_the_wall_ahead() {
    // Heading left at the left edge: the three cells ahead are outside.
    let g = game(40, 30, &[(0, 5)], Dir::Left, (20, 20));
    assert_eq!(state_key(&g), 1 + 4 + 16 + 3 * 262144);
}

#[test]
fn key_tells_the_sides_apart() {
    // Heading up, the apple far to the right, nine moves away.
    let right = game(40, 30, &[(10, 10)], Dir::Up, (19, 10));
    assert_eq!(state_key(&right), 2 * 65536 + 2 * 262144);
    // Heading up, the apple far to the left.
    let left = game(40, 30, &[(10, 10)], Dir::Up, (1, 10));
    assert_eq!(state_key(&left), 2 * 262144);
    // Heading down the sides swap.
    let swapped = game(40, 30, &[(10, 10)], Dir::Down, (19, 10));
    assert_eq!(state_key(&swapped), 2 * 262144);
    // One cell to the side still counts as straight on.
    let near = game(40, 30, &[(10, 10)], Dir::Up, (11, 5));
    assert_eq!(state_key(&near), 65536 + 262144);
}

#[test]
fn key_places_each_sampled_cell() {
    // Heading up at (10, 10): body cells ahead-left, right and behind.
    let g = game(40, 30, &[(10, 10), (9, 9), (11, 10), (10, 11)], Dir::Up, (30, 25));
    // ahead-left is cell 0, right is cell 4, behind is cell 6.
    assert_eq!(state_key(&g), 1 + 256 + 4096 + 2 * 65536 + 3 * 262144);
    // The apple in the cell behind to the left, cell 5.
    let a = game(40, 30, &[(10, 10)], Dir::Up, (9, 11));
    assert_eq!(state_key(&a), 2 * 1024 + 65536);
}

#[test]
fn distance_ranges() {
    let at = |d: i32| state_key(&game(40, 30, &[(2, 2)], Dir::Right, (2 + d, 2))) / 262144;
    assert_eq!(at(1), 0);
    assert_eq!(at(3), 0);
    assert_eq!(at(4), 1);
    assert_eq!(at(8), 1);
    assert_eq!(at(9), 2);
    assert_eq!(at(16), 2);
    assert_eq!(at(17), 3);
}

#[test]
fn key_is_the_same_when_asked_twice() {
    let g = game(40, 30, &[(20, 15), (19, 15), (18, 15)], Dir::Right, (7, 22));
    let first = state_key(&g);
    let second = state_key(&g);
    assert_eq!(first, second);
    assert!(first < (1 << 20));
}

#[test]
fn key_is_the_same_after_a_quarter_turn() {
    // Body and apple given relative to the head at (20, 15), heading up.
    let body = [(0, 0), (0, 1), (1, 1), (1, 2)];
    let apple = (-3, -4);
    let mut keys = Vec::new();
    let mut dir = Dir::Up;
    let mut turn = |p: (i32, i32), times: usize| {
        let mut q = p;
        for _ in 0..times {
            q = (-q.1, q.0);
        }
        q
    };
    for times in 0..4 {
        let cells: Vec<(i32, i32)> = body
            .iter()
            .map(|&p| {
                let q = turn(p, times);
                (20 + q.0, 15 + q.1)
            })
            .collect();
        let a = turn(apple, times);
        let g = game(40, 30, &cells, dir, (20 + a.0, 15 + a.1));
        keys.push(state_key(&g));
        dir = snake_evo::grid::right_dir(dir);
    }
    assert_eq!(keys[0], keys[1]);
    assert_eq!(keys[1], keys[2]);
    assert_eq!(keys[2], keys[3]);
    // Behind the head, cells 6 and 7, is the body; the apple is to the left.
    assert_eq!(keys[0], 4096 + 16384 + 262144);
}
