use rand::rngs::SmallRng;
use rand::SeedableRng;
use snake_evo::agent::QAgent;
use snake_evo::game::Game;
use snake_evo::grid::{DeathCause, Dir, Pos};
use snake_evo::qrow::QRow;
use snake_evo::color::{
    blend_colors, draw_blend_ratio, generate_population_colors, hsl_to_rgb, mutate_color,
};
use snake_evo::control::{
    faster, frames_to_skip, nudge_speed, plan_tick, settle_tick, slower, steps_per_tick,
    tick_millis, Budget,
};
use snake_evo::random::{draw_below, draw_within};
use snake_evo::replay::{Experience, Replay};
use snake_evo::sim::{advance, apple_distance_of, backend_or_tabular, clamp_action, state_index, step_game};

fn rng() -> SmallRng {
    SmallRng::seed_from_u64(7)
}

#[test]
fn colors_of_the_six_main_hues() {
    // Saturation 0.85, lightness 0.65: chroma 0.595, base 0.3525.
    assert_eq!(hsl_to_rgb(0, 850, 650), (241, 89, 89));
    assert_eq!(hsl_to_rgb(60_000, 850, 650), (241, 241, 89));
    assert_eq!(hsl_to_rgb(120_000, 850, 650), (89, 241, 89));
    assert_eq!(hsl_to_rgb(180_000, 850, 650), (89, 241, 241));
    assert_eq!(hsl_to_rgb(240_000, 850, 650), (89, 89, 241));
    assert_eq!(hsl_to_rgb(300_000, 850, 650), (241, 89, 241));
    // Half way between red and yellow.
    assert_eq!(hsl_to_rgb(30_000, 850, 650), (241, 165, 89));
    // Greys, black and white.
    assert_eq!(hsl_to_rgb(77_000, 0, 500), (127, 127, 127));
    assert_eq!(hsl_to_rgb(0, 1000, 0), (0, 0, 0));
    assert_eq!(hsl_to_rgb(359_999, 1000, 1000), (255, 255, 255));
    assert_eq!(hsl_to_rgb(0, 1000, 500), (255, 0, 0));
}

#[test]
fn population_colors_divide_the_circle() {
    assert!(generate_population_colors(0).is_empty());
    assert_eq!(generate_population_colors(1), vec![(241, 89, 89)]);
    assert_eq!(
        generate_population_colors(3),
        vec![(241, 89, 89), (89, 241, 89), (89, 89, 241)]
    );
    let many = generate_population_colors(24);
    assert_eq!(many.len(), 24);
    assert_eq!(many[0], (241, 89, 89));
    assert_eq!(many[2], hsl_to_rgb(30_000, 850, 650));
    assert_eq!(many[12], (89, 241, 241));
    let mut distinct = many.clone();
    distinct.sort();
    distinct.dedup();
    assert_eq!(distinct.len(), 24);
}

#[test]
fn blends_and_color_mutations() {
    let mut rng = rng();
    assert_eq!(blend_colors((0, 100, 200), (100, 0, 200), 500_000), (50, 50, 200));
    assert_eq!(blend_colors((0, 100, 200), (100, 0, 200), 0), (0, 100, 200));
    assert_eq!(blend_colors((0, 100, 200), (100, 0, 200), 1_000_000), (100, 0, 200));
    assert_eq!(blend_colors((10, 10, 10), (13, 13, 13), 333_333), (10, 10, 10));
    assert_eq!(blend_colors((255, 0, 7), (0, 255, 7), 300_000), (178, 76, 7));
    let mut low = false;
    let mut high = false;
    for _ in 0..500 {
        let r = draw_blend_ratio(&mut rng);
        assert!(r >= 300_000 && r < 700_000);
        low |= r < 400_000;
        high |= r > 600_000;
        let c = mutate_color((5, 128, 250), 20, &mut rng);
        assert!(c.0 <= 25);
        assert!(c.1 >= 108 && c.1 <= 148);
        assert!(c.2 >= 230);
        assert_eq!(mutate_color((5, 128, 250), 0, &mut rng), (5, 128, 250));
    }
    assert!(low && high);
    let mut saturated = 0;
    for _ in 0..200 {
        let c = mutate_color((0, 255, 128), 4_000_000_000, &mut rng);
        if (c.0 == 0 || c.0 == 255) && (c.1 == 0 || c.1 == 255) {
            saturated += 1;
        }
    }
    assert!(saturated > 190);
}

#[test]
fn draws_stay_in_their_ranges() {
    let mut rng = rng();
    let mut counts = [0usize; 5];
    for _ in 0..2000 {
        counts[draw_below(&mut rng, 5) as usize] += 1;
        let w = draw_within(&mut rng, 3);
        assert!(w >= -3 && w <= 3);
        assert_eq!(draw_below(&mut rng, 1), 0);
        assert_eq!(draw_within(&mut rng, 0), 0);
        let wide = draw_within(&mut rng, u32::MAX);
        assert!(wide >= -(u32::MAX as i64) && wide <= u32::MAX as i64);
    }
    for c in counts {
        assert!(c > 300);
    }
}

#[test]
fn speed_controls() {
    assert_eq!(faster(1), 2);
    assert_eq!(faster(49_999), 99_998);
    assert_eq!(faster(50_000), 100_000);
    assert_eq!(faster(65_536), 100_000);
    assert_eq!(faster(u32::MAX), 100_000);
    assert_eq!(faster(0), 0);
    assert_eq!(slower(100_000), 50_000);
    assert_eq!(slower(3), 1);
    assert_eq!(slower(1), 1);
    assert_eq!(slower(0), 1);
    assert_eq!(nudge_speed(0, true), -10);
    assert_eq!(nudge_speed(-145, true), -150);
    assert_eq!(nudge_speed(0, false), 10);
    assert_eq!(nudge_speed(295, false), 300);
    assert_eq!(tick_millis(0, 0), 150);
    assert_eq!(tick_millis(10, 0), 110);
    assert_eq!(tick_millis(30, 0), 30);
    assert_eq!(tick_millis(1000, 0), 30);
    assert_eq!(tick_millis(30, -150), 30);
    assert_eq!(tick_millis(0, 300), 450);
    assert_eq!(tick_millis(5, -20), 110);
    assert_eq!(steps_per_tick(false, false), 1500);
    assert_eq!(steps_per_tick(false, true), 50_000);
    assert_eq!(steps_per_tick(true, true), 80_000);
    assert_eq!(frames_to_skip(true, 1), 8);
    assert_eq!(frames_to_skip(false, 1), 1);
    assert_eq!(frames_to_skip(false, 4_096), 2);
    assert_eq!(frames_to_skip(false, 8_192), 3);
    assert_eq!(frames_to_skip(false, 20_000), 6);
    assert_eq!(frames_to_skip(false, 40_000), 12);
    assert_eq!(frames_to_skip(false, 65_536), 20);
}

#[test]
fn tick_budgets() {
    assert_eq!(plan_tick(0, 1, 1500), Budget { pending: 1, to_run: 1 });
    assert_eq!(plan_tick(0, 0, 1500), Budget { pending: 1, to_run: 1 });
    assert_eq!(plan_tick(1000, 4000, 1500), Budget { pending: 5000, to_run: 1500 });
    assert_eq!(plan_tick(u32::MAX - 1, 4000, 1500), Budget { pending: u32::MAX, to_run: 1500 });
    assert_eq!(settle_tick(5000, 1500, false), 3500);
    assert_eq!(settle_tick(5000, 700, true), 0);
    assert_eq!(settle_tick(10, 20, false), 0);
}

#[test]
fn replay_keeps_the_latest() {
    let mut r = Replay::new(3);
    assert_eq!(r.len(), 0);
    assert_eq!(r.capacity(), 3);
    assert!(r.get(0).is_none());
    for i in 0..5u32 {
        r.push(i, (i % 3) as u8, i as i64 * -1000, i + 1, i == 4);
        assert_eq!(r.len(), ((i + 1) as usize).min(3));
    }
    let e = |i: u32| Experience {
        state: i,
        action: (i % 3) as u8,
        reward: i as i64 * -1000,
        next_state: i + 1,
        done: i == 4,
    };
    // The fourth and fifth took the places of the first and second.
    assert_eq!(r.get(0), Some(e(3)));
    assert_eq!(r.get(1), Some(e(4)));
    assert_eq!(r.get(2), Some(e(2)));
    assert_eq!(r.get(3), None);
    let empty = Replay::new(0);
    assert_eq!(empty.len(), 0);
    let mut one = Replay::new(1);
    one.push(1, 0, 0, 0, false);
    one.push(2, 0, 0, 0, false);
    assert_eq!(one.len(), 1);
    assert_eq!(one.get(0).unwrap().state, 2);
}

#[test]
fn actions_from_other_policies() {
    let mut rng = rng();
    assert_eq!(state_index(1025, 1024), 1);
    assert_eq!(state_index(5, 1), 0);
    assert_eq!(state_index(u32::MAX, 256), 255);
    assert_eq!(clamp_action(5, 3), 2);
    assert_eq!(clamp_action(1, 3), 1);
    assert_eq!(clamp_action(4, 0), 0);
    let mut agent = QAgent::new();
    assert!(agent.set_rates(0, 0, 0, 0, 0));
    assert!(agent.set_row(9, QRow { left: 0, straight: 0, right: 4 }));
    assert_eq!(backend_or_tabular(Some(1), &mut agent, 9, &mut rng), 1);
    assert_eq!(backend_or_tabular(Some(17), &mut agent, 9, &mut rng), 2);
    assert_eq!(backend_or_tabular(None, &mut agent, 9, &mut rng), 2);

    let body = vec![Pos::new(1, 5), Pos::new(2, 5)];
    let mut g = Game::from_parts(40, 30, false, false, &body, Dir::Left, Pos::new(1, 2)).unwrap();
    assert_eq!(apple_distance_of(&g), 3);
    let mut score = 0usize;
    // Straight on: one cell closer to the wall, further from the apple.
    let t = step_game(&mut g, &mut score, 10, 1, &mut rng).unwrap();
    assert_eq!(g.head(), Pos::new(0, 5));
    assert_eq!(t.action, 1);
    assert_eq!((t.outcome.distance_before, t.outcome.distance_after), (3, 4));
    assert_eq!(t.reward, -35_000);
    assert!(!t.done && !t.outcome.died && !t.outcome.ate);
    assert_eq!(t.outcome.length, 2);
    assert_eq!(t.outcome.cause, DeathCause::Unclassified);
    // Right turn, heading up: towards the apple and near it.
    let t = advance(&mut g, 2, &mut rng);
    assert_eq!(g.dir(), Dir::Up);
    assert_eq!(g.head(), Pos::new(0, 4));
    assert_eq!(t.reward, 65_000);
    assert_eq!(t.next_state, snake_evo::encoder::state_key(&g));
    // Left turn into the wall.
    let t = step_game(&mut g, &mut score, 10, 0, &mut rng).unwrap();
    assert!(t.done && t.outcome.died);
    assert_eq!(t.outcome.cause, DeathCause::Wall);
    assert_eq!(t.reward, -20_000_000);
    assert_eq!(score, 0);
    // The game is over: no more steps.
    assert!(step_game(&mut g, &mut score, 10, 1, &mut rng).is_none());
}
