use rand::rngs::SmallRng;
use rand::SeedableRng;
use snake_evo::agent::{QAgent, BOOST_ALPHA, START_ALPHA, START_EPSILON};
use snake_evo::breed::{breed_family, breed_steady, Family};
use snake_evo::color::generate_population_colors;
use snake_evo::evolve::{best_outside, champion_child, elite_child, fresh_agent, top_indices};
use snake_evo::grid::{Dir, Pos};
use snake_evo::qrow::QRow;
use snake_evo::sim::step_agent;
use snake_evo::trainer::{restart_family, EvoTrainer, STEP_LIMIT, TARGET_SCORE};

fn rng() -> SmallRng {
    SmallRng::seed_from_u64(2024)
}

fn row(left: i64, straight: i64, right: i64) -> QRow {
    QRow { left, straight, right }
}

#[test]
fn test_evo_reproduce_keeps_population_size() {
    let mut rng = rng();
    let mut evo = EvoTrainer::new(24, &mut rng);
    // Ensure there is a champion by setting a non-zero best score
    assert!(evo.set_score(0, 1));
    evo.reproduce(&mut rng);
    assert_eq!(evo.pop_len(), evo.pop_size());
    assert_eq!(evo.games_len(), evo.pop_size());
    assert_eq!(evo.scores_len(), evo.pop_size());
    assert_eq!(evo.pop_size(), 24);
}

#[test]
fn new_trainer_is_idle_and_fresh() {
    let mut rng = rng();
    let evo = EvoTrainer::new(24, &mut rng);
    assert!(!evo.is_training());
    assert!(!evo.is_solved());
    assert_eq!(evo.pop_size(), 24);
    assert_eq!(evo.epoch(), 0);
    assert_eq!(evo.step_limit(), STEP_LIMIT);
    assert_eq!(evo.step_limit(), 4000);
    assert_eq!(evo.steps_taken(), 0);
    assert_eq!(evo.target_score(), TARGET_SCORE);
    assert_eq!(evo.target_score(), 40 * 30 - 3);
    assert_eq!(evo.best_score(), 0);
    assert_eq!(evo.champion_score(), 0);
    assert_eq!(evo.champion_epoch(), 0);
    assert_eq!(evo.epochs_without_improvement(), 0);
    assert_eq!(evo.restart_count(), 0);
    assert_eq!(evo.stagnation_threshold(), 1000);
    assert!(evo.wrap_world());
    assert!(evo.champion().is_none());
    assert!(evo.epoch_best().is_empty());
    assert_eq!(evo.alive_count(), 24);
    let colors = generate_population_colors(24);
    for i in 0..24 {
        assert_eq!(evo.score(i), Some(0));
        assert_eq!(evo.agent(i).unwrap().color(), colors[i]);
        assert!(evo.agent(i).unwrap().states().is_empty());
        let g = evo.game(i).unwrap();
        assert!(g.is_alive() && g.wrap_world());
        assert_eq!(g.head(), Pos::new(20, 15));
        assert_eq!(g.dir(), Dir::Right);
    }
    assert!(evo.score(24).is_none());
    assert!(evo.game(24).is_none());
    assert!(evo.agent(24).is_none());
}

#[test]
fn reproduction_keeps_every_population_size() {
    let mut rng = rng();
    for n in 1..=30usize {
        let mut evo = EvoTrainer::new(n, &mut rng);
        // Ordinary course, no champion.
        evo.reproduce(&mut rng);
        assert_eq!((evo.pop_len(), evo.games_len(), evo.scores_len()), (n, n, n));
        // A new record.
        assert!(evo.set_score(n - 1, 3));
        evo.reproduce(&mut rng);
        assert_eq!((evo.pop_len(), evo.games_len(), evo.scores_len()), (n, n, n));
        assert_eq!(evo.champion_score(), 3);
        // Ordinary course with a champion.
        evo.reproduce(&mut rng);
        assert_eq!((evo.pop_len(), evo.games_len(), evo.scores_len()), (n, n, n));
        assert_eq!(evo.epoch(), 3);
        for i in 0..n {
            assert_eq!(evo.score(i), Some(0));
            assert!(evo.game(i).unwrap().is_alive());
            assert_eq!(evo.game(i).unwrap().snake_len(), 3);
        }
    }
}

#[test]
fn champion_score_never_falls() {
    let mut rng = rng();
    let mut evo = EvoTrainer::new(8, &mut rng);
    let epochs: [[usize; 3]; 7] =
        [[0, 0, 0], [2, 1, 0], [1, 1, 1], [2, 2, 2], [0, 5, 5], [4, 0, 0], [0, 0, 6]];
    let mut champion = 0;
    let mut history = Vec::new();
    for (e, scores) in epochs.iter().enumerate() {
        for (i, &s) in scores.iter().enumerate() {
            assert!(evo.set_score(i, s));
        }
        let best = *scores.iter().max().unwrap();
        let before = evo.champion_score();
        evo.reproduce(&mut rng);
        history.push(best);
        assert!(evo.champion_score() >= before);
        if best > champion {
            champion = best;
            assert_eq!(evo.champion_epoch(), e);
            assert_eq!(evo.epochs_without_improvement(), 0);
        } else {
            assert_eq!(evo.champion_score(), before);
        }
        assert_eq!(evo.champion_score(), champion);
        assert_eq!(evo.champion().is_some(), champion > 0);
        assert_eq!(evo.epoch_best(), &history);
        assert_eq!(evo.best_score(), champion);
        assert_eq!(evo.epoch(), e + 1);
    }
    assert_eq!(evo.champion_score(), 6);
    assert_eq!(evo.champion_epoch(), 6);
}

#[test]
fn a_record_makes_the_best_agent_champion() {
    let mut rng = rng();
    let mut evo = EvoTrainer::new(6, &mut rng);
    let mut lanes = evo.lend_lanes();
    for (i, agent) in lanes.pop.iter_mut().enumerate() {
        assert!(agent.set_row(7, row(i as i64 * 1_000_000, 0, 0)));
    }
    assert!(evo.restore_lanes(lanes));
    // Lanes 2 and 4 share the best score: the first of them wins.
    for (i, s) in [1usize, 0, 9, 3, 9, 2].iter().enumerate() {
        assert!(evo.set_score(i, *s));
    }
    let winner_color = evo.agent(2).unwrap().color();
    evo.reproduce(&mut rng);
    let champion = evo.champion().unwrap();
    assert_eq!(champion.q_values(7), row(2_000_000, 0, 0));
    assert_eq!(champion.color(), winner_color);
    assert_eq!(evo.champion_score(), 9);
    assert_eq!(evo.restart_count(), 0);
    // The next generation: the champion, then mildly mutated children.
    let first = evo.agent(0).unwrap();
    assert_eq!(first.q_values(7), row(2_000_000, 0, 0));
    assert_eq!(first.color(), winner_color);
    assert_eq!(first.epsilon(), START_EPSILON);
    for i in 1..6 {
        let child = evo.agent(i).unwrap();
        let q = child.q_values(7);
        assert!((q.left - 2_000_000).abs() <= 150_000);
        assert!(q.straight.abs() <= 150_000 && q.right.abs() <= 150_000);
        assert_eq!(child.states(), vec![7]);
        assert_eq!(child.epsilon(), 249_800);
        assert_eq!(child.alpha(), START_ALPHA);
        let c = child.color();
        assert!((c.0 as i32 - winner_color.0 as i32).abs() <= 25);
        assert!((c.1 as i32 - winner_color.1 as i32).abs() <= 25);
        assert!((c.2 as i32 - winner_color.2 as i32).abs() <= 25);
    }
}

#[test]
fn ordinary_course_keeps_the_best_three() {
    let mut rng = rng();
    let mut evo = EvoTrainer::new(12, &mut rng);
    let mut lanes = evo.lend_lanes();
    for (i, agent) in lanes.pop.iter_mut().enumerate() {
        assert!(agent.set_row(1, row(i as i64 * 10_000_000, 0, 0)));
    }
    assert!(evo.restore_lanes(lanes));
    // First epoch sets the record, so that the second runs the ordinary course.
    assert!(evo.set_score(5, 50));
    evo.reproduce(&mut rng);
    let mut lanes = evo.lend_lanes();
    for (i, agent) in lanes.pop.iter_mut().enumerate() {
        assert!(agent.set_row(1, row(i as i64 * 10_000_000, 0, 0)));
        agent.set_color((i as u8, 0, 0));
    }
    assert!(evo.restore_lanes(lanes));
    for (i, s) in [0usize, 4, 7, 7, 1, 9, 0, 0, 0, 0, 0, 0].iter().enumerate() {
        assert!(evo.set_score(i, *s));
    }
    evo.reproduce(&mut rng);
    assert_eq!(evo.champion_score(), 50);
    assert_eq!(evo.epochs_without_improvement(), 1);
    // Ranks: lane 5 (9), lane 2 (7, first of the two), lane 3 (7).
    assert_eq!(evo.agent(0).unwrap().q_values(1).left, 50_000_000);
    assert_eq!(evo.agent(1).unwrap().q_values(1).left, 20_000_000);
    assert_eq!(evo.agent(2).unwrap().q_values(1).left, 30_000_000);
    assert_eq!(evo.agent(0).unwrap().color(), (5, 0, 0));
    // Four children of the best three.
    for i in 3..7 {
        let child = evo.agent(i).unwrap();
        let v = child.q_values(1).left;
        let near = |p: i64| (v - p).abs() <= 150_000;
        assert!(near(50_000_000) || near(20_000_000) || near(30_000_000));
        let c = child.color();
        assert!(c.0 <= 5 + 15 && c.1 <= 15 && c.2 <= 15);
    }
    // Three fresh agents with colors of their own, then two more.
    let three = generate_population_colors(3);
    let two = generate_population_colors(2);
    for i in 7..12 {
        let fresh = evo.agent(i).unwrap();
        assert!(fresh.states().is_empty());
        assert_eq!(fresh.epsilon(), START_EPSILON);
        let expected = if i < 10 { three[i - 7] } else { two[i - 10] };
        assert_eq!(fresh.color(), expected);
    }
}

#[test]
fn long_stagnation_restarts_from_the_champion() {
    let mut rng = rng();
    let mut evo = EvoTrainer::new(10, &mut rng);
    assert!(evo.set_score(3, 2));
    evo.reproduce(&mut rng);
    assert_eq!(evo.champion_score(), 2);
    for k in 1..1000 {
        evo.reproduce(&mut rng);
        assert_eq!(evo.epochs_without_improvement(), k);
        assert_eq!(evo.restart_count(), 0);
    }
    assert_eq!(evo.stagnation_threshold(), 1000);
    // The thousandth epoch without a record brings the first restart.
    evo.reproduce(&mut rng);
    assert_eq!(evo.restart_count(), 1);
    assert_eq!(evo.epochs_without_improvement(), 0);
    assert_eq!(evo.stagnation_threshold(), 1500);
    assert_eq!(evo.pop_len(), 10);
    assert_eq!(evo.champion_score(), 2);
    let champion_color = evo.champion().unwrap().color();
    assert_eq!(evo.agent(0).unwrap().color(), champion_color);
    assert_eq!(evo.agent(0).unwrap().alpha(), START_ALPHA);
    for i in 1..10 {
        // First tier: every other agent is a boosted child of the champion.
        let child = evo.agent(i).unwrap();
        assert_eq!(child.alpha(), BOOST_ALPHA);
        assert_eq!(child.epsilon(), 349_720);
        let c = child.color();
        assert!((c.0 as i32 - champion_color.0 as i32).abs() <= 20);
    }
    // A record resets the ladder.
    assert!(evo.set_score(0, 3));
    evo.reproduce(&mut rng);
    assert_eq!(evo.restart_count(), 0);
    assert_eq!(evo.champion_score(), 3);
}

#[test]
fn restart_tiers_shrink_the_family() {
    let f = |tier: usize| restart_family(tier, 24);
    assert_eq!(
        f(1),
        Family { size: 24, sigma: 250_000, color_range: 20, boost_children: true, boost_fresh: false }
    );
    assert_eq!(
        f(2),
        Family { size: 12, sigma: 400_000, color_range: 30, boost_children: true, boost_fresh: false }
    );
    assert_eq!(
        f(3),
        Family { size: 7, sigma: 350_000, color_range: 40, boost_children: true, boost_fresh: false }
    );
    assert_eq!(
        f(4),
        Family { size: 4, sigma: 600_000, color_range: 50, boost_children: true, boost_fresh: false }
    );
    assert_eq!(
        f(5),
        Family { size: 2, sigma: 800_000, color_range: 60, boost_children: true, boost_fresh: true }
    );
    assert_eq!(restart_family(3, usize::MAX).size, usize::MAX / 10 * 3 + 1);
}

#[test]
fn families_fill_the_generation() {
    let mut rng = rng();
    let mut champion = QAgent::new_with_color(200, 100, 50);
    assert!(champion.set_row(3, row(5_000_000, -5_000_000, 0)));
    for size in 1..=12usize {
        for tier in 1..=5usize {
            let family = restart_family(tier, size);
            let pop = breed_family(&champion, size, family, &mut rng);
            assert_eq!(pop.len(), size);
            assert_eq!(pop[0].q_values(3), row(5_000_000, -5_000_000, 0));
            assert_eq!(pop[0].color(), (200, 100, 50));
            let end = family.size.max(1).min(size);
            let fresh_colors = generate_population_colors(size - end);
            for i in 1..size {
                if i < end {
                    assert_eq!(pop[i].states(), vec![3]);
                    assert_eq!(pop[i].alpha(), BOOST_ALPHA);
                    let q = pop[i].q_values(3);
                    assert!((q.left - 5_000_000).abs() <= family.sigma as i64);
                    assert!((q.straight + 5_000_000).abs() <= family.sigma as i64);
                    assert!(q.right.abs() <= family.sigma as i64);
                } else {
                    assert!(pop[i].states().is_empty());
                    assert_eq!(pop[i].color(), fresh_colors[i - end]);
                    let boosted = pop[i].alpha() == BOOST_ALPHA;
                    assert_eq!(boosted, tier == 5);
                }
            }
        }
    }
    // A family of size 0 still has a place for the champion.
    let none = Family { size: 0, sigma: 1, color_range: 1, boost_children: false, boost_fresh: false };
    let pop = breed_family(&champion, 3, none, &mut rng);
    assert_eq!(pop.len(), 3);
    assert_eq!(pop[0].states(), vec![3]);
    assert!(pop[1].states().is_empty() && pop[2].states().is_empty());
}

#[test]
fn steady_breeding_for_small_populations() {
    let mut rng = rng();
    for size in 1..=12usize {
        let mut pop = Vec::new();
        let mut scores = Vec::new();
        for i in 0..size {
            let mut a = QAgent::new();
            assert!(a.set_row(1, row(i as i64 * 10_000_000, 0, 0)));
            pop.push(a);
            scores.push(i);
        }
        let next = breed_steady(&pop, &scores, &mut rng);
        assert_eq!(next.len(), size);
        let kept = size.min(3);
        for r in 0..kept {
            assert_eq!(next[r].q_values(1).left, (size - 1 - r) as i64 * 10_000_000);
        }
        let bred = (kept + 4).min(size);
        for i in kept..bred {
            assert_eq!(next[i].states(), vec![1]);
        }
        for i in bred..size {
            assert!(next[i].states().is_empty());
        }
    }
}

#[test]
fn ranking_prefers_high_scores_and_low_indices() {
    assert_eq!(top_indices(&vec![1, 5, 3, 5, 0], 3), vec![1, 3, 2]);
    assert_eq!(top_indices(&vec![0, 0, 0], 3), vec![0, 1, 2]);
    assert_eq!(top_indices(&vec![4, 9], 3), vec![1, 0]);
    assert_eq!(top_indices(&vec![4, 9, 9, 1], 1), vec![1]);
    assert_eq!(top_indices(&vec![], 3), Vec::<usize>::new());
    assert_eq!(top_indices(&vec![7, 8, 9, 10], 0), Vec::<usize>::new());
    assert_eq!(top_indices(&vec![3, 1, 2], 5), vec![0, 2, 1]);
    assert_eq!(best_outside(&vec![1, 5, 3], &vec![1]), Some(2));
    assert_eq!(best_outside(&vec![1, 5, 3], &vec![]), Some(1));
    assert_eq!(best_outside(&vec![1, 5], &vec![1, 0]), None);
    assert_eq!(best_outside(&vec![], &vec![]), None);
}

#[test]
fn children_and_fresh_agents() {
    let mut rng = rng();
    let mut parent = QAgent::new_with_color(10, 250, 128);
    assert!(parent.set_row(2, row(1_000_000, 2_000_000, 3_000_000)));
    let plain = champion_child(&parent, 250_000, 20, false, &mut rng);
    assert_eq!(plain.alpha(), START_ALPHA);
    assert_eq!(plain.epsilon(), 249_800);
    let boosted = champion_child(&parent, 250_000, 20, true, &mut rng);
    assert_eq!(boosted.alpha(), BOOST_ALPHA);
    assert_eq!(boosted.epsilon(), 349_720);
    let c = boosted.color();
    assert!(c.0 <= 30 && c.1 >= 230 && (c.2 as i32 - 128).abs() <= 20);
    let q = boosted.q_values(2);
    assert!((q.left - 1_000_000).abs() <= 250_000);
    assert!((q.right - 3_000_000).abs() <= 250_000);

    let other = QAgent::new_with_color(110, 50, 128);
    for _ in 0..50 {
        let child = elite_child(&parent, &other, &mut rng);
        let c = child.color();
        // Between 30 and 70 percent of the second parent, then up to 15 off.
        assert!(c.0 >= 40 - 15 && c.0 <= 80 + 15);
        assert!(c.1 >= 110 - 15 && c.1 <= 190 + 15);
        assert!(c.2 >= 128 - 15 && c.2 <= 128 + 15);
        assert_eq!(child.states(), vec![2]);
        assert!((child.q_values(2).straight - 2_000_000).abs() <= 150_000);
    }
    let fresh = fresh_agent((1, 2, 3), false);
    assert_eq!((fresh.color(), fresh.alpha()), ((1, 2, 3), START_ALPHA));
    let eager = fresh_agent((1, 2, 3), true);
    assert_eq!((eager.color(), eager.alpha(), eager.epsilon()), ((1, 2, 3), 450_000, 350_000));
}

#[test]
fn leader_protection() {
    let mut rng = rng();
    let mut evo = EvoTrainer::new(4, &mut rng);
    assert!(!evo.leader_protected());
    assert!(evo.set_score(2, 5));
    assert!(evo.leader_protected());
    assert!(evo.set_score(0, 5));
    assert!(!evo.leader_protected());
    assert!(evo.set_score(0, 6));
    assert!(evo.leader_protected());
    assert!(!evo.set_score(4, 1));
    // A single agent that has not scored does not lead.
    let mut one = EvoTrainer::new(1, &mut rng);
    assert!(!one.leader_protected());
    assert!(one.set_score(0, 1));
    assert!(one.leader_protected());
    // A leader whose game has ended is not protected.
    let mut lanes = evo.lend_lanes();
    lanes.games[0] = snake_evo::game::Game::from_parts(
        40,
        30,
        false,
        false,
        &vec![Pos::new(0, 0)],
        Dir::Left,
        Pos::new(5, 5),
    )
    .unwrap();
    lanes.games[0].update(&mut rng);
    assert!(!lanes.games[0].is_alive());
    assert!(evo.restore_lanes(lanes));
    assert!(!evo.leader_protected());
    assert_eq!(evo.alive_count(), 3);
    assert!(evo.any_active());
}

#[test]
fn lanes_must_come_back_complete() {
    let mut rng = rng();
    let mut evo = EvoTrainer::new(3, &mut rng);
    let mut lanes = evo.lend_lanes();
    assert_eq!(evo.pop_len(), 0);
    assert_eq!((lanes.pop.len(), lanes.games.len(), lanes.scores.len()), (3, 3, 3));
    lanes.scores.pop();
    assert!(!evo.restore_lanes(lanes));
    assert_eq!(evo.pop_len(), 0);
}

#[test]
fn ticks_run_epochs() {
    let mut rng = rng();
    let mut evo = EvoTrainer::new(6, &mut rng);
    evo.set_training(true, &mut rng);
    assert!(evo.is_training());
    evo.set_step_limit(5);
    let mut ended = 0;
    let mut ticks_in_epoch = 0;
    for _ in 0..200 {
        let steps = evo.steps_taken();
        let protected_before = evo.leader_protected();
        let over = evo.tick(&mut rng);
        ticks_in_epoch += 1;
        assert_eq!((evo.pop_len(), evo.games_len(), evo.scores_len()), (6, 6, 6));
        if over {
            ended += 1;
            assert_eq!(evo.steps_taken(), 0);
            assert_eq!(evo.epoch(), ended);
            assert_eq!(evo.epoch_best().len(), ended);
            assert_eq!(evo.alive_count(), 6);
            ticks_in_epoch = 0;
        } else {
            assert_eq!(evo.steps_taken(), steps + 1);
            // Past the limit only a protected leader keeps the epoch open.
            assert!(ticks_in_epoch < 5 || evo.leader_protected() || protected_before);
        }
    }
    assert!(ended >= 10);
    evo.set_training(false, &mut rng);
    assert!(!evo.is_training());
    assert!(ended == evo.epoch());
    evo.set_training(true, &mut rng);
    assert_eq!(evo.epoch(), 0);
    assert!(evo.epoch_best().is_empty());
    assert_eq!(evo.best_score(), 0);
    assert_eq!(evo.epochs_without_improvement(), 0);
}

#[test]
fn an_idle_trainer_does_not_tick() {
    let mut rng = rng();
    let mut evo = EvoTrainer::new(4, &mut rng);
    assert!(!evo.is_training());
    for _ in 0..10 {
        assert!(!evo.tick(&mut rng));
    }
    assert_eq!(evo.steps_taken(), 0);
    assert_eq!(evo.epoch(), 0);
    for i in 0..4 {
        assert_eq!(evo.game(i).unwrap().head(), Pos::new(20, 15));
        assert_eq!(evo.agent(i).unwrap().steps(), 0);
    }
    evo.set_training(true, &mut rng);
    assert!(!evo.tick(&mut rng));
    assert_eq!(evo.steps_taken(), 1);
    for i in 0..4 {
        assert_eq!(evo.agent(i).unwrap().steps(), 1);
    }
}

#[test]
fn reaching_the_target_ends_training() {
    let mut rng = rng();
    let mut evo = EvoTrainer::new(4, &mut rng);
    evo.set_training(true, &mut rng);
    let ended = evo.finish_step(true, &mut rng);
    assert!(ended);
    assert!(evo.is_solved());
    assert!(!evo.is_training());
    assert_eq!(evo.epoch(), 1);
    // Without it the epoch goes on while agents have work left.
    let mut other = EvoTrainer::new(4, &mut rng);
    assert!(!other.finish_step(false, &mut rng));
    assert_eq!(other.steps_taken(), 1);
    assert_eq!(other.epoch(), 0);
}

#[test]
fn epoch_ends_when_all_games_are_over() {
    let mut rng = rng();
    let mut evo = EvoTrainer::new(5, &mut rng);
    evo.set_wrap_world(false, &mut rng);
    assert!(!evo.wrap_world());
    let mut lanes = evo.lend_lanes();
    for g in lanes.games.iter_mut() {
        assert!(!g.wrap_world());
        for _ in 0..40 {
            g.update(&mut rng);
        }
        assert!(!g.is_alive());
    }
    assert!(evo.restore_lanes(lanes));
    assert_eq!(evo.alive_count(), 0);
    assert!(!evo.any_active());
    assert!(!evo.step_population(&mut rng));
    assert!(evo.finish_step(false, &mut rng));
    assert_eq!(evo.alive_count(), 5);
    assert!(!evo.game(0).unwrap().wrap_world());
}

#[test]
fn seeding_and_resetting_the_population() {
    let mut rng = rng();
    let mut evo = EvoTrainer::new(5, &mut rng);
    let mut learned = QAgent::new_with_color(1, 2, 3);
    assert!(learned.set_row(11, row(1, 2, 3)));
    assert!(evo.set_score(1, 4));
    evo.reproduce(&mut rng);
    evo.seed_population(&learned, &mut rng);
    assert_eq!(evo.pop_len(), 5);
    for i in 0..5 {
        assert_eq!(evo.agent(i).unwrap().q_values(11), row(1, 2, 3));
        assert_eq!(evo.agent(i).unwrap().color(), (1, 2, 3));
    }
    assert_eq!(evo.champion_score(), 4);
    evo.set_step_limit(77);
    evo.reset_population(&mut rng);
    assert_eq!(evo.pop_len(), 5);
    assert_eq!(evo.champion_score(), 0);
    assert!(evo.champion().is_none());
    assert_eq!(evo.epoch(), 0);
    assert_eq!(evo.step_limit(), 77);
    assert!(evo.agent(0).unwrap().states().is_empty());
}

#[test]
fn stepping_a_lane_learns_and_counts() {
    let mut rng = rng();
    let mut agent = QAgent::new();
    let mut game = snake_evo::game::Game::from_parts(
        40,
        30,
        true,
        false,
        &vec![Pos::new(20, 15), Pos::new(19, 15), Pos::new(18, 15)],
        Dir::Right,
        Pos::new(21, 15),
    )
    .unwrap();
    assert!(agent.set_rates(0, 0, 999_200, 300_000, 950_000));
    // Make going straight the greedy action in the starting state.
    assert!(agent.set_row(2 * 4 + 4096 + 65536, row(0, 1, 0)));
    let mut score = 0usize;
    let solved = step_agent(&mut agent, &mut game, &mut score, 1197, &mut rng);
    assert!(!solved);
    assert_eq!(score, 1);
    assert_eq!(game.snake_len(), 4);
    assert_eq!(agent.steps(), 1);
    assert_eq!(agent.episodes(), 0);
    // Reward 10 + 0.1 * 4; the next state is unseen: 1 + 0.3 * (10400000 - 1).
    assert_eq!(agent.q_values(2 * 4 + 4096 + 65536), row(0, 3_120_000, 0));
    // A lane at its target is left alone.
    let before = game.head();
    assert!(!step_agent(&mut agent, &mut game, &mut score, 1, &mut rng));
    assert_eq!(game.head(), before);
    assert_eq!(agent.steps(), 1);
    // Reaching the target is reported.
    let mut fresh = snake_evo::game::Game::from_parts(
        40,
        30,
        true,
        false,
        &vec![Pos::new(20, 15), Pos::new(19, 15), Pos::new(18, 15)],
        Dir::Right,
        Pos::new(21, 15),
    )
    .unwrap();
    let mut s = 0usize;
    assert!(step_agent(&mut agent, &mut fresh, &mut s, 1, &mut rng));
    assert_eq!(s, 1);
}
