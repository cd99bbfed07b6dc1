use rand::rngs::SmallRng;
use rand::SeedableRng;
use snake_evo::agent::{
    choose_action, decay_once, mutate_qagent, QAgent, BOOST_ALPHA, BOOST_EPSILON, EPSILON_DECAY,
    GAMMA, MIN_EPSILON, START_ALPHA, START_EPSILON,
};
use snake_evo::fixed::{clamp_value, scale_by, Q_LIMIT, SCALE};
use snake_evo::qrow::QRow;

fn rng() -> SmallRng {
    SmallRng::seed_from_u64(42)
}

fn row(left: i64, straight: i64, right: i64) -> QRow {
    QRow { left, straight, right }
}

#[test]
fn new_agent_has_the_default_rates() {
    let a = QAgent::new();
    assert_eq!(a.epsilon(), START_EPSILON);
    assert_eq!(a.epsilon(), 250_000);
    assert_eq!(a.min_epsilon(), MIN_EPSILON);
    assert_eq!(a.alpha(), START_ALPHA);
    assert_eq!(a.gamma(), GAMMA);
    assert_eq!(a.steps(), 0);
    assert_eq!(a.episodes(), 0);
    assert_eq!(a.color(), (100, 220, 100));
    assert!(a.states().is_empty());
    let b = QAgent::new_with_color(1, 2, 3);
    assert_eq!(b.color(), (1, 2, 3));
    assert_eq!(b.q_values(77), row(0, 0, 0));
}

#[test]
fn fixed_point_rounds_towards_zero() {
    assert_eq!(SCALE, 1_000_000);
    assert_eq!(scale_by(10_000_000, 300_000), 3_000_000);
    assert_eq!(scale_by(5, 300_000), 1);
    assert_eq!(scale_by(-5, 300_000), -1);
    assert_eq!(scale_by(3, 300_000), 0);
    assert_eq!(scale_by(-3, 300_000), 0);
    assert_eq!(scale_by(-5_000, 300_000), -1_500);
    assert_eq!(clamp_value(Q_LIMIT as i128 + 1), Q_LIMIT);
    assert_eq!(clamp_value(-(Q_LIMIT as i128) - 5), -Q_LIMIT);
    assert_eq!(clamp_value(-17), -17);
}

#[test]
fn learning_moves_the_value_towards_the_target() {
    let mut a = QAgent::new();
    // Unseen states count as zero: the target is the reward.
    a.learn(1, 0, 10_000_000, 2, false);
    assert_eq!(a.q_values(1), row(3_000_000, 0, 0));
    assert!(a.has_state(1));
    assert!(!a.has_state(2));
    // The next state's best value is discounted into the target:
    // -5000 + 0.95 * 3000000 = 2845000, of which 0.3 is learned.
    a.learn(5, 1, -5_000, 1, false);
    assert_eq!(a.q_values(5), row(0, 853_500, 0));
    // A second visit moves on from the stored value:
    // 853500 + 0.3 * (2845000 - 853500).
    a.learn(5, 1, -5_000, 1, false);
    assert_eq!(a.q_values(5), row(0, 853_500 + 597_450, 0));
    // The other actions of the state are left alone.
    a.learn(5, 2, 1_000_000, 9, false);
    assert_eq!(a.q_values(5), row(0, 1_450_950, 300_000));
}

#[test]
fn a_finished_episode_ignores_the_next_state() {
    let mut a = QAgent::new();
    assert!(a.set_row(2, row(9_000_000, 9_000_000, 9_000_000)));
    let mut b = a.clone();
    a.learn(1, 2, -30_000_000, 2, true);
    b.learn(1, 2, -30_000_000, 3, true);
    assert_eq!(a.q_values(1), row(0, 0, -9_000_000));
    assert_eq!(b.q_values(1), row(0, 0, -9_000_000));
    // Not finished, the next state counts.
    let mut c = QAgent::new();
    assert!(c.set_row(2, row(9_000_000, -1, 4)));
    c.learn(1, 2, -30_000_000, 2, false);
    assert_eq!(c.q_values(1), row(0, 0, -6_435_000));
}

#[test]
fn stored_values_stay_in_range() {
    let mut a = QAgent::new();
    assert!(a.set_rates(0, 0, 1_000_000, 1_000_000, 1_000_000));
    a.learn(1, 0, i64::MAX, 1, false);
    assert_eq!(a.q_values(1).left, Q_LIMIT);
    a.learn(1, 1, i64::MIN, 1, true);
    assert_eq!(a.q_values(1).straight, -Q_LIMIT);
    assert!(!a.set_row(3, row(Q_LIMIT + 1, 0, 0)));
    assert!(!a.set_row(3, row(0, 0, -Q_LIMIT - 1)));
    assert!(!a.has_state(3));
    assert!(a.set_row(3, row(Q_LIMIT, 0, -Q_LIMIT)));
}

#[test]
fn greedy_choice_prefers_the_first_of_equals() {
    assert_eq!(row(0, 0, 0).argmax(), 0);
    assert_eq!(row(1, 1, 0).argmax(), 0);
    assert_eq!(row(0, 1, 1).argmax(), 1);
    assert_eq!(row(0, 1, 2).argmax(), 2);
    assert_eq!(row(-5, -7, -5).argmax(), 0);
    assert_eq!(row(-5, -7, -5).max_value(), -5);
    assert_eq!(row(3, 9, 4).max_value(), 9);
    assert_eq!(row(3, 9, 4).get(2), 4);
    let mut r = row(3, 9, 4);
    r.set(0, 11);
    assert_eq!(r, row(11, 9, 4));
    assert_eq!(QRow::zeros(), row(0, 0, 0));
    // Below epsilon the drawn action is taken, else the greedy one.
    assert_eq!(choose_action(&row(0, 5, 1), 250_000, 249_999, 2), 2);
    assert_eq!(choose_action(&row(0, 5, 1), 250_000, 250_000, 2), 1);
    assert_eq!(choose_action(&row(0, 5, 1), 0, 0, 2), 1);
}

#[test]
fn selection_without_exploration_is_greedy() {
    let mut rng = rng();
    let mut a = QAgent::new();
    assert!(a.set_rates(0, 0, EPSILON_DECAY, START_ALPHA, GAMMA));
    assert!(a.set_row(8, row(1, 7, 3)));
    for _ in 0..50 {
        assert_eq!(a.select_action(8, &mut rng), 1);
        assert_eq!(a.select_action(9, &mut rng), 0);
    }
    // The greedy choice gave the unseen state a row of zeros.
    assert!(a.has_state(9));
    assert_eq!(a.q_values(9), row(0, 0, 0));
}

#[test]
fn selection_with_full_exploration_tries_everything() {
    let mut rng = rng();
    let mut a = QAgent::new();
    assert!(a.set_rates(1_000_000, 0, EPSILON_DECAY, START_ALPHA, GAMMA));
    assert!(a.set_row(8, row(1, 7, 3)));
    let mut seen = [0usize; 3];
    for _ in 0..300 {
        let action = a.select_action(8, &mut rng);
        assert!(action < 3);
        seen[action] += 1;
        let other = a.select_action(9, &mut rng);
        assert!(other < 3);
    }
    assert!(seen[0] > 50 && seen[1] > 50 && seen[2] > 50);
    // Exploring does not touch the table.
    assert!(!a.has_state(9));
}

#[test]
fn default_agent_explores_about_a_quarter_of_the_time() {
    let mut rng = rng();
    let mut a = QAgent::new();
    assert!(a.set_row(8, row(0, 0, 5)));
    let mut not_greedy = 0;
    for _ in 0..4000 {
        if a.select_action(8, &mut rng) != 2 {
            not_greedy += 1;
        }
    }
    // A quarter explores, and two in three of those miss the greedy action.
    assert!(not_greedy > 500 && not_greedy < 850);
}

#[test]
fn decay_stops_at_the_floor() {
    assert_eq!(decay_once(250_000, 999_200, 50_000), 249_800);
    assert_eq!(decay_once(50_010, 999_200, 50_000), 50_000);
    assert_eq!(decay_once(10, 999_200, 50_000), 50_000);
    assert_eq!(decay_once(1_000_000, 1_000_000, 0), 1_000_000);
    assert_eq!(decay_once(3, 500_000, 0), 1);
    let mut a = QAgent::new();
    let mut last = a.epsilon();
    for _ in 0..5000 {
        a.decay_epsilon();
        assert!(a.epsilon() >= MIN_EPSILON);
        assert!(a.epsilon() <= last);
        last = a.epsilon();
    }
    assert_eq!(a.epsilon(), MIN_EPSILON);
}

#[test]
fn boost_and_counters() {
    let mut a = QAgent::new();
    a.boost_exploration();
    assert_eq!(a.epsilon(), BOOST_EPSILON);
    assert_eq!(a.alpha(), BOOST_ALPHA);
    assert_eq!(a.epsilon(), 350_000);
    assert_eq!(a.alpha(), 450_000);
    a.note_step(false);
    assert_eq!((a.steps(), a.episodes(), a.epsilon()), (1, 0, 350_000));
    a.note_step(true);
    assert_eq!((a.steps(), a.episodes(), a.epsilon()), (2, 1, 349_720));
    a.set_counters(u64::MAX, u64::MAX);
    a.note_step(true);
    assert_eq!((a.steps(), a.episodes()), (u64::MAX, u64::MAX));
    assert!(!a.set_rates(1_000_001, 0, 0, 0, 0));
    assert!(!a.set_rates(0, 0, 0, 0, 1_000_001));
    assert_eq!(a.alpha(), 450_000);
    a.set_color((9, 8, 7));
    assert_eq!(a.color(), (9, 8, 7));
}

#[test]
fn lazy_rows_and_copies() {
    let mut a = QAgent::new();
    assert_eq!(a.q_values(4), row(0, 0, 0));
    assert!(!a.has_state(4));
    assert_eq!(a.get_qs(4), row(0, 0, 0));
    assert!(a.has_state(4));
    assert!(a.set_row(4, row(1, 2, 3)));
    assert_eq!(a.get_qs(4), row(1, 2, 3));
    assert!(a.set_row(6, row(-1, -2, -3)));
    let mut keys = a.states();
    keys.sort();
    assert_eq!(keys, vec![4, 6]);
    let copy = a.duplicate();
    let cloned = a.clone();
    a.learn(4, 0, 1_000_000, 6, true);
    assert_eq!(copy.q_values(4), row(1, 2, 3));
    assert_eq!(cloned.q_values(6), row(-1, -2, -3));
    assert_eq!(copy.epsilon(), a.epsilon());
    assert_ne!(a.q_values(4), row(1, 2, 3));
}

#[test]
fn mutation_moves_every_value_a_little() {
    let mut rng = rng();
    let mut a = QAgent::new();
    for s in 0..200u32 {
        assert!(a.set_row(s, row(s as i64 * 1000, -(s as i64), 5_000_000)));
    }
    assert!(a.set_row(500, row(Q_LIMIT, -Q_LIMIT, 0)));
    let before = a.clone();
    mutate_qagent(&mut a, &mut rng, 150_000);
    let mut keys = a.states();
    keys.sort();
    let mut old_keys = before.states();
    old_keys.sort();
    assert_eq!(keys, old_keys);
    let mut changed = 0;
    for s in keys {
        let (o, n) = (before.q_values(s), a.q_values(s));
        for (x, y) in [(o.left, n.left), (o.straight, n.straight), (o.right, n.right)] {
            assert!((x - y).abs() <= 150_000);
            assert!(y.abs() <= Q_LIMIT);
            if x != y {
                changed += 1;
            }
        }
    }
    assert!(changed > 500);
    assert_eq!(a.epsilon(), 249_800);
    assert_eq!(a.alpha(), before.alpha());
    // A spread of zero changes nothing but the exploration probability.
    let again = a.clone();
    mutate_qagent(&mut a, &mut rng, 0);
    assert_eq!(a.q_values(17), again.q_values(17));
    assert_eq!(a.epsilon(), 249_600);
}
