use snake_evo::grid::DeathCause;
use snake_evo::reward::{reward, Outcome};

fn outcome(died: bool, cause: DeathCause, ate: bool, length: u32, before: u32, after: u32) -> Outcome {
    Outcome { died, cause, ate, length, distance_before: before, distance_after: after }
}

#[test]
fn deaths_are_ranked() {
    let s = reward(&outcome(true, DeathCause::SelfCollision, false, 5, 4, 4));
    let w = reward(&outcome(true, DeathCause::Wall, false, 5, 4, 4));
    let u = reward(&outcome(true, DeathCause::Unclassified, false, 5, 4, 4));
    assert_eq!(s, -30_000_000);
    assert_eq!(w, -20_000_000);
    assert_eq!(u, -12_000_000);
    assert!(s < w && w < u);
    // Dying wins over eating in the same step.
    assert_eq!(reward(&outcome(true, DeathCause::Wall, true, 5, 4, 4)), -20_000_000);
}

#[test]
fn eating_pays_more_for_longer_snakes() {
    assert_eq!(reward(&outcome(false, DeathCause::Unclassified, true, 4, 1, 9)), 10_400_000);
    assert_eq!(reward(&outcome(false, DeathCause::Unclassified, true, 100, 1, 9)), 20_000_000);
    assert_eq!(
        reward(&outcome(false, DeathCause::Unclassified, true, u32::MAX, 1, 9)),
        10_000_000 + 4_294_967_295i64 * 100_000
    );
}

#[test]
fn plain_steps_are_shaped_by_the_distance() {
    let plain = |before: u32, after: u32| {
        reward(&outcome(false, DeathCause::Unclassified, false, 3, before, after))
    };
    // Closer, far away: -0.005 + 0.05.
    assert_eq!(plain(10, 9), 45_000);
    // Further, far away: -0.005 - 0.03.
    assert_eq!(plain(9, 10), -35_000);
    // Unchanged, far away.
    assert_eq!(plain(9, 9), -5_000);
    // Closer and near: -0.005 + 0.05 + 0.02.
    assert_eq!(plain(4, 3), 65_000);
    // Further but still near: -0.005 - 0.03 + 0.02.
    assert_eq!(plain(2, 3), -15_000);
    // Unchanged and near.
    assert_eq!(plain(3, 3), 15_000);
    assert_eq!(plain(4, 4), -5_000);
}
