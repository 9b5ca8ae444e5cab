use rand::SeedableRng;
use sim::fighting::FightDraw;
use sim::fighting::FightingSimConfig;
use sim::thieving::ThieveDraw;
use sim::thieving::ThievingSimConfig;
use sim::CHANCE_SCALE;

fn seeded(seed: u64) -> rand::rngs::StdRng {
    rand::rngs::StdRng::seed_from_u64(seed)
}

fn one_shot_fight_config() -> FightingSimConfig {
    FightingSimConfig::new(
        720,
        8,
        80,
        300,
        300,
        CHANCE_SCALE,
        30,
        300,
        0,
        116,
        0,
        24,
    )
}

#[test]
fn one_shot_fight_kills_one_enemy_per_respawn_delay() {
    let config = one_shot_fight_config();
    let mut rng = seeded(7);
    let r = sim::fighting::sim(&config, &mut rng);
    assert_eq!(r.enemy_killed, 9600);
    assert_eq!(r.time, 28800);
}

#[test]
fn one_shot_fight_replay_matches_live_run() {
    let config = one_shot_fight_config();
    let draws: Vec<FightDraw> = Vec::new();
    let r = sim::fighting::sim_from_draws(&config, &draws);
    assert_eq!(r.enemy_killed, 9600);
    assert_eq!(r.time, 28800);
}

#[test]
fn fight_replay_player_worn_down_without_hitting_back() {
    // The player never hits; the enemy always hits for exactly three.
    let config = FightingSimConfig::new(10, 0, 1000, 1, 1, 0, 20, 100, 3, 3, CHANCE_SCALE, 20);
    let draws = vec![
        FightDraw { attack_roll: 5, damage: 0, enemy_roll: 0, enemy_damage: 0 };
        4
    ];
    let r = sim::fighting::sim_from_draws(&config, &draws);
    // Health runs 10, 7, 4, 1, 0: four iterations of twenty deciseconds.
    assert_eq!(r.time, 8);
    assert_eq!(r.enemy_killed, 0);
}

#[test]
fn fight_trial_stays_within_horizon() {
    let config = FightingSimConfig::new(
        500,
        5,
        80,
        10,
        40,
        760_000,
        26,
        300,
        0,
        116,
        350_000,
        24,
    );
    let mut rng = seeded(42);
    for _ in 0..5 {
        let r = sim::fighting::sim(&config, &mut rng);
        assert!(r.time <= 28800);
    }
}

#[test]
fn fight_same_seed_same_outcome() {
    let config = FightingSimConfig::new(
        500,
        5,
        80,
        10,
        40,
        760_000,
        26,
        300,
        0,
        116,
        350_000,
        24,
    );
    let a = sim::fighting::sim(&config, &mut seeded(123));
    let b = sim::fighting::sim(&config, &mut seeded(123));
    assert_eq!(a, b);
}

#[test]
fn fight_replay_is_deterministic() {
    let config = FightingSimConfig::new(10, 0, 1000, 1, 1, 0, 20, 100, 3, 3, CHANCE_SCALE, 20);
    let draws = vec![
        FightDraw { attack_roll: 1, damage: 2, enemy_roll: 3, enemy_damage: 4 };
        6
    ];
    let a = sim::fighting::sim_from_draws(&config, &draws);
    let b = sim::fighting::sim_from_draws(&config, &draws);
    assert_eq!(a, b);
}

#[test]
fn fight_batch_has_requested_length() {
    let config = one_shot_fight_config();
    let mut rng = seeded(9);
    let pop = sim::fighting::run_batch(&config, 3, &mut rng);
    assert_eq!(pop.len(), 3);
}

#[test]
fn thieving_instant_death_ends_at_time_zero() {
    // No steal can succeed and one failure's damage covers the health bar.
    let config = ThievingSimConfig::new(80, 8, 5, 26, 0, 5, 5, 51, 1212);
    let mut rng = seeded(3);
    let r = sim::thieving::sim(&config, &mut rng);
    assert_eq!(r.time, 0);
    assert_eq!(r.thieving_count, 1);
    assert_eq!(r.failed_thieving_count, 1);
    assert_eq!(r.success_thieving_count, 0);
    assert_eq!(r.money_earned, 0);
}

#[test]
fn thieving_certain_success_never_fails() {
    // Attempts land at times zero and 14400 seconds; each pays seven gold.
    let config = ThievingSimConfig::new(80, 8, 720, 144000, CHANCE_SCALE, 0, 0, 7, 7);
    let mut rng = seeded(11);
    let r = sim::thieving::sim(&config, &mut rng);
    assert_eq!(r.failed_thieving_count, 0);
    assert_eq!(r.thieving_count, 2);
    assert_eq!(r.success_thieving_count, 2);
    assert_eq!(r.money_earned, 14);
    assert_eq!(r.time, 28800);
}

#[test]
fn thieving_counts_always_sum() {
    let config = ThievingSimConfig::new(80, 8, 720, 14400, 900_000, 0, 157, 51, 1212);
    let mut rng = seeded(5);
    for _ in 0..3 {
        let r = sim::thieving::sim(&config, &mut rng);
        assert_eq!(
            r.thieving_count,
            r.success_thieving_count + r.failed_thieving_count
        );
        assert!(r.time <= 28800);
    }
}

#[test]
fn thieving_same_seed_same_outcome() {
    let config = ThievingSimConfig::new(80, 8, 720, 14400, 900_000, 0, 157, 51, 1212);
    let a = sim::thieving::sim(&config, &mut seeded(77));
    let b = sim::thieving::sim(&config, &mut seeded(77));
    assert_eq!(a, b);
}

#[test]
fn thieving_replay_is_deterministic() {
    let config = ThievingSimConfig::new(80, 8, 20, 26, 500_000, 10, 10, 3, 3);
    let draws = vec![
        ThieveDraw { roll: 600_000, damage: 0, gold: 0 };
        3
    ];
    let a = sim::thieving::sim_from_draws(&config, &draws);
    let b = sim::thieving::sim_from_draws(&config, &draws);
    assert_eq!(a, b);
}

#[test]
fn thieving_replay_two_failures_kill_target() {
    // Rolls at or above the chance fail; each failure costs ten health, the
    // target has twenty and regenerates nothing.
    let config = ThievingSimConfig::new(100000, 0, 20, 26, 500_000, 10, 10, 3, 3);
    // One record is consumed per iteration: the first attempt sits at time
    // zero, then the stun and the tenth-of-a-second steps put the second
    // attempt twenty-two iterations later.
    let draws = vec![
        ThieveDraw { roll: 600_000, damage: 0, gold: 0 };
        23
    ];
    let r = sim::thieving::sim_from_draws(&config, &draws);
    // First failure at time zero, stun of three seconds, then steps of a
    // tenth of a second to the next multiple of the steal interval at 5.2
    // seconds, where the second failure is fatal.
    assert_eq!(r.failed_thieving_count, 2);
    assert_eq!(r.success_thieving_count, 0);
    assert_eq!(r.thieving_count, 2);
    assert_eq!(r.money_earned, 0);
    assert_eq!(r.time, 5);
}

#[test]
fn thieving_batch_has_requested_length() {
    let config = ThievingSimConfig::new(80, 8, 5, 26, 0, 5, 5, 51, 1212);
    let mut rng = seeded(13);
    let pop = sim::thieving::run_batch(&config, 4, &mut rng);
    assert_eq!(pop.len(), 4);
    for r in pop.iter() {
        assert_eq!(
            r.thieving_count,
            r.success_thieving_count + r.failed_thieving_count
        );
    }
}
