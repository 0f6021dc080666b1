use utxo_pow::difficulty::{
    append_sample, clamp, damp, on_finalize, update_difficulty, Config, DifficultyAndTimestamp,
    Event, GenesisConfig,
};

const BLOCK_TIME: u128 = 60_000;

fn cfg() -> Config {
    Config {
        target_block_time: BLOCK_TIME,
        damp_factor: 2,
        clamp_factor: 2,
        min_difficulty: 1,
        max_difficulty: 1_000_000_000,
    }
}

fn window(difficulty: u128, timestamps: &[u64]) -> Vec<DifficultyAndTimestamp> {
    timestamps.iter().map(|&t| DifficultyAndTimestamp { difficulty, timestamp: t }).collect()
}

#[test]
fn difficulty_equilibrium() {
    // Sixty samples whose observed window time is exactly sixty target
    // intervals: the first gap spans two intervals, the remaining 58 one each.
    let b = BLOCK_TIME as u64;
    let mut timestamps = vec![0u64];
    for i in 1..60u64 {
        timestamps.push((i + 1) * b);
    }
    let w = window(1000, &timestamps);
    assert_eq!(update_difficulty(&w, &cfg()), 1000);
}

#[test]
fn difficulty_clamp() {
    // Sixty samples with identical timestamps: the observed time collapses to
    // the minimum, and the retarget rises by exactly the clamp factor.
    let timestamps = [5u64; 60];
    let w = window(1000, &timestamps);
    assert_eq!(update_difficulty(&w, &cfg()), 2000);
}

#[test]
fn difficulty_ceiling_binds() {
    let mut config = cfg();
    config.max_difficulty = 1500;
    let timestamps = [5u64; 60];
    let w = window(1000, &timestamps);
    assert_eq!(update_difficulty(&w, &config), 1500);
}

#[test]
fn difficulty_floor_binds() {
    let mut config = cfg();
    config.min_difficulty = 900;
    // Blocks ten times slower than the target: the retarget falls to the
    // clamped halving, which the floor then overrides.
    let b = BLOCK_TIME as u64;
    let mut timestamps = Vec::new();
    for i in 0..60u64 {
        timestamps.push(i * 10 * b);
    }
    let w = window(1000, &timestamps);
    assert_eq!(update_difficulty(&w, &config), 900);
}

#[test]
fn clock_regression_tolerated() {
    // A backwards clock jump counts as a zero interval, never underflows.
    let b = BLOCK_TIME as u64;
    let mut timestamps = Vec::new();
    for i in 0..60u64 {
        timestamps.push((60 - i) * b);
    }
    let w = window(1000, &timestamps);
    // All intervals saturate to zero, so the window looks instantaneous and
    // the difficulty doubles under the clamp.
    assert_eq!(update_difficulty(&w, &cfg()), 2000);
}

#[test]
fn window_grows_then_shifts() {
    let mut w: Vec<DifficultyAndTimestamp> = Vec::new();
    for i in 0..61u64 {
        append_sample(&mut w, DifficultyAndTimestamp { difficulty: 7, timestamp: i });
    }
    assert_eq!(w.len(), 60);
    // The oldest sample (timestamp 0) was evicted.
    assert_eq!(w[0].timestamp, 1);
    assert_eq!(w[59].timestamp, 60);
}

#[test]
fn genesis_sets_initial_difficulty() {
    let mut current: u128 = 0;
    let config = cfg();
    GenesisConfig { initial_difficulty: 1000 }.build(&mut current, &config);
    assert_eq!(current, 1000);
}

#[test]
fn finalize_appends_and_retargets() {
    let config = cfg();
    let mut w: Vec<DifficultyAndTimestamp> = Vec::new();
    let mut current: u128 = 1000;
    let event = on_finalize(&mut w, &mut current, &config, 0);
    assert_eq!(w.len(), 1);
    assert_eq!(w[0].difficulty, 1000);
    // One sample, no observable interval: 1000 * 60000 / 1800000 = 33.
    assert_eq!(current, 33);
    assert_eq!(event, Event::DifficultyUpdated { difficulty: 33 });
}

#[test]
fn damp_is_weighted_mean() {
    assert_eq!(damp(10, 20, 2), 15);
    assert_eq!(damp(0, 100, 10), 90);
}

#[test]
fn clamp_bounds_both_sides() {
    assert_eq!(clamp(100, 10, 2), 20);
    assert_eq!(clamp(1, 10, 2), 5);
    assert_eq!(clamp(12, 10, 2), 12);
}

#[test]
fn target_spaced_samples_read_slightly_fast() {
    // Sixty samples exactly one target interval apart hold only 59 observed
    // intervals, so the window reads as slightly fast and one retarget nudges
    // the difficulty up: 3_600_000_000 / 3_570_000 = 1008.
    let b = BLOCK_TIME as u64;
    let mut timestamps = Vec::new();
    for i in 0..60u64 {
        timestamps.push(i * b);
    }
    let w = window(1000, &timestamps);
    assert_eq!(update_difficulty(&w, &cfg()), 1008);
}
