use vstd::prelude::*;
use crate::wide::{
    pow2_256, wide_add_u128, wide_div_u128, wide_from_u128, wide_gt_u128, wide_lt_u128,
    wide_mul_u128, wide_to_u128, wide_zero, Wide,
};

verus! {

/// One difficulty sample: the network difficulty a block was produced under
/// and the millisecond clock reading at its finalization.
#[derive(Clone, Copy, Debug, PartialEq, Eq, Structural)]
pub struct DifficultyAndTimestamp {
    pub difficulty: u128,
    pub timestamp: u64,
}

/// The host-supplied retargeting parameters, immutable at runtime.
#[derive(Clone, Copy, Debug)]
pub struct Config {
    /// Desired mean inter-block interval, in milliseconds.
    pub target_block_time: u128,
    /// Higher damp factor: slower reaction to observed intervals.
    pub damp_factor: u128,
    /// Per-block retargets are bounded by this factor in either direction.
    pub clamp_factor: u128,
    /// Absolute difficulty floor.
    pub min_difficulty: u128,
    /// Absolute difficulty ceiling.
    pub max_difficulty: u128,
}

/// The starting difficulty, set by the host at genesis.
pub struct GenesisConfig {
    pub initial_difficulty: u128,
}

/// Event the difficulty controller reports to the host.
#[derive(Clone, Copy, Debug, PartialEq, Eq, Structural)]
pub enum Event {
    DifficultyUpdated { difficulty: u128 },
}

/// Failure the difficulty controller can report to the host.
#[derive(Clone, Copy, Debug, PartialEq, Eq, Structural)]
pub enum Error {
    FailedToUpdateDifficulty,
}

/// What a usable configuration looks like: damping and clamping are genuine
/// (factors at least two), the bounds are ordered, and the machine limits of
/// the 128-bit and 256-bit arithmetic cannot be hit.
pub open spec fn config_wf(c: Config) -> bool {
    &&& c.damp_factor >= 2
    &&& c.clamp_factor >= 2
    &&& c.target_block_time >= 1
    &&& c.min_difficulty <= c.max_difficulty
    &&& 60 * c.target_block_time * c.clamp_factor <= u128::MAX
    &&& (c.damp_factor - 1) * (60 * c.target_block_time) + 59 * (u64::MAX as int) <= u128::MAX
    &&& 60 * c.max_difficulty * c.target_block_time < pow2_256()
}

/// A well-formed sample window: at most one sample per block of the adjustment
/// window, every sample's difficulty within the configured bounds.
pub open spec fn window_wf(w: Seq<DifficultyAndTimestamp>, c: Config) -> bool {
    &&& w.len() <= 60
    &&& forall|i: int|
        0 <= i < w.len() ==> c.min_difficulty <= (#[trigger] w[i]).difficulty <= c.max_difficulty
}

/// Timestamp distance between consecutive samples, zero on clock regression.
pub open spec fn sat_sub_u64(a: u64, b: u64) -> int {
    if a >= b {
        a - b
    } else {
        0
    }
}

/// Sum of the saturating timestamp deltas of consecutive samples.
pub open spec fn spec_ts_delta(w: Seq<DifficultyAndTimestamp>) -> int
    decreases w.len(),
{
    if w.len() <= 1 {
        0
    } else {
        spec_ts_delta(w.drop_last()) + sat_sub_u64(
            w.last().timestamp,
            w[w.len() - 2].timestamp,
        )
    }
}

/// Sum of the sampled difficulties.
pub open spec fn spec_diff_sum(w: Seq<DifficultyAndTimestamp>) -> int
    decreases w.len(),
{
    if w.len() == 0 {
        0
    } else {
        spec_diff_sum(w.drop_last()) + w.last().difficulty
    }
}

/// The damped interval: a weighted mean pulling the observed interval toward
/// the goal with weight (damp_factor - 1) / damp_factor.
pub open spec fn spec_damp(actual: int, goal: int, damp_factor: int) -> int {
    (actual + (damp_factor - 1) * goal) / damp_factor
}

/// The clamped interval: the damped interval bounded to a factor of
/// clamp_factor around the goal.
pub open spec fn spec_clamp(actual: int, goal: int, clamp_factor: int) -> int {
    let upper = if actual < goal * clamp_factor {
        actual
    } else {
        goal * clamp_factor
    };
    if goal / clamp_factor > upper {
        goal / clamp_factor
    } else {
        upper
    }
}

/// The difficulty the retargeting controller writes after a block: summed
/// difficulty times the target interval over the damped-and-clamped observed
/// window time, bounded to the configured difficulty range.
pub open spec fn spec_retarget(w: Seq<DifficultyAndTimestamp>, c: Config) -> int {
    let ts_raw = spec_ts_delta(w);
    let ts = if ts_raw == 0 {
        1
    } else {
        ts_raw
    };
    let sum_raw = spec_diff_sum(w);
    let diff_sum = if sum_raw < c.min_difficulty {
        c.min_difficulty as int
    } else {
        sum_raw
    };
    let adjustment_window = 60 * c.target_block_time;
    let adj_ts = spec_clamp(
        spec_damp(ts, adjustment_window, c.damp_factor as int),
        adjustment_window,
        c.clamp_factor as int,
    );
    let raw = diff_sum * c.target_block_time / adj_ts;
    if raw > c.max_difficulty {
        c.max_difficulty as int
    } else if raw < c.min_difficulty {
        c.min_difficulty as int
    } else {
        raw
    }
}

/// The window after a sample is appended: grow until full, then shift.
pub open spec fn push_sample(
    w: Seq<DifficultyAndTimestamp>,
    s: DifficultyAndTimestamp,
) -> Seq<DifficultyAndTimestamp> {
    if w.len() < 60 {
        w.push(s)
    } else {
        w.drop_first().push(s)
    }
}

/// Append a sample to the window, evicting the oldest when full.
pub fn append_sample(window: &mut Vec<DifficultyAndTimestamp>, s: DifficultyAndTimestamp)
    requires
        old(window)@.len() <= 60,
    ensures
        final(window)@ == push_sample(old(window)@, s),
        final(window)@.len() <= 60,
{
    if window.len() >= 60 {
        window.remove(0);
        proof {
            assert(window@ =~= old(window)@.drop_first());
        }
    }
    window.push(s);
}

/// The damped interval, pulled toward the goal. Relied on by the retargeting
/// step; the caller rules arithmetic overflow out.
pub fn damp(actual: u128, goal: u128, damp_factor: u128) -> (r: u128)
    requires
        damp_factor >= 1,
        actual + (damp_factor - 1) * goal <= u128::MAX,
    ensures
        r == spec_damp(actual as int, goal as int, damp_factor as int),
{
    (actual + (damp_factor - 1) * goal) / damp_factor
}

/// The clamped interval, bounded to a factor of clamp_factor around the goal.
pub fn clamp(actual: u128, goal: u128, clamp_factor: u128) -> (r: u128)
    requires
        clamp_factor >= 1,
        goal * clamp_factor <= u128::MAX,
    ensures
        r == spec_clamp(actual as int, goal as int, clamp_factor as int),
{
    let upper = goal * clamp_factor;
    let lower = goal / clamp_factor;
    let capped = if actual < upper {
        actual
    } else {
        upper
    };
    if lower > capped {
        lower
    } else {
        capped
    }
}

/// Recompute the network difficulty from the sample window.
pub fn update_difficulty(window: &Vec<DifficultyAndTimestamp>, config: &Config) -> (r: u128)
    requires
        config_wf(*config),
        window_wf(window@, *config),
    ensures
        r == spec_retarget(window@, *config),
        config.min_difficulty <= r <= config.max_difficulty,
{
    let n = window.len();

    // Observed window time, saturating on clock regression.
    let mut ts_delta: u128 = 0;
    if n > 1 {
        let mut i: usize = 1;
        while i < n
            invariant
                1 <= i <= n == window@.len(),
                ts_delta == spec_ts_delta(window@.take(i as int)),
                ts_delta <= (i - 1) * (u64::MAX as int),
            decreases n - i,
        {
            let prev = window[i - 1].timestamp;
            let cur = window[i].timestamp;
            let step: u64 = if cur >= prev {
                cur - prev
            } else {
                0
            };
            proof {
                assert(window@.take(i + 1).drop_last() =~= window@.take(i as int));
            }
            ts_delta = ts_delta + step as u128;
            i = i + 1;
        }
        proof {
            assert(window@.take(n as int) =~= window@);
        }
    }

    // Prevent division by zero.
    if ts_delta == 0 {
        ts_delta = 1;
    }

    // Difficulty sum of the window, in 256-bit arithmetic.
    let mut sum = wide_zero();
    let mut j: usize = 0;
    while j < n
        invariant
            0 <= j <= n == window@.len(),
            sum.val() == spec_diff_sum(window@.take(j as int)),
            sum.val() <= j * (config.max_difficulty as int),
        decreases n - j,
    {
        proof {
            assert(window@.take(j + 1).drop_last() =~= window@.take(j as int));
            assert((j + 1) * (config.max_difficulty as int) == j * (config.max_difficulty as int)
                + config.max_difficulty) by (nonlinear_arith);
            assert((j + 1) * (config.max_difficulty as int) <= 60 * (config.max_difficulty as int))
                by (nonlinear_arith)
                requires
                    j < 60,
                    config.max_difficulty >= 0,
            ;
            assert(60 * (config.max_difficulty as int) <= 60 * config.max_difficulty
                * config.target_block_time) by (nonlinear_arith)
                requires
                    config.target_block_time >= 1,
                    config.max_difficulty >= 0,
            ;
            assert(sum.val() + window@[j as int].difficulty < pow2_256());
        }
        sum = wide_add_u128(&sum, window[j].difficulty);
        j = j + 1;
    }
    proof {
        assert(window@.take(n as int) =~= window@);
    }

    // Enforce the difficulty floor on the sum.
    if wide_lt_u128(&sum, config.min_difficulty) {
        sum = wide_from_u128(config.min_difficulty);
    }
    proof {
        assert(n * (config.max_difficulty as int) <= 60 * (config.max_difficulty as int))
            by (nonlinear_arith)
            requires
                n <= 60,
                config.max_difficulty >= 0,
        ;
        assert(sum.val() <= 60 * (config.max_difficulty as int));
    }

    // The target duration of a full adjustment window.
    proof {
        assert(2 * (60 * config.target_block_time) <= (60 * config.target_block_time)
            * config.clamp_factor) by (nonlinear_arith)
            requires
                config.clamp_factor >= 2,
                config.target_block_time >= 1,
        ;
        assert(60 * config.target_block_time * config.clamp_factor == (60
            * config.target_block_time) * config.clamp_factor) by (nonlinear_arith);
    }
    let adjustment_window: u128 = (crate::DIFFICULTY_ADJUST_WINDOW as u128)
        * config.target_block_time;

    // Adjust the observed time toward the goal, dampened then clamped.
    let adj_ts = clamp(
        damp(ts_delta, adjustment_window, config.damp_factor),
        adjustment_window,
        config.clamp_factor,
    );
    proof {
        lemma_adj_ts_positive(ts_delta as int, adjustment_window as int, *config);
    }

    // Projected difficulty: summed difficulty scaled by target over observed.
    proof {
        assert(sum.val() * config.target_block_time <= (60 * (config.max_difficulty as int))
            * config.target_block_time) by (nonlinear_arith)
            requires
                sum.val() <= 60 * (config.max_difficulty as int),
                config.target_block_time >= 0,
        ;
        assert(60 * (config.max_difficulty as int) * config.target_block_time < pow2_256());
    }
    let scaled = wide_mul_u128(&sum, config.target_block_time);
    let quotient = wide_div_u128(&scaled, adj_ts);

    // Bound the result to the configured difficulty range.
    if wide_gt_u128(&quotient, config.max_difficulty) {
        config.max_difficulty
    } else {
        let q = wide_to_u128(&quotient);
        if q < config.min_difficulty {
            config.min_difficulty
        } else {
            q
        }
    }
}

/// The clamped interval is positive, so dividing by it is safe.
pub proof fn lemma_adj_ts_positive(ts: int, aw: int, c: Config)
    requires
        config_wf(c),
        ts >= 1,
        aw == 60 * c.target_block_time,
    ensures
        spec_clamp(spec_damp(ts, aw, c.damp_factor as int), aw, c.clamp_factor as int) >= 1,
{
    let d = c.damp_factor as int;
    let cf = c.clamp_factor as int;
    assert(aw >= 60);
    assert((d - 1) * aw >= d - 1) by (nonlinear_arith)
        requires
            d >= 2,
            aw >= 1,
    ;
    let num = ts + (d - 1) * aw;
    assert(num >= d);
    assert(num / d >= 1) by {
        vstd::arithmetic::div_mod::lemma_div_is_ordered(d, num, d);
        vstd::arithmetic::div_mod::lemma_div_by_multiple(1, d);
    };
    assert(aw * cf >= aw) by (nonlinear_arith)
        requires
            cf >= 1,
            aw >= 0,
    ;
}

impl GenesisConfig {
    /// Set the starting difficulty. The host must seed a value inside the
    /// configured difficulty range.
    pub fn build(&self, current: &mut u128, config: &Config)
        requires
            config.min_difficulty <= self.initial_difficulty <= config.max_difficulty,
        ensures
            *final(current) == self.initial_difficulty,
    {
        *current = self.initial_difficulty;
    }
}

/// The block-finalization hook of the difficulty controller: record the
/// difficulty the block was produced under with the clock reading `now`, then
/// retarget from the updated window.
pub fn on_finalize(
    window: &mut Vec<DifficultyAndTimestamp>,
    current: &mut u128,
    config: &Config,
    now: u64,
) -> (ev: Event)
    requires
        config_wf(*config),
        window_wf(old(window)@, *config),
        config.min_difficulty <= *old(current) <= config.max_difficulty,
    ensures
        final(window)@ == push_sample(
            old(window)@,
            (DifficultyAndTimestamp { difficulty: *old(current), timestamp: now }),
        ),
        window_wf(final(window)@, *config),
        *final(current) == spec_retarget(final(window)@, *config),
        config.min_difficulty <= *final(current) <= config.max_difficulty,
        ev == (Event::DifficultyUpdated { difficulty: *final(current) }),
{
    let sample = DifficultyAndTimestamp { difficulty: *current, timestamp: now };
    append_sample(window, sample);
    proof {
        assert(window_wf(window@, *config));
    }
    let d = update_difficulty(window, config);
    *current = d;
    Event::DifficultyUpdated { difficulty: d }
}

} // verus!
