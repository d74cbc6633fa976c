//! Character statistics for a game: base values per stat, adjusted by
//! additive percentage multipliers and read back as rounded integers.
//!
//! Numbers are fixed-point: a stored `i64` counts ten-thousandths, so
//! [`FIXED_ONE`] stands for 1.0, a base value of 10 is `10 * FIXED_ONE`, and a
//! multiplier of +10% is `FIXED_ONE / 10`.

mod fixed;
mod laws;
mod stats;

pub use fixed::{apply_multiplier, clamp_i32, effective, round_div, FIXED_ONE};
pub use laws::{
    add_times, apply_changes, lemma_add_then_sub, lemma_add_then_sub_times, lemma_add_times,
    lemma_apply_changes, lemma_balanced_changes, lemma_fresh_value, lemma_mirrored_rounding,
    lemma_negative_multiplier, lemma_repeated_multiplier, lemma_round_symmetric,
    lemma_single_multiplier, lemma_sub_times, negated, net_change, sub_times, StatChange,
};
pub use stats::{base_map, fresh, CharacterStats, Multiplier, MultiplierView, Stat, StatsView};
