use stats::{apply_multiplier, CharacterStats, Multiplier, Stat, FIXED_ONE};

#[test]
fn fresh_instance_rounds_base_values() {
    let stats = CharacterStats::new(vec![
        (Stat::Str, 10 * FIXED_ONE + 4_999),
        (Stat::Int, 10 * FIXED_ONE + 5_000),
        (Stat::Swi, -(10 * FIXED_ONE + 5_000)),
    ]);
    assert_eq!(stats.get_stat(Stat::Str), 10);
    assert_eq!(stats.get_stat(Stat::Int), 11);
    assert_eq!(stats.get_stat(Stat::Swi), -11);
}

#[test]
fn last_entry_of_a_stat_counts() {
    let stats = CharacterStats::new(vec![(Stat::Int, 3 * FIXED_ONE), (Stat::Int, 8 * FIXED_ONE)]);
    assert_eq!(stats.get_stat(Stat::Int), 8);
}

#[test]
fn single_multiplier_scales_base() {
    let mut stats = CharacterStats::new(vec![(Stat::Swi, 40 * FIXED_ONE)]);
    stats.add_multiplier(&Multiplier::new(Stat::Swi, FIXED_ONE / 4));
    assert_eq!(stats.get_stat(Stat::Swi), 50);
}

#[test]
fn multiplier_touches_only_its_stat() {
    let mut stats = CharacterStats::new(vec![(Stat::Str, 20 * FIXED_ONE), (Stat::Int, 20 * FIXED_ONE)]);
    stats.add_multiplier(&Multiplier::new(Stat::Int, FIXED_ONE / 2));
    assert_eq!(stats.get_stat(Stat::Int), 30);
    assert_eq!(stats.get_stat(Stat::Str), 20);
}

#[test]
fn repeated_multiplier_equals_one_of_n_times_the_value() {
    let mut repeated = CharacterStats::new(vec![(Stat::Str, 12 * FIXED_ONE)]);
    let mut once = CharacterStats::new(vec![(Stat::Str, 12 * FIXED_ONE)]);
    for _ in 0..5 {
        repeated.add_multiplier(&Multiplier::new(Stat::Str, 300));
    }
    once.add_multiplier(&Multiplier::new(Stat::Str, 5 * 300));
    assert_eq!(repeated.get_stat(Stat::Str), 14);
    assert_eq!(once.get_stat(Stat::Str), 14);
}

#[test]
fn multipliers_stack_additively() {
    let mut stats = CharacterStats::new(vec![(Stat::Str, 100 * FIXED_ONE)]);
    stats.add_multiplier(&Multiplier::new(Stat::Str, FIXED_ONE / 2));
    stats.add_multiplier(&Multiplier::new(Stat::Str, FIXED_ONE / 2));
    assert_eq!(stats.get_stat(Stat::Str), 200);
}

#[test]
fn balanced_interleaved_changes_restore_the_stat() {
    let mut stats = CharacterStats::new(vec![(Stat::Str, 7 * FIXED_ONE)]);
    let a = Multiplier::new(Stat::Str, 1_234);
    let b = Multiplier::new(Stat::Str, -2_500);
    stats.add_multiplier(&a);
    stats.sub_multiplier(&b);
    stats.add_multiplier(&a);
    assert_ne!(stats.get_stat(Stat::Str), 7);
    stats.sub_multiplier(&a);
    stats.add_multiplier(&b);
    stats.sub_multiplier(&a);
    assert_eq!(stats.get_stat(Stat::Str), 7);
}

#[test]
fn negative_multiplier_mirrors_positive() {
    let mut up = CharacterStats::new(vec![(Stat::Int, 12 * FIXED_ONE)]);
    let mut down = CharacterStats::new(vec![(Stat::Int, 12 * FIXED_ONE)]);
    up.add_multiplier(&Multiplier::new(Stat::Int, FIXED_ONE / 4));
    down.add_multiplier(&Multiplier::new(Stat::Int, -FIXED_ONE / 4));
    assert_eq!(up.get_stat(Stat::Int), 15);
    assert_eq!(down.get_stat(Stat::Int), 9);
}

#[test]
fn adding_negative_equals_removing_positive() {
    let mut added = CharacterStats::new(vec![(Stat::Swi, 30 * FIXED_ONE)]);
    let mut removed = CharacterStats::new(vec![(Stat::Swi, 30 * FIXED_ONE)]);
    added.add_multiplier(&Multiplier::new(Stat::Swi, -FIXED_ONE / 5));
    removed.sub_multiplier(&Multiplier::new(Stat::Swi, FIXED_ONE / 5));
    assert_eq!(added.get_stat(Stat::Swi), 24);
    assert_eq!(removed.get_stat(Stat::Swi), 24);
}

#[test]
fn unbalanced_removal_goes_below_base() {
    let mut stats = CharacterStats::new(vec![(Stat::Str, 10 * FIXED_ONE)]);
    stats.sub_multiplier(&Multiplier::new(Stat::Str, FIXED_ONE / 10));
    assert_eq!(stats.get_stat(Stat::Str), 9);
}

#[test]
fn multiplier_below_minus_one_gives_negative_stat() {
    let mut stats = CharacterStats::new(vec![(Stat::Str, 10 * FIXED_ONE)]);
    stats.add_multiplier(&Multiplier::new(Stat::Str, -(FIXED_ONE + FIXED_ONE / 2)));
    assert_eq!(stats.get_stat(Stat::Str), -5);
}

#[test]
fn full_debuff_gives_zero() {
    let mut stats = CharacterStats::new(vec![(Stat::Str, 10 * FIXED_ONE)]);
    stats.add_multiplier(&Multiplier::new(Stat::Str, -FIXED_ONE));
    assert_eq!(stats.get_stat(Stat::Str), 0);
}

#[test]
fn apply_multiplier_rounds_halves_away_from_zero() {
    assert_eq!(apply_multiplier(25_000, 0), 3);
    assert_eq!(apply_multiplier(-25_000, 0), -3);
    assert_eq!(apply_multiplier(24_999, 0), 2);
    assert_eq!(apply_multiplier(10 * FIXED_ONE, 500), 11);
    assert_eq!(apply_multiplier(10 * FIXED_ONE, -500), 10);
    assert_eq!(apply_multiplier(0, 123_456), 0);
}

#[test]
fn apply_multiplier_saturates() {
    assert_eq!(apply_multiplier(i64::MAX, i64::MAX), i32::MAX);
    assert_eq!(apply_multiplier(i64::MIN, i64::MAX), i32::MIN);
    assert_eq!(apply_multiplier(i64::MIN, i64::MIN), i32::MAX);
    assert_eq!(apply_multiplier(2_147_483_647 * FIXED_ONE, 0), i32::MAX);
    assert_eq!(apply_multiplier(-2_147_483_648 * FIXED_ONE, 0), i32::MIN);
    assert_eq!(apply_multiplier(-2_147_483_649 * FIXED_ONE, 0), i32::MIN);
}
