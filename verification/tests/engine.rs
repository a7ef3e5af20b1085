use prom_increase::{
    prom_increase_transition, transition_admits, Accumulator, Increase, IncreaseError, Sample,
    TransitionState, WindowSchedule,
};

/// 2000-01-02 15:00:00 UTC in microseconds since 2000-01-01.
const T0: i64 = 140_400_000_000;
const MINUTE: i64 = 60_000_000;

fn as_float(increase: &Increase) -> f64 {
    increase.total() as f64 * (increase.range() as f64 / increase.observed() as f64)
}

/// Feeds one reading every five minutes from `T0` on, row by row, as the
/// aggregate does, over the bounds `T0 ..= T0 + width` with step and range
/// both `width`.
fn aggregate(values: &[u64], width: i64) -> Vec<Option<Increase>> {
    let mut state: Option<TransitionState> = None;
    let mut t = T0;
    for &value in values {
        let next = prom_increase_transition(state, T0, T0 + width, width, width, t, value);
        state = Some(next.unwrap());
        t += 5 * MINUTE;
    }
    state.unwrap().finalize()
}

fn engine(
    lowest: i64,
    greatest: i64,
    step: i64,
    range: i64,
    samples: &[(i64, u64)],
) -> TransitionState {
    let mut state = TransitionState::new(lowest, greatest, step, range).unwrap();
    for &(timestamp, value) in samples {
        assert_eq!(state.add_data_point(timestamp, value), Ok(()));
    }
    state
}

fn fed(samples: &[(i64, u64)]) -> Accumulator {
    let mut accumulator = Accumulator::new();
    for &(timestamp, value) in samples {
        accumulator.add_data_point(Sample::new(timestamp, value));
    }
    accumulator
}

#[test]
fn test_prom_increase_basic_50m() {
    let results = aggregate(&[0, 10, 20, 30, 40, 50, 60, 70, 80, 90, 100], 50 * MINUTE);
    // the window that ends at T0 holds the first sample alone; the window
    // T0 ..= T0 + 50 min holds all of them
    assert_eq!(results, vec![None, Some(Increase::new(100, 3_000_000_000, 3_000_000_000))]);
    let increase = results[1].unwrap();
    assert_eq!(increase.whole_part(), Some(100));
    assert_eq!(increase.remainder(), 0);
    assert_eq!(as_float(&increase), 100_f64);
    let with_data: Vec<f64> = results.iter().flatten().map(as_float).collect();
    assert_eq!(with_data, vec![100_f64]);
}

#[test]
fn test_prom_increase_basic_reset_zero() {
    let results = aggregate(&[0, 10, 20, 30, 40, 50, 0, 10, 20, 30, 40], 50 * MINUTE);
    assert_eq!(results, vec![None, Some(Increase::new(90, 3_000_000_000, 3_000_000_000))]);
    let increase = results[1].unwrap();
    assert_eq!(increase.whole_part(), Some(90));
    assert_eq!(increase.remainder(), 0);
    let with_data: Vec<f64> = results.iter().flatten().map(as_float).collect();
    assert_eq!(with_data, vec![90_f64]);
}

#[test]
fn test_prom_increase_counter_reset_nonzero() {
    let results = aggregate(&[0, 1, 2, 3, 2, 3, 4], 30 * MINUTE);
    assert_eq!(results, vec![None, Some(Increase::new(7, 1_800_000_000, 1_800_000_000))]);
    let increase = results[1].unwrap();
    assert_eq!(increase.whole_part(), Some(7));
    assert_eq!(increase.remainder(), 0);
    let with_data: Vec<f64> = results.iter().flatten().map(as_float).collect();
    assert_eq!(with_data, vec![7_f64]);
}

#[test]
fn rising_samples_from_start_to_end_give_last_less_first() {
    // the window 100 ..= 160 of the evaluation point 160
    let state = engine(160, 160, 10, 60, &[(160, 1000)]);
    assert_eq!(state.finalize(), vec![None]);
    let samples = [(100, 17), (101, 17), (130, 40), (160, 90)];
    let results = engine(100, 160, 60, 60, &samples).finalize();
    assert_eq!(results, vec![None, Some(Increase::new(90 - 17, 60, 60))]);
    assert_eq!(results[1].unwrap().whole_part(), Some(73));
    assert_eq!(results[1].unwrap().remainder(), 0);
}

#[test]
fn one_reset_to_zero_gives_growth_before_plus_growth_after() {
    let samples = [(0, 5), (20, 9), (40, 0), (70, 3), (100, 11)];
    let results = engine(0, 100, 100, 100, &samples).finalize();
    // (9 - 5) + (11 - 0)
    assert_eq!(results, vec![None, Some(Increase::new(15, 100, 100))]);
}

#[test]
fn one_reset_above_zero_also_counts_the_value_after_it() {
    let samples = [(0, 5), (20, 9), (40, 2), (70, 3), (100, 11)];
    let results = engine(0, 100, 100, 100, &samples).finalize();
    // (9 - 5) + 2 + (11 - 2)
    assert_eq!(results, vec![None, Some(Increase::new(15, 100, 100))]);
}

#[test]
fn window_without_samples_yields_none() {
    // windows [-5, 0], [5, 10], [15, 20]: nothing falls into the second
    let results = engine(0, 20, 10, 5, &[(0, 1), (0, 2), (2, 3), (16, 7), (19, 9)]).finalize();
    assert_eq!(results.len(), 3);
    assert_eq!(results[1], None);
    assert_eq!(results[2], Some(Increase::new(2, 5, 3)));
}

#[test]
fn window_with_one_sample_yields_none() {
    let results = engine(0, 20, 10, 5, &[(7, 100)]).finalize();
    assert_eq!(results, vec![None, None, None]);
}

#[test]
fn window_with_samples_at_one_instant_yields_none() {
    let state = engine(0, 20, 10, 5, &[(7, 100), (7, 120)]);
    assert_eq!(state.accumulator(1).extrapolate(5), Err(IncreaseError::DegenerateWindow));
    assert_eq!(state.finalize(), vec![None, None, None]);
}

#[test]
fn fresh_engine_yields_none_for_every_window() {
    let state = TransitionState::new(0, 3000, 1000, 500).unwrap();
    assert_eq!(state.window_count(), 4);
    assert_eq!(state.ingested(), 0);
    assert_eq!(state.latest_time(), None);
    assert_eq!(state.accumulator(3), Accumulator::new());
    assert_eq!(state.finalize(), vec![None, None, None, None]);
}

#[test]
fn engine_refuses_invalid_parameters() {
    assert_eq!(TransitionState::new(0, 100, 0, 10).err(), Some(IncreaseError::InvalidParameters));
    assert_eq!(TransitionState::new(0, 100, 10, 0).err(), Some(IncreaseError::InvalidParameters));
    assert_eq!(TransitionState::new(100, 0, 10, 10).err(), Some(IncreaseError::InvalidParameters));
}

#[test]
fn engine_keeps_its_schedule() {
    let schedule = WindowSchedule::new(0, 40, 10, 25).unwrap();
    let state = TransitionState::with_schedule(schedule);
    assert_eq!(state.schedule(), schedule);
    assert_eq!(state.window_count(), 5);
}

#[test]
fn sample_outside_the_bounds_is_refused_and_changes_nothing() {
    let mut state = engine(0, 40, 10, 25, &[(0, 1), (5, 2)]);
    assert_eq!(state.add_data_point(-1, 9), Err(IncreaseError::OutOfRangeSample));
    assert_eq!(state.add_data_point(41, 9), Err(IncreaseError::OutOfRangeSample));
    assert_eq!(state, engine(0, 40, 10, 25, &[(0, 1), (5, 2)]));
    assert_eq!(state.ingested(), 2);
    assert_eq!(state.latest_time(), Some(5));
}

#[test]
fn sample_at_either_bound_is_taken() {
    let mut state = TransitionState::new(0, 40, 10, 25).unwrap();
    assert_eq!(state.add_data_point(0, 9), Ok(()));
    assert_eq!(state.add_data_point(40, 9), Ok(()));
    assert_eq!(state.ingested(), 2);
    assert_eq!(state.latest_time(), Some(40));
}

#[test]
fn each_sample_goes_to_every_window_that_covers_it() {
    // windows [-25, 0], [-15, 10], [-5, 20], [5, 30], [15, 40]
    let samples = [(0, 100), (5, 110), (10, 120), (15, 3), (20, 10), (30, 20), (40, 25)];
    let state = engine(0, 40, 10, 25, &samples);
    assert_eq!(state.accumulator(0), fed(&[(0, 100)]));
    assert_eq!(state.accumulator(1), fed(&[(0, 100), (5, 110), (10, 120)]));
    assert_eq!(state.accumulator(2), fed(&[(0, 100), (5, 110), (10, 120), (15, 3), (20, 10)]));
    assert_eq!(state.accumulator(3), fed(&[(5, 110), (10, 120), (15, 3), (20, 10), (30, 20)]));
    assert_eq!(state.accumulator(4), fed(&[(15, 3), (20, 10), (30, 20), (40, 25)]));
    assert_eq!(state.ingested(), 7);
    assert_eq!(state.latest_time(), Some(40));
}

#[test]
fn overlapping_windows_detect_resets_on_their_own() {
    let samples = [(0, 100), (5, 110), (10, 120), (15, 3), (20, 10), (30, 20), (40, 25)];
    let results = engine(0, 40, 10, 25, &samples).finalize();
    assert_eq!(
        results,
        vec![
            None,
            Some(Increase::new(20, 25, 10)),
            // the fall from 120 to 3 is a reset here
            Some(Increase::new(10 + 10 + 3 + 7, 25, 20)),
            Some(Increase::new(10 + 3 + 7 + 10, 25, 25)),
            // and here 3 is just the first value
            Some(Increase::new(7 + 10 + 5, 25, 25)),
        ]
    );
    assert_eq!(results[1].unwrap().whole_part(), Some(50));
    assert_eq!(results[1].unwrap().remainder(), 0);
    assert_eq!(as_float(&results[1].unwrap()), 50.0);
    assert_eq!(results[2].unwrap().whole_part(), Some(37));
    assert_eq!(results[2].unwrap().remainder(), 10);
    assert_eq!(as_float(&results[2].unwrap()), 37.5);
}

#[test]
fn two_identical_feeds_give_identical_results() {
    let samples = [(0, 100), (5, 110), (10, 120), (15, 3), (20, 10), (30, 20), (40, 25)];
    let one = engine(0, 40, 10, 25, &samples);
    let two = engine(0, 40, 10, 25, &samples);
    assert_eq!(one, two);
    assert_eq!(one.finalize(), two.finalize());
}

#[test]
fn merging_two_partial_feeds_equals_one_feed() {
    // windows [-50, 0], [0, 50] and [50, 100]; the counter stands still
    // between the two scans
    let front = [(0, 3), (20, 8), (50, 9)];
    let back = [(60, 9), (80, 15), (100, 16)];
    let all = [(0, 3), (20, 8), (50, 9), (60, 9), (80, 15), (100, 16)];
    let merged = engine(0, 100, 50, 50, &front).merge(engine(0, 100, 50, 50, &back)).unwrap();
    let single = engine(0, 100, 50, 50, &all);
    assert_eq!(merged, single);
    assert_eq!(
        merged.finalize(),
        vec![None, Some(Increase::new(6, 50, 50)), Some(Increase::new(7, 50, 50))]
    );
}

#[test]
fn merging_in_either_order_gives_the_same_state() {
    let front = [(0, 3), (20, 8), (50, 9)];
    let back = [(60, 9), (80, 15), (100, 16)];
    let one = engine(0, 100, 50, 50, &front).merge(engine(0, 100, 50, 50, &back)).unwrap();
    let two = engine(0, 100, 50, 50, &back).merge(engine(0, 100, 50, 50, &front)).unwrap();
    assert_eq!(one, two);
    assert_eq!(one.ingested(), 6);
    assert_eq!(one.latest_time(), Some(100));
}

#[test]
fn merging_misses_the_growth_between_the_two_feeds() {
    let front = [(50, 3), (60, 8)];
    let back = [(80, 15), (100, 16)];
    let merged = engine(0, 100, 50, 50, &front).merge(engine(0, 100, 50, 50, &back)).unwrap();
    assert_eq!(merged.accumulator(2).corrected_total(), 5 + 1);
    let single = engine(0, 100, 50, 50, &[(50, 3), (60, 8), (80, 15), (100, 16)]);
    assert_eq!(single.accumulator(2).corrected_total(), 5 + 7 + 1);
}

#[test]
fn merging_with_a_fresh_engine_changes_nothing() {
    let samples = [(0, 100), (5, 110), (10, 120), (15, 3)];
    let fresh = TransitionState::new(0, 40, 10, 25).unwrap();
    assert_eq!(engine(0, 40, 10, 25, &samples).merge(fresh), Ok(engine(0, 40, 10, 25, &samples)));
    let fresh = TransitionState::new(0, 40, 10, 25).unwrap();
    assert_eq!(fresh.merge(engine(0, 40, 10, 25, &samples)), Ok(engine(0, 40, 10, 25, &samples)));
}

#[test]
fn merging_refuses_different_schedules() {
    let one = engine(0, 40, 10, 25, &[]);
    let other = engine(0, 40, 10, 26, &[]);
    assert_eq!(one.merge(other).err(), Some(IncreaseError::UnmergeablePartials));
    let one = engine(0, 40, 10, 25, &[]);
    let other = engine(0, 50, 10, 25, &[]);
    assert_eq!(one.merge(other).err(), Some(IncreaseError::UnmergeablePartials));
}

#[test]
fn merging_refuses_feeds_that_overlap_in_a_window() {
    let one = engine(0, 40, 10, 25, &[(0, 1), (20, 2)]);
    let two = engine(0, 40, 10, 25, &[(10, 1), (30, 2)]);
    assert_eq!(one.merge(two).err(), Some(IncreaseError::UnmergeablePartials));
    // one instant in both feeds
    let one = engine(0, 40, 10, 25, &[(0, 1), (20, 2)]);
    let two = engine(0, 40, 10, 25, &[(20, 2), (30, 2)]);
    assert_eq!(one.merge(two).err(), Some(IncreaseError::UnmergeablePartials));
}

#[test]
fn transition_creates_the_engine_on_the_first_row() {
    let state = prom_increase_transition(None, 0, 40, 10, 25, 5, 110).unwrap();
    assert_eq!(state, engine(0, 40, 10, 25, &[(5, 110)]));
    let state = prom_increase_transition(Some(state), 0, 40, 10, 25, 10, 120).unwrap();
    assert_eq!(state, engine(0, 40, 10, 25, &[(5, 110), (10, 120)]));
}

#[test]
fn transition_refuses_a_sample_outside_the_bounds() {
    assert_eq!(
        prom_increase_transition(None, 0, 40, 10, 25, -1, 110).err(),
        Some(IncreaseError::OutOfRangeSample)
    );
    assert_eq!(
        prom_increase_transition(None, 0, 40, 10, 25, 41, 110).err(),
        Some(IncreaseError::OutOfRangeSample)
    );
    let state = engine(0, 40, 10, 25, &[(5, 110)]);
    assert_eq!(
        prom_increase_transition(Some(state), 0, 40, 10, 25, 41, 110).err(),
        Some(IncreaseError::OutOfRangeSample)
    );
}

#[test]
fn transition_holds_the_sample_against_the_bounds_of_the_engine_too() {
    let state = engine(0, 40, 10, 25, &[(5, 110)]);
    assert_eq!(
        prom_increase_transition(Some(state), 0, 100, 10, 25, 50, 110).err(),
        Some(IncreaseError::OutOfRangeSample)
    );
}

#[test]
fn transition_refuses_invalid_parameters_on_the_first_row() {
    assert_eq!(
        prom_increase_transition(None, 0, 40, 0, 25, 5, 110).err(),
        Some(IncreaseError::InvalidParameters)
    );
    assert_eq!(
        prom_increase_transition(None, 0, 40, 10, -25, 5, 110).err(),
        Some(IncreaseError::InvalidParameters)
    );
    // bounds out of order leave no instant within them
    assert_eq!(
        prom_increase_transition(None, 40, 0, 10, 25, 5, 110).err(),
        Some(IncreaseError::OutOfRangeSample)
    );
}

#[test]
fn transition_ignores_the_parameters_once_the_engine_exists() {
    let state = engine(0, 40, 10, 25, &[(5, 110)]);
    let state = prom_increase_transition(Some(state), 0, 40, 0, 0, 10, 120).unwrap();
    assert_eq!(state, engine(0, 40, 10, 25, &[(5, 110), (10, 120)]));
}

#[test]
fn engine_admits_samples_in_time_order_only() {
    let state = engine(0, 40, 10, 25, &[(5, 110), (10, 120)]);
    assert!(state.admits(10));
    assert!(state.admits(40));
    assert!(!state.admits(9));
    assert!(!state.admits(0));
    // out of bounds: the call is allowed, and refuses the sample
    assert!(state.admits(-1));
    assert!(state.admits(41));
    assert!(TransitionState::new(0, 40, 10, 25).unwrap().admits(0));
}

#[test]
fn accumulator_admits_samples_in_time_order_only() {
    let accumulator = fed(&[(5, 110), (10, 120)]);
    assert!(accumulator.admits(Sample::new(10, 0)));
    assert!(accumulator.admits(Sample::new(11, 0)));
    assert!(!accumulator.admits(Sample::new(9, 500)));
    assert!(Accumulator::new().admits(Sample::new(i64::MIN, 0)));
}

#[test]
fn transition_admits_what_the_step_can_work_on() {
    assert!(transition_admits(&None, 0, 40, 10, 25, 5));
    // out of the bounds of the call: refused by the step itself
    assert!(transition_admits(&None, i64::MIN, 40, 10, 25, 41));
    // invalid parameters: refused by the step itself
    assert!(transition_admits(&None, i64::MIN, 40, 0, 25, 5));
    // the first window would start before the earliest instant
    assert!(!transition_admits(&None, i64::MIN, 40, 10, 25, 5));
    let state = Some(engine(0, 40, 10, 25, &[(5, 110), (10, 120)]));
    assert!(transition_admits(&state, 0, 40, 10, 25, 10));
    assert!(!transition_admits(&state, 0, 40, 10, 25, 9));
    assert!(transition_admits(&state, 0, 40, 10, 25, 41));
    assert!(transition_admits(&state, 20, 40, 10, 25, 9));
}
