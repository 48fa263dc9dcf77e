use core::cmp::Ordering;
use incerto::aggregate::{median_rank, percentile_rank, sorted};
use incerto::ordered::Ordered;
use incerto::prelude::{
    Maximum, Mean, Median, Minimum, Numeric, Percentile, StepCounter, TimeSeriesData,
};
use incerto::sampling::sample_aggregate;
use incerto::{BuilderError, Sample, SamplingError, SimulationError};

fn odd_numbers() -> Vec<u32> {
    (0..10).map(|i| 2 * i + 1).collect()
}

#[test]
fn test_percentile_formula() {
    let values = odd_numbers();
    assert_eq!(Percentile::<u32, 10>::of(&values).0, 3);
    assert_eq!(Percentile::<u32, 70>::of(&values).0, 15);
    assert_eq!(Median::of(&values).0, 11);
    assert_eq!(Percentile::<u32, 0>::of(&values).0, 1);
    assert_eq!(Percentile::<u32, 99>::of(&values).0, 19);
    assert_eq!(Percentile::<u32, 29>::of(&values).0, 5);
    assert_eq!(Percentile::<u32, 30>::of(&values).0, 7);
    assert_eq!(Percentile::<u32, 70>::rank(10), 7);
    assert_eq!(percentile_rank(70, 10), 7);
    assert_eq!(percentile_rank(10, 10), 1);
    assert_eq!(percentile_rank(99, usize::MAX), (99 * (usize::MAX as u128) / 100) as usize);
    assert_eq!(median_rank(10), 5);
    assert_eq!(median_rank(1), 0);
    assert_eq!(Percentile::<u32, 99>::rank(3), 2);
}

#[test]
fn test_median_of_an_even_number_is_the_upper_one() {
    assert_eq!(Median::of(&[4i64, 1, 3, 2]).0, 3);
    assert_eq!(Median::of(&[2i8, 1]).0, 2);
    assert_eq!(Median::of(&[7u8]).0, 7);
    assert_eq!(Median::of(&[5i32, -5, 0]).0, 0);
}

#[test]
fn test_mean_rounds_towards_zero() {
    assert_eq!(Mean::of(&[-7i32, 0]).0, -3);
    assert_eq!(Mean::of(&[7i32, 0]).0, 3);
    assert_eq!(Mean::of(&[-1i64, -2, -4]).0, -2);
    assert_eq!(Mean::of(&[1u8, 2]).0, 1);
    assert_eq!(Mean::of(&[-3i8, 4]).0, 0);
}

#[test]
fn test_mean_does_not_overflow() {
    assert_eq!(Mean::of(&[u64::MAX, u64::MAX, u64::MAX]).0, u64::MAX);
    assert_eq!(Mean::of(&[i64::MIN, i64::MIN]).0, i64::MIN);
    assert_eq!(Mean::of(&[i64::MIN, i64::MAX]).0, 0);
    assert_eq!(Mean::of(&[200u8, 200, 200]).0, 200);
    assert_eq!(Mean::of(&[i8::MIN, i8::MIN, i8::MAX]).0, -43);
    assert_eq!(Mean::of(&[usize::MAX, usize::MAX - 2]).0, usize::MAX - 1);
}

#[test]
fn test_extremes() {
    assert_eq!(Minimum::of(&[3i16, -9, 12, -9]).0, -9);
    assert_eq!(Maximum::of(&[3i16, -9, 12, -9]).0, 12);
    assert_eq!(Minimum::of(&[u64::MAX]).0, u64::MAX);
    assert_eq!(Maximum::of(&[isize::MIN, 0]).0, 0);
    assert_eq!(*Minimum::of(&[2u16, 1]), 1);
    assert_eq!(*Maximum::of(&[2u16, 1]), 2);
}

#[test]
fn test_no_value_over_nothing() {
    let nothing: [i32; 0] = [];
    assert_eq!(Minimum::try_of(&nothing), None);
    assert_eq!(Maximum::try_of(&nothing), None);
    assert_eq!(Mean::try_of(&nothing), None);
    assert_eq!(Median::try_of(&nothing), None);
    assert_eq!(Percentile::<i32, 50>::try_of(&nothing), None);
    assert_eq!(Percentile::<i32, 100>::try_of(&[1, 2, 3]), None);
    assert_eq!(Percentile::<i32, 200>::try_of(&[1, 2, 3]), None);

    assert_eq!(Minimum::try_of(&[4, 2]), Some(Minimum(2)));
    assert_eq!(Maximum::try_of(&[4, 2]), Some(Maximum(4)));
    assert_eq!(Mean::try_of(&[4, 2]), Some(Mean(3)));
    assert_eq!(Median::try_of(&[4, 2]), Some(Median(4)));
    assert_eq!(Percentile::<i32, 50>::try_of(&[4, 2]), Some(Percentile(4)));
    assert_eq!(Percentile::<i32, 49>::try_of(&[4, 2]), Some(Percentile(2)));
}

#[test]
fn test_aggregates_do_not_depend_on_the_order() {
    let base = vec![5i64, -3, 9, 9, 0, -3, 12, 7, 1];
    let mut permutations = vec![base.clone()];
    let mut reversed = base.clone();
    reversed.reverse();
    permutations.push(reversed);
    for shift in 1..base.len() {
        let mut rotated = base.clone();
        rotated.rotate_left(shift);
        permutations.push(rotated);
    }
    let mut in_order = base.clone();
    in_order.sort();
    permutations.push(in_order);

    for values in &permutations {
        assert_eq!(Minimum::of(values).0, -3);
        assert_eq!(Maximum::of(values).0, 12);
        assert_eq!(Mean::of(values).0, 4);
        assert_eq!(Median::of(values).0, 5);
        assert_eq!(Percentile::<i64, 25>::of(values).0, 0);
        assert_eq!(Percentile::<i64, 90>::of(values).0, 12);
    }
}

#[test]
fn test_sorted() {
    assert_eq!(sorted(&[3u8, 1, 2, 1, 0]), vec![0, 1, 1, 2, 3]);
    assert_eq!(sorted(&[i64::MAX, i64::MIN, 0]), vec![i64::MIN, 0, i64::MAX]);
    let nothing: [u16; 0] = [];
    assert_eq!(sorted(&nothing), Vec::<u16>::new());
}

#[test]
fn test_ordered() {
    assert!(Ordered(1u8).le(&Ordered(2)));
    assert!(Ordered(2u8).le(&Ordered(2)));
    assert!(!Ordered(3u8).le(&Ordered(2)));
    assert!(Ordered(-1i64).le(&Ordered(0)));
    assert_eq!(Ordered(-1i32).cmp(&Ordered(1)), Ordering::Less);
    assert_eq!(Ordered(u64::MAX).cmp(&Ordered(u64::MAX)), Ordering::Equal);
    assert_eq!(Ordered(0usize).cmp(&Ordered(usize::MAX)), Ordering::Less);
    assert_eq!(Ordered(5i8).cmp(&Ordered(-5)), Ordering::Greater);
}

#[test]
fn test_numeric_round_trip() {
    assert_eq!(200u8.magnitude(), 200);
    assert!(!200u8.is_negative());
    assert_eq!((-128i8).magnitude(), 128);
    assert!((-128i8).is_negative());
    assert!(!0i8.is_negative());
    assert_eq!(u128::MAX.magnitude(), u128::MAX);
    assert_eq!(i128::MIN.magnitude(), 1u128 << 127);
    assert_eq!(i128::MAX.magnitude(), i128::MAX as u128);
    assert_eq!(i64::MIN.magnitude(), 1u128 << 63);
    assert_eq!(<u8 as Numeric>::from_parts(false, 200), 200u8);
    assert_eq!(<i16 as Numeric>::from_parts(true, 300), -300i16);
    assert_eq!(<i16 as Numeric>::from_parts(true, 0), 0i16);
    assert_eq!(<i8 as Numeric>::from_parts(true, 128), i8::MIN);
    assert_eq!(<u128 as Numeric>::from_parts(false, u128::MAX), u128::MAX);
    assert_eq!(<i128 as Numeric>::from_parts(true, 1u128 << 127), i128::MIN);
    assert_eq!(<i128 as Numeric>::from_parts(false, i128::MAX as u128), i128::MAX);
    assert_eq!(<isize as Numeric>::from_parts(true, 1), -1isize);
}

#[test]
fn test_aggregates_of_128_bits() {
    let values = [u128::MAX, u128::MAX - 4, u128::MAX - 2, 7, u128::MAX];
    assert_eq!(Minimum::of(&values).0, 7);
    assert_eq!(Maximum::of(&values).0, u128::MAX);
    assert_eq!(Median::of(&values).0, u128::MAX - 2);
    assert_eq!(Percentile::<u128, 20>::of(&values).0, u128::MAX - 4);
    // (4 * MAX - 6 + 7) / 5, which no 128 bits could hold as a sum
    assert_eq!(Mean::of(&values).0, u128::MAX / 5 * 4);
    assert_eq!(Mean::of(&[u128::MAX, u128::MAX]).0, u128::MAX);
    assert_eq!(Mean::of(&[u128::MAX, 0]).0, u128::MAX / 2);
    assert_eq!(Mean::of(&[u128::MAX, 1]).0, (u128::MAX / 2) + 1);

    let values = [i128::MIN, i128::MAX, -1, i128::MIN, 5];
    assert_eq!(Minimum::of(&values).0, i128::MIN);
    assert_eq!(Maximum::of(&values).0, i128::MAX);
    assert_eq!(Median::of(&values).0, -1);
    assert_eq!(Mean::of(&[i128::MIN, i128::MIN, i128::MIN]).0, i128::MIN);
    assert_eq!(Mean::of(&[i128::MAX, i128::MAX, i128::MAX]).0, i128::MAX);
    assert_eq!(Mean::of(&[i128::MIN, i128::MAX]).0, 0);
    assert_eq!(Mean::of(&[i128::MIN, i128::MAX, i128::MAX]).0, i128::MAX / 3);
    assert_eq!(Mean::of(&[i128::MIN, i128::MIN, i128::MAX]).0, -(i128::MAX / 3) - 1);
    assert_eq!(Mean::of(&[i128::MIN, 1]).0, i128::MIN / 2 + 1);
    assert_eq!(Mean::of(&[i128::MIN, 3]).0, i128::MIN / 2 + 2);
}

#[test]
fn test_mean_against_wide_arithmetic() {
    // every pair and triple of a few small and large values of either sign
    let picks: [i64; 9] = [0, 1, -1, 2, -2, 7, -7, i64::MAX, i64::MIN];
    for a in picks {
        for b in picks {
            let expected = (a as i128 + b as i128) / 2;
            assert_eq!(Mean::of(&[a, b]).0 as i128, expected, "mean of {a} and {b}");
            for c in picks {
                let expected = (a as i128 + b as i128 + c as i128) / 3;
                assert_eq!(Mean::of(&[a, b, c]).0 as i128, expected, "mean of {a}, {b}, {c}");
            }
        }
    }
}

#[test]
fn test_cadence() {
    // a run of 100 steps, counted from zero, sampled every 10 steps
    let mut series: TimeSeriesData<usize> = TimeSeriesData::new(10);
    let mut steps = StepCounter::new();
    for _ in 0..100 {
        if series.is_due(steps.get()) {
            series.record(steps.get(), steps.get() * 2);
        }
        steps.increment();
    }
    assert_eq!(series.collect().len(), 10);
    assert_eq!(series.collect().time(), vec![0, 10, 20, 30, 40, 50, 60, 70, 80, 90]);
    assert_eq!(series.collect().values_copied()[3], 60);

    // ten more steps add one value
    for _ in 0..10 {
        if series.is_due(steps.get()) {
            series.record(steps.get(), steps.get() * 2);
        }
        steps.increment();
    }
    assert_eq!(series.collect().len(), 11);
    assert_eq!(series.collect().duration(), 100);
    assert_eq!(series.sample_interval(), 10);

    // a step that was sampled is not sampled again
    assert!(!series.is_due(100));
    assert!(!series.is_due(90));
    assert!(!series.is_due(105));
    assert!(series.is_due(110));

    // a new run starts from an empty series
    series.clear();
    steps.reset();
    assert_eq!(steps.get(), 0);
    assert!(series.collect().is_empty());
    assert_eq!(series.collect().duration(), 0);
    assert!(series.is_due(0));
    assert_eq!(series.sample_interval(), 10);
}

#[test]
fn test_errors_convert() {
    assert_eq!(
        SimulationError::from(SamplingError::AggregateNoEntities),
        SimulationError::Sampling(SamplingError::AggregateNoEntities)
    );
    assert_eq!(
        SimulationError::from(BuilderError::TimeSeriesRecordingConflict),
        SimulationError::Builder(BuilderError::TimeSeriesRecordingConflict)
    );
    let e: SimulationError = SamplingError::ComponentDoesNotExist.into();
    assert_ne!(e, SimulationError::Sampling(SamplingError::TimeSeriesNotRecorded));
}

struct Reading(u16);

impl From<&Reading> for u16 {
    fn from(r: &Reading) -> u16 {
        r.0
    }
}

impl From<&Reading> for i64 {
    fn from(r: &Reading) -> i64 {
        -(r.0 as i64)
    }
}

#[test]
fn test_a_state_that_converts_is_a_projection() {
    let readings = [Reading(4), Reading(9), Reading(2)];
    assert_eq!(<Reading as Sample<u16>>::sample(&readings[1]), 9);
    assert_eq!(<Reading as Sample<i64>>::sample(&readings[1]), -9);
    let refs: Vec<&Reading> = readings.iter().collect();
    assert_eq!(sample_aggregate::<Reading, Maximum<u16>>(&refs), Ok(Maximum(9)));
    assert_eq!(sample_aggregate::<Reading, Maximum<i64>>(&refs), Ok(Maximum(-2)));
    assert_eq!(sample_aggregate::<Reading, Mean<u16>>(&refs), Ok(Mean(5)));
}
