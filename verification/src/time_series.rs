//! Time series: values sampled every so many steps of a simulation, with the
//! steps at which they were sampled.

use crate::error::{BuilderError, SamplingError};
use crate::traits::{Sample, SampleAggregate};
use vstd::prelude::*;

verus! {

/// Counts the steps of a simulation run, from zero.
#[derive(Debug, Default)]
pub struct StepCounter(usize);

impl View for StepCounter {
    type V = usize;

    closed spec fn view(&self) -> usize {
        self.0
    }
}

impl StepCounter {
    /// A counter at the start of a run.
    pub fn new() -> (counter: Self)
        ensures
            counter@ == 0,
    {
        StepCounter(0)
    }

    /// The number of steps counted.
    pub fn get(&self) -> (step: usize)
        ensures
            step == self@,
    {
        self.0
    }

    /// Counts one more step.
    pub fn increment(&mut self)
        requires
            old(self)@ < usize::MAX,
        ensures
            final(self)@ == old(self)@ + 1,
    {
        self.0 = self.0 + 1;
    }

    /// Goes back to the start of a run.
    pub fn reset(&mut self)
        ensures
            final(self)@ == 0,
    {
        self.0 = 0;
    }
}

/// The values of one time series as they are recorded, with the step at which
/// each was sampled.
pub struct TimeSeriesData<O> {
    values: Vec<O>,
    time: Vec<usize>,
    sample_interval: usize,
}

impl<O> TimeSeriesData<O> {
    /// The recorded values, oldest first.
    pub closed spec fn values(&self) -> Seq<O> {
        self.values@
    }

    /// The step at which each value was sampled.
    pub closed spec fn times(&self) -> Seq<usize> {
        self.time@
    }

    /// The number of steps from one sample to the next.
    pub closed spec fn interval(&self) -> usize {
        self.sample_interval
    }

    /// The series has a positive interval, one step for each value, and its steps
    /// are multiples of the interval in ascending order.
    pub open spec fn wf(&self) -> bool {
        &&& self.interval() > 0
        &&& self.values().len() == self.times().len()
        &&& forall|i: int|
            0 <= i < self.times().len() ==> (#[trigger] self.times()[i]) % self.interval() == 0
        &&& forall|i: int, j: int|
            0 <= i < j < self.times().len() ==> (#[trigger] self.times()[i]) < (
            #[trigger] self.times()[j])
    }

    /// Whether a sample is due at `step`: the step is a multiple of the interval and
    /// comes after the last step that was recorded.
    pub open spec fn due(&self, step: usize) -> bool {
        &&& step % self.interval() == 0
        &&& (self.times().len() == 0 || self.times().last() < step)
    }

    /// The series has no gaps: entry `k` was sampled at step `k * interval`.
    pub open spec fn dense(&self) -> bool {
        forall|k: int|
            0 <= k < self.times().len() ==> (#[trigger] self.times()[k]) == k * self.interval()
    }

    /// The cadence of a series without gaps. Where every multiple of the interval
    /// below `step` has been sampled and no later step, a sample is due at `step`
    /// exactly when `step` is a multiple of the interval, which is then the next one:
    /// no step is sampled twice and none is skipped.
    pub proof fn lemma_cadence(&self, step: usize)
        requires
            self.wf(),
            self.dense(),
            (self.times().len() - 1) * self.interval() < step <= self.times().len()
                * self.interval(),
        ensures
            self.due(step) <==> step % self.interval() == 0,
            self.due(step) <==> step == self.times().len() * self.interval(),
    {
        let n = self.times().len() as int;
        let m = self.interval() as int;
        if n > 0 {
            assert(self.times().last() == (n - 1) * m);
        }
        vstd::arithmetic::div_mod::lemma_mod_multiples_basic(n, m);
        assert(m * n == n * m) by (nonlinear_arith);
        if step == n * m {
            assert(step as int % m == 0);
        }
        if step % self.interval() == 0 {
            let q = step as int / m;
            vstd::arithmetic::div_mod::lemma_fundamental_div_mod(step as int, m);
            assert(step == m * q);
            assert(q == n) by (nonlinear_arith)
                requires
                    m > 0,
                    (n - 1) * m < m * q <= n * m,
            ;
            assert(step == n * m);
        }
    }

    /// An empty series that is sampled every `sample_interval` steps.
    pub fn new(sample_interval: usize) -> (series: Self)
        requires
            sample_interval > 0,
        ensures
            series.wf(),
            series.interval() == sample_interval,
            series.values() == Seq::<O>::empty(),
            series.times() == Seq::<usize>::empty(),
    {
        TimeSeriesData { values: Vec::new(), time: Vec::new(), sample_interval }
    }

    /// The number of steps from one sample to the next.
    pub fn sample_interval(&self) -> (n: usize)
        ensures
            n == self.interval(),
    {
        self.sample_interval
    }

    /// Whether a sample is due at `step`: the step is a multiple of the interval
    /// and comes after the last step that was recorded.
    pub fn is_due(&self, step: usize) -> (b: bool)
        requires
            self.wf(),
        ensures
            b == self.due(step),
    {
        if step % self.sample_interval != 0 {
            return false;
        }
        let n = self.time.len();
        n == 0 || self.time[n - 1] < step
    }

    /// Appends `value` as the sample of `step`.
    pub fn record(&mut self, step: usize, value: O)
        requires
            old(self).wf(),
            old(self).due(step),
        ensures
            final(self).wf(),
            final(self).interval() == old(self).interval(),
            final(self).values() == old(self).values().push(value),
            final(self).times() == old(self).times().push(step),
            old(self).dense() && step == old(self).times().len() * old(self).interval() ==> final(self).dense(),
    {
        self.values.push(value);
        self.time.push(step);
    }

    /// Samples a population at `step`: if a sample is due and there is anyone to
    /// sample, what `components` project to is appended as the sample of `step`;
    /// else nothing changes. Returns whether a sample was taken.
    pub fn sample_population<C: SampleAggregate<O>>(
        &mut self,
        step: usize,
        components: &[&C],
    ) -> (taken: bool)
        requires
            old(self).wf(),
            components@.len() > 0 ==> C::defined_on(components@.len()),
        ensures
            final(self).wf(),
            final(self).interval() == old(self).interval(),
            taken == (old(self).due(step) && components@.len() > 0),
            taken ==> final(self).times() == old(self).times().push(step),
            taken ==> final(self).values().len() == old(self).values().len() + 1,
            taken ==> final(self).values().drop_last() == old(self).values(),
            taken ==> call_ensures(C::sample_aggregate, (components,), final(self).values().last()),
            !taken ==> final(self).times() == old(self).times(),
            !taken ==> final(self).values() == old(self).values(),
    {
        if self.is_due(step) && components.len() > 0 {
            let value = C::sample_aggregate(components);
            self.record(step, value);
            assert(self.values().drop_last() =~= old(self).values());
            true
        } else {
            false
        }
    }

    /// Samples one entity at `step`: if a sample is due, what `component` projects
    /// to is appended as the sample of `step`; else nothing changes. Returns whether
    /// a sample was taken.
    pub fn sample_entity<C: Sample<O>>(&mut self, step: usize, component: &C) -> (taken: bool)
        requires
            old(self).wf(),
        ensures
            final(self).wf(),
            final(self).interval() == old(self).interval(),
            taken == old(self).due(step),
            taken ==> final(self).times() == old(self).times().push(step),
            taken ==> final(self).values().len() == old(self).values().len() + 1,
            taken ==> final(self).values().drop_last() == old(self).values(),
            taken ==> call_ensures(C::sample, (component,), final(self).values().last()),
            !taken ==> final(self).times() == old(self).times(),
            !taken ==> final(self).values() == old(self).values(),
    {
        if self.is_due(step) {
            let value = C::sample(component);
            self.record(step, value);
            assert(self.values().drop_last() =~= old(self).values());
            true
        } else {
            false
        }
    }

    /// Forgets every recorded value, as at the start of a run. The interval stays.
    pub fn clear(&mut self)
        requires
            old(self).wf(),
        ensures
            final(self).wf(),
            final(self).interval() == old(self).interval(),
            final(self).values() == Seq::<O>::empty(),
            final(self).times() == Seq::<usize>::empty(),
    {
        self.values.clear();
        self.time.clear();
    }

    /// The series as it stands, for reading.
    pub fn collect(&self) -> (series: TimeSeries<'_, O>)
        requires
            self.wf(),
        ensures
            series.wf(),
            series.entries() == self.values(),
            series.steps() == self.times(),
            series.interval() == self.interval(),
    {
        let mut values: Vec<&O> = Vec::new();
        let mut time: Vec<usize> = Vec::new();
        let mut i: usize = 0;
        while i < self.values.len()
            invariant
                self.wf(),
                i <= self.values@.len(),
                values@.len() == i,
                forall|j: int| 0 <= j < i ==> *(#[trigger] values@[j]) == self.values@[j],
                time@ =~= self.time@.take(i as int),
            decreases self.values@.len() - i,
        {
            values.push(&self.values[i]);
            time.push(self.time[i]);
            i += 1;
        }
        assert(self.time@.take(i as int) =~= self.time@);
        let series = TimeSeries { values, time, sample_interval: self.sample_interval };
        assert(series.entries() =~= self.values());
        series
    }
}

/// A recorded time series, for reading.
pub struct TimeSeries<'a, T> {
    values: Vec<&'a T>,
    time: Vec<usize>,
    sample_interval: usize,
}

impl<'a, T> TimeSeries<'a, T> {
    /// The values, oldest first.
    pub closed spec fn entries(&self) -> Seq<T> {
        Seq::new(self.values@.len(), |i: int| *self.values@[i])
    }

    /// The step at which each value was sampled.
    pub closed spec fn steps(&self) -> Seq<usize> {
        self.time@
    }

    /// The number of steps from one sample to the next.
    pub closed spec fn interval(&self) -> usize {
        self.sample_interval
    }

    /// There is one step for each value.
    pub open spec fn wf(&self) -> bool {
        self.entries().len() == self.steps().len()
    }

    /// The number of samples in the series.
    pub fn len(&self) -> (n: usize)
        ensures
            n == self.entries().len(),
    {
        self.values.len()
    }

    /// Whether the series has no samples.
    pub fn is_empty(&self) -> (b: bool)
        ensures
            b == (self.entries().len() == 0),
    {
        self.values.len() == 0
    }

    /// The step of the last sample, or zero for a series without samples.
    pub fn duration(&self) -> (d: usize)
        requires
            self.wf(),
        ensures
            d == (if self.steps().len() == 0 {
                0
            } else {
                self.steps().last()
            }),
    {
        if self.is_empty() {
            return 0;
        }
        self.time[self.time.len() - 1]
    }

    /// The number of steps from one sample to the next.
    pub fn sample_interval(&self) -> (n: usize)
        ensures
            n == self.interval(),
    {
        self.sample_interval
    }

    /// The step at which each value was sampled, oldest first.
    pub fn time(&self) -> (out: Vec<usize>)
        ensures
            out@ == self.steps(),
    {
        let mut out: Vec<usize> = Vec::new();
        let mut i: usize = 0;
        while i < self.time.len()
            invariant
                i <= self.time@.len(),
                out@ =~= self.time@.take(i as int),
            decreases self.time@.len() - i,
        {
            out.push(self.time[i]);
            i += 1;
        }
        assert(self.time@.take(i as int) =~= self.time@);
        out
    }

    /// The values, oldest first.
    pub fn values(&self) -> (out: Vec<&T>)
        ensures
            out@.len() == self.entries().len(),
            forall|i: int| 0 <= i < out@.len() ==> *(#[trigger] out@[i]) == self.entries()[i],
    {
        let mut out: Vec<&T> = Vec::new();
        let mut i: usize = 0;
        while i < self.values.len()
            invariant
                i <= self.values@.len(),
                out@.len() == i,
                forall|j: int| 0 <= j < i ==> *(#[trigger] out@[j]) == *self.values@[j],
            decreases self.values@.len() - i,
        {
            out.push(self.values[i]);
            i += 1;
        }
        out
    }

    /// Each value with the step at which it was sampled, oldest first.
    pub fn enumerate(&self) -> (out: Vec<(usize, &T)>)
        requires
            self.wf(),
        ensures
            out@.len() == self.entries().len(),
            forall|i: int|
                0 <= i < out@.len() ==> (#[trigger] out@[i]).0 == self.steps()[i] && *out@[i].1
                    == self.entries()[i],
    {
        let mut out: Vec<(usize, &T)> = Vec::new();
        let mut i: usize = 0;
        while i < self.values.len()
            invariant
                self.wf(),
                i <= self.values@.len(),
                out@.len() == i,
                forall|j: int|
                    0 <= j < i ==> (#[trigger] out@[j]).0 == self.time@[j] && *out@[j].1
                        == *self.values@[j],
            decreases self.values@.len() - i,
        {
            out.push((self.time[i], self.values[i]));
            i += 1;
        }
        out
    }
}

impl<'a, T: Copy> TimeSeries<'a, T> {
    /// The values themselves, oldest first.
    pub fn values_copied(&self) -> (out: Vec<T>)
        ensures
            out@ == self.entries(),
    {
        let mut out: Vec<T> = Vec::new();
        let mut i: usize = 0;
        while i < self.values.len()
            invariant
                i <= self.values@.len(),
                out@.len() == i,
                forall|j: int| 0 <= j < i ==> (#[trigger] out@[j]) == *self.values@[j],
            decreases self.values@.len() - i,
        {
            out.push(*self.values[i]);
            i += 1;
        }
        assert(out@ =~= self.entries());
        out
    }

    /// Each value itself with the step at which it was sampled, oldest first.
    pub fn enumerate_copied(&self) -> (out: Vec<(usize, T)>)
        requires
            self.wf(),
        ensures
            out@.len() == self.entries().len(),
            forall|i: int|
                0 <= i < out@.len() ==> #[trigger] out@[i] == (self.steps()[i], self.entries()[i]),
    {
        let mut out: Vec<(usize, T)> = Vec::new();
        let mut i: usize = 0;
        while i < self.values.len()
            invariant
                self.wf(),
                i <= self.values@.len(),
                out@.len() == i,
                forall|j: int| 0 <= j < i ==> #[trigger] out@[j] == (self.time@[j], *self.values@[j]),
            decreases self.values@.len() - i,
        {
            out.push((self.time[i], *self.values[i]));
            i += 1;
        }
        out
    }
}

/// What a time series tracks: a component, what selects the entities (a filter or
/// an identifier), and the type of the values. Each is an id that the caller
/// assigns to the type in question.
#[derive(Debug, Clone, Copy, PartialEq, Eq, Structural)]
pub struct SeriesKey {
    pub component: u64,
    pub selector: u64,
    pub output: u64,
}

/// The time series that are set up for recording, each with its sample interval.
pub struct TimeSeriesRegistry {
    entries: Vec<(SeriesKey, usize)>,
}

impl View for TimeSeriesRegistry {
    type V = Map<SeriesKey, usize>;

    closed spec fn view(&self) -> Map<SeriesKey, usize> {
        Map::new(
            |k: SeriesKey| exists|i: int| 0 <= i < self.entries@.len() && self.entries@[i].0 == k,
            |k: SeriesKey|
                self.entries@[choose|i: int| 0 <= i < self.entries@.len() && self.entries@[i].0 == k].1,
        )
    }
}

impl TimeSeriesRegistry {
    /// No series is registered twice, and every interval is positive.
    pub closed spec fn wf(&self) -> bool {
        &&& forall|i: int, j: int|
            0 <= i < j < self.entries@.len() ==> (#[trigger] self.entries@[i]).0 != (
            #[trigger] self.entries@[j]).0
        &&& forall|i: int| 0 <= i < self.entries@.len() ==> (#[trigger] self.entries@[i]).1 > 0
    }

    /// Every registered interval is positive.
    pub proof fn lemma_intervals_positive(&self)
        requires
            self.wf(),
        ensures
            forall|k: SeriesKey| #[trigger] self@.contains_key(k) ==> self@[k] > 0,
    {
    }

    /// A registry without series.
    pub fn new() -> (registry: Self)
        ensures
            registry.wf(),
            registry@ =~= Map::<SeriesKey, usize>::empty(),
    {
        TimeSeriesRegistry { entries: Vec::new() }
    }

    /// The place of `key` among the entries, if it is registered.
    fn find(&self, key: SeriesKey) -> (at: Option<usize>)
        requires
            self.wf(),
        ensures
            at is Some <==> self@.contains_key(key),
            at is Some ==> at.unwrap() < self.entries@.len() && self.entries@[at.unwrap() as int].0
                == key && self.entries@[at.unwrap() as int].1 == self@[key],
    {
        let mut i: usize = 0;
        while i < self.entries.len()
            invariant
                self.wf(),
                i <= self.entries@.len(),
                forall|j: int| 0 <= j < i ==> (#[trigger] self.entries@[j]).0 != key,
            decreases self.entries@.len() - i,
        {
            if self.entries[i].0 == key {
                proof {
                    let c = choose|c: int|
                        0 <= c < self.entries@.len() && self.entries@[c].0 == key;
                    assert(c == i);
                }
                return Some(i);
            }
            i += 1;
        }
        None
    }

    /// Sets the series `key` up for recording every `sample_interval` steps.
    ///
    /// An interval of zero is refused, and so is a series that is registered
    /// already; the registry then stays as it is.
    pub fn register(&mut self, key: SeriesKey, sample_interval: usize) -> (r: Result<
        (),
        BuilderError,
    >)
        requires
            old(self).wf(),
        ensures
            final(self).wf(),
            r == (if sample_interval == 0 {
                Err(BuilderError::InvalidSampleInterval)
            } else if old(self)@.contains_key(key) {
                Err(BuilderError::TimeSeriesRecordingConflict)
            } else {
                Ok(())
            }),
            r is Ok ==> final(self)@ =~= old(self)@.insert(key, sample_interval),
            r is Err ==> final(self)@ =~= old(self)@,
    {
        if sample_interval == 0 {
            return Err(BuilderError::InvalidSampleInterval);
        }
        if self.find(key).is_some() {
            return Err(BuilderError::TimeSeriesRecordingConflict);
        }
        self.entries.push((key, sample_interval));
        proof {
            let before = old(self).entries@;
            let after = self.entries@;
            assert(after[before.len() as int].0 == key);
            assert forall|k: SeriesKey| #[trigger]
                self@.contains_key(k) <==> old(self)@.insert(key, sample_interval).contains_key(
                    k,
                ) by {
                if old(self)@.contains_key(k) {
                    let i = choose|i: int| 0 <= i < before.len() && before[i].0 == k;
                    assert(after[i].0 == k);
                }
                if self@.contains_key(k) && k != key {
                    let i = choose|i: int| 0 <= i < after.len() && after[i].0 == k;
                    assert(before[i].0 == k);
                }
            }
            assert forall|k: SeriesKey| #[trigger] self@.contains_key(k) implies self@[k] == old(self)@.insert(key, sample_interval)[k] by {
                let i = choose|i: int| 0 <= i < after.len() && after[i].0 == k;
                if k != key {
                    let j = choose|j: int| 0 <= j < before.len() && before[j].0 == k;
                    assert(after[j].0 == k);
                    assert(i == j);
                } else {
                    assert(i == before.len());
                }
            }
        }
        Ok(())
    }

    /// The sample interval of the series `key`.
    pub fn sample_interval_of(&self, key: SeriesKey) -> (r: Result<usize, SamplingError>)
        requires
            self.wf(),
        ensures
            r == (if self@.contains_key(key) {
                Ok(self@[key])
            } else {
                Err(SamplingError::TimeSeriesNotRecorded)
            }),
    {
        match self.find(key) {
            Some(at) => Ok(self.entries[at].1),
            None => Err(SamplingError::TimeSeriesNotRecorded),
        }
    }
}

} // verus!
