use crate::accumulator::{Accumulator, AccumulatorModel};
use crate::error::IncreaseError;
use crate::increase::{Increase, IncreaseModel};
use crate::sample::Sample;
use crate::schedule::{ScheduleModel, WindowSchedule};
use vstd::prelude::*;

verus! {

/// The state of one engine with unbounded integers: the schedule, one
/// accumulator per window, the instant of the latest sample and the number
/// of samples taken.
pub struct TransitionModel {
    pub schedule: ScheduleModel,
    pub accumulators: Seq<AccumulatorModel>,
    pub latest_time: Option<int>,
    pub ingested: nat,
}

impl TransitionModel {
    /// The state of an engine that has taken no sample.
    pub open spec fn fresh(schedule: ScheduleModel) -> TransitionModel {
        TransitionModel {
            schedule,
            accumulators: Seq::new(
                schedule.window_count() as nat,
                |k: int| AccumulatorModel::empty(),
            ),
            latest_time: None,
            ingested: 0,
        }
    }

    /// What holds of window `k` and its accumulator in every state: the
    /// accumulator is in order, holds only samples of its window, none of
    /// them later than the latest sample of the engine, and has counted no
    /// more samples than the engine has taken.
    pub open spec fn window_valid(self, k: int) -> bool {
        let accumulator = self.accumulators[k];
        &&& accumulator.valid()
        &&& accumulator.sample_count <= self.ingested
        &&& accumulator.first_sample matches Some(first) ==> self.schedule.covers(
            k,
            first.timestamp as int,
        )
        &&& accumulator.last_sample matches Some(last) ==> {
            &&& self.schedule.covers(k, last.timestamp as int)
            &&& self.latest_time matches Some(latest) && last.timestamp <= latest
        }
    }

    /// The invariant of the engine.
    pub open spec fn valid(self) -> bool {
        &&& self.schedule.valid()
        &&& self.accumulators.len() == self.schedule.window_count()
        &&& forall|k: int| 0 <= k < self.accumulators.len() ==> #[trigger] self.window_valid(k)
    }

    /// Whether the instant `t` lies within the time bounds of the engine.
    pub open spec fn in_bounds(self, t: int) -> bool {
        self.schedule.lowest_time <= t <= self.schedule.greatest_time
    }

    /// Whether a sample at instant `t` comes no earlier than every sample
    /// taken so far.
    pub open spec fn accepts(self, t: int) -> bool {
        self.latest_time matches Some(latest) ==> latest <= t
    }

    /// The state after the engine has taken `sample`: every window that
    /// covers the instant of the sample takes it, the others stay as they
    /// are.
    pub open spec fn added(self, sample: Sample) -> TransitionModel {
        TransitionModel {
            schedule: self.schedule,
            accumulators: Seq::new(
                self.accumulators.len(),
                |k: int|
                    if self.schedule.covers(k, sample.timestamp as int) {
                        self.accumulators[k].added(sample)
                    } else {
                        self.accumulators[k]
                    },
            ),
            latest_time: Some(sample.timestamp as int),
            ingested: self.ingested + 1,
        }
    }

    /// The state after the engine has taken all of `samples`, in order.
    pub open spec fn ingest(self, samples: Seq<Sample>) -> TransitionModel
        decreases samples.len(),
    {
        if samples.len() == 0 {
            self
        } else {
            self.ingest(samples.drop_last()).added(samples.last())
        }
    }

    /// The increase of every window, in window order.
    pub open spec fn results(self) -> Seq<Option<IncreaseModel>> {
        Seq::new(
            self.accumulators.len(),
            |k: int| self.accumulators[k].increase(self.schedule.range),
        )
    }

    /// Whether two partial states can be combined: they follow the same
    /// schedule, and in no window do their samples overlap in time.
    pub open spec fn mergeable(self, other: TransitionModel) -> bool {
        &&& self.schedule == other.schedule
        &&& forall|k: int|
            0 <= k < self.accumulators.len() ==> !(#[trigger] self.accumulators[k]).overlaps(
                other.accumulators[k],
            )
    }

    /// The later of two optional instants.
    pub open spec fn later(a: Option<int>, b: Option<int>) -> Option<int> {
        match (a, b) {
            (None, _) => b,
            (_, None) => a,
            (Some(x), Some(y)) => if x >= y {
                a
            } else {
                b
            },
        }
    }

    /// The combination of two partial states, window by window.
    pub open spec fn merged(self, other: TransitionModel) -> TransitionModel {
        TransitionModel {
            schedule: self.schedule,
            accumulators: Seq::new(
                self.accumulators.len(),
                |k: int| self.accumulators[k].merged(other.accumulators[k]),
            ),
            latest_time: Self::later(self.latest_time, other.latest_time),
            ingested: self.ingested + other.ingested,
        }
    }

    /// A fresh state satisfies the invariant.
    pub proof fn lemma_fresh_valid(schedule: ScheduleModel)
        requires
            schedule.valid(),
        ensures
            Self::fresh(schedule).valid(),
    {
        schedule.lemma_window_count();
        let fresh = Self::fresh(schedule);
        assert forall|k: int| 0 <= k < fresh.accumulators.len() implies (
            #[trigger] fresh.window_valid(k)) by {}
    }

    /// Taking a sample that is within bounds and in time order keeps the
    /// invariant, and lowers the corrected total of no window.
    pub proof fn lemma_added_valid(self, sample: Sample)
        requires
            self.valid(),
            self.accepts(sample.timestamp as int),
        ensures
            self.added(sample).valid(),
            forall|k: int|
                0 <= k < self.accumulators.len() ==> (#[trigger] self.added(
                    sample,
                ).accumulators[k]).corrected_total >= self.accumulators[k].corrected_total,
    {
        let next = self.added(sample);
        assert forall|k: int| 0 <= k < next.accumulators.len() implies {
            &&& #[trigger] next.window_valid(k)
            &&& next.accumulators[k].corrected_total >= self.accumulators[k].corrected_total
        } by {
            assert(self.window_valid(k));
            if self.schedule.covers(k, sample.timestamp as int) {
                self.accumulators[k].lemma_added(sample);
            }
        }
    }

    /// Combining two partial states that can be combined keeps the
    /// invariant.
    pub proof fn lemma_merged_valid(self, other: TransitionModel)
        requires
            self.valid(),
            other.valid(),
            self.mergeable(other),
        ensures
            self.merged(other).valid(),
    {
        let both = self.merged(other);
        assert forall|k: int| 0 <= k < both.accumulators.len() implies (
            #[trigger] both.window_valid(k)) by {
            assert(self.window_valid(k));
            assert(other.window_valid(k));
            assert(!self.accumulators[k].overlaps(other.accumulators[k]));
            self.accumulators[k].lemma_merged(other.accumulators[k]);
        }
    }
}

/// The views of the finished increases, in order.
pub open spec fn increase_views(results: Seq<Option<Increase>>) -> Seq<Option<IncreaseModel>> {
    Seq::new(
        results.len(),
        |k: int|
            match results[k] {
                None => None,
                Some(increase) => Some(increase@),
            },
    )
}

/// The state that is threaded through the calls of one aggregation: the
/// schedule and one accumulator per window.
#[derive(Debug, PartialEq, Eq)]
pub struct TransitionState {
    schedule: WindowSchedule,
    accumulators: Vec<Accumulator>,
    latest_time: Option<i64>,
    ingested: u64,
}

impl View for TransitionState {
    type V = TransitionModel;

    closed spec fn view(&self) -> TransitionModel {
        TransitionModel {
            schedule: self.schedule@,
            accumulators: Seq::new(self.accumulators@.len(), |k: int| self.accumulators@[k]@),
            latest_time: match self.latest_time {
                None => None,
                Some(t) => Some(t as int),
            },
            ingested: self.ingested as nat,
        }
    }
}

impl TransitionState {
    /// The state satisfies the invariant of the engine, and its schedule
    /// fits machine integers.
    pub open spec fn wf(&self) -> bool {
        &&& self@.valid()
        &&& self@.schedule.representable()
    }

    /// A fresh engine for the given schedule parameters, or the refusal of
    /// the parameters.
    pub fn new(lowest_time: i64, greatest_time: i64, step_size: i64, range: i64) -> (result: Result<
        TransitionState,
        IncreaseError,
    >)
        requires
            WindowSchedule::model_of(lowest_time, greatest_time, step_size, range).admissible(),
        ensures
            result is Ok <==> WindowSchedule::model_of(
                lowest_time,
                greatest_time,
                step_size,
                range,
            ).valid(),
            result matches Ok(state) ==> state.wf() && state@ == TransitionModel::fresh(
                WindowSchedule::model_of(lowest_time, greatest_time, step_size, range),
            ),
            result matches Err(e) ==> e == IncreaseError::InvalidParameters,
    {
        match WindowSchedule::new(lowest_time, greatest_time, step_size, range) {
            Err(e) => Err(e),
            Ok(schedule) => Ok(Self::with_schedule(schedule)),
        }
    }

    /// A fresh engine for a schedule.
    pub fn with_schedule(schedule: WindowSchedule) -> (state: TransitionState)
        requires
            schedule.wf(),
        ensures
            state.wf(),
            state@ == TransitionModel::fresh(schedule@),
    {
        let count: usize = schedule.window_count();
        let mut accumulators: Vec<Accumulator> = Vec::new();
        let mut k: usize = 0;
        while k < count
            invariant
                k <= count,
                accumulators@.len() == k,
                forall|j: int|
                    0 <= j < k ==> (#[trigger] accumulators@[j])@ == AccumulatorModel::empty(),
            decreases count - k,
        {
            accumulators.push(Accumulator::new());
            k = k + 1;
        }
        let state = TransitionState { schedule, accumulators, latest_time: None, ingested: 0 };
        proof {
            assert(state@.accumulators =~= TransitionModel::fresh(schedule@).accumulators);
            TransitionModel::lemma_fresh_valid(schedule@);
        }
        state
    }

    /// Whether [`TransitionState::add_data_point`] may be called with a
    /// sample at `timestamp`: unless the sample is out of bounds, it must
    /// come no earlier than the latest sample, and there must be room to
    /// count it.
    pub fn admits(&self, timestamp: i64) -> (ok: bool)
        ensures
            ok == (self@.in_bounds(timestamp as int) ==> self@.accepts(timestamp as int)
                && self@.ingested < u64::MAX),
    {
        if !self.schedule.in_bounds(timestamp) {
            return true;
        }
        let in_order: bool = match self.latest_time {
            None => true,
            Some(latest) => latest <= timestamp,
        };
        in_order && self.ingested < u64::MAX
    }

    /// Routes one sample to every window that covers its instant.
    ///
    /// A sample outside the time bounds of the engine is refused and
    /// changes nothing. Samples within bounds come in time order.
    pub fn add_data_point(&mut self, timestamp: i64, value: u64) -> (result: Result<
        (),
        IncreaseError,
    >)
        requires
            old(self).wf(),
            old(self)@.in_bounds(timestamp as int) ==> old(self)@.accepts(timestamp as int)
                && old(self)@.ingested < u64::MAX,
        ensures
            final(self).wf(),
            result is Ok <==> old(self)@.in_bounds(timestamp as int),
            result is Ok ==> final(self)@ == old(self)@.added(Sample { timestamp, value }),
            forall|k: int|
                0 <= k < old(self)@.accumulators.len()
                    ==> (#[trigger] final(self)@.accumulators[k]).corrected_total
                    >= old(self)@.accumulators[k].corrected_total,
            result matches Err(e) ==> e == IncreaseError::OutOfRangeSample
                && final(self)@ == old(self)@,
    {
        if !self.schedule.in_bounds(timestamp) {
            return Err(IncreaseError::OutOfRangeSample);
        }
        let sample = Sample { timestamp, value };
        let run: (usize, usize) = self.schedule.active_windows(timestamp);
        let ghost before = self@;
        proof {
            before.lemma_added_valid(sample);
        }
        let mut k: usize = run.0;
        while k < run.1
            invariant
                run.0 <= k <= run.1 <= self.accumulators@.len(),
                before.valid(),
                before.accepts(timestamp as int),
                before.ingested < u64::MAX,
                sample.timestamp == timestamp,
                self.accumulators@.len() == before.accumulators.len(),
                self.schedule@ == before.schedule,
                self.ingested == before.ingested,
                forall|j: int|
                    run.0 <= j < run.1 ==> #[trigger] before.schedule.covers(j, timestamp as int),
                forall|j: int|
                    0 <= j < self.accumulators@.len() ==> (#[trigger] self.accumulators@[j])@
                        == if run.0 <= j < k {
                        before.accumulators[j].added(sample)
                    } else {
                        before.accumulators[j]
                    },
            decreases run.1 - k,
        {
            assert(before.window_valid(k as int));
            let mut accumulator: Accumulator = self.accumulators[k];
            accumulator.add_data_point(sample);
            self.accumulators.set(k, accumulator);
            k = k + 1;
        }
        self.latest_time = Some(timestamp);
        self.ingested = self.ingested + 1;
        proof {
            assert(self@.accumulators =~= before.added(sample).accumulators);
        }
        Ok(())
    }

    /// Combines two partial states of one aggregation.
    ///
    /// The two must follow the same schedule, and in every window the
    /// samples of one must lie wholly before the samples of the other.
    pub fn merge(self, other: TransitionState) -> (result: Result<TransitionState, IncreaseError>)
        requires
            self.wf(),
            other.wf(),
            self@.ingested + other@.ingested <= u64::MAX,
        ensures
            result is Ok <==> self@.mergeable(other@),
            result matches Ok(merged) ==> merged.wf() && merged@ == self@.merged(other@),
            result matches Err(e) ==> e == IncreaseError::UnmergeablePartials,
    {
        if !self.schedule.same_as(&other.schedule) {
            return Err(IncreaseError::UnmergeablePartials);
        }
        let count: usize = self.accumulators.len();
        let mut accumulators: Vec<Accumulator> = Vec::new();
        let mut k: usize = 0;
        while k < count
            invariant
                self.wf(),
                other.wf(),
                self@.schedule == other@.schedule,
                self@.ingested + other@.ingested <= u64::MAX,
                count == self.accumulators@.len(),
                k <= count,
                accumulators@.len() == k,
                forall|j: int|
                    0 <= j < k ==> !(#[trigger] self@.accumulators[j]).overlaps(
                        other@.accumulators[j],
                    ),
                forall|j: int|
                    0 <= j < k ==> (#[trigger] accumulators@[j])@ == self@.accumulators[j].merged(
                        other@.accumulators[j],
                    ),
            decreases count - k,
        {
            assert(self@.window_valid(k as int));
            assert(other@.window_valid(k as int));
            match self.accumulators[k].merge(&other.accumulators[k]) {
                Err(e) => {
                    assert(self@.accumulators[k as int].overlaps(other@.accumulators[k as int]));
                    return Err(e);
                },
                Ok(accumulator) => {
                    accumulators.push(accumulator);
                },
            }
            k = k + 1;
        }
        let latest_time: Option<i64> = match (self.latest_time, other.latest_time) {
            (None, theirs) => theirs,
            (ours, None) => ours,
            (Some(x), Some(y)) => if x >= y {
                Some(x)
            } else {
                Some(y)
            },
        };
        let merged = TransitionState {
            schedule: self.schedule,
            accumulators,
            latest_time,
            ingested: self.ingested + other.ingested,
        };
        proof {
            assert(merged@.accumulators =~= self@.merged(other@).accumulators);
            self@.lemma_merged_valid(other@);
        }
        Ok(merged)
    }

    /// Ends the aggregation: the increase of every window, in window
    /// order. A window with fewer than two samples, or with no time
    /// between its first and its last sample, has none.
    pub fn finalize(self) -> (results: Vec<Option<Increase>>)
        requires
            self.wf(),
        ensures
            increase_views(results@) == self@.results(),
            results@.len() == self@.schedule.window_count(),
            forall|k: int|
                0 <= k < results@.len() ==> (#[trigger] results@[k] matches Some(increase)
                    ==> increase.wf()),
    {
        let range: i64 = self.schedule.range();
        let count: usize = self.accumulators.len();
        let mut results: Vec<Option<Increase>> = Vec::new();
        let mut k: usize = 0;
        while k < count
            invariant
                self.wf(),
                range == self@.schedule.range,
                count == self.accumulators@.len(),
                k <= count,
                results@.len() == k,
                forall|j: int|
                    0 <= j < k ==> match #[trigger] results@[j] {
                        None => self@.accumulators[j].increase(range as int) is None,
                        Some(increase) => increase.wf() && self@.accumulators[j].increase(
                            range as int,
                        ) == Some(increase@),
                    },
            decreases count - k,
        {
            assert(self@.window_valid(k as int));
            let found: Option<Increase> = match self.accumulators[k].extrapolate(range) {
                Ok(found) => found,
                Err(_) => None,
            };
            results.push(found);
            k = k + 1;
        }
        proof {
            assert(increase_views(results@) =~= self@.results());
        }
        results
    }

    /// The schedule that the engine follows.
    pub fn schedule(&self) -> (schedule: WindowSchedule)
        ensures
            schedule@ == self@.schedule,
    {
        self.schedule
    }

    /// The number of windows, which is the number of accumulators.
    pub fn window_count(&self) -> (count: usize)
        ensures
            count == self@.accumulators.len(),
    {
        self.accumulators.len()
    }

    /// The accumulator of window `k`.
    pub fn accumulator(&self, k: usize) -> (accumulator: Accumulator)
        requires
            k < self@.accumulators.len(),
        ensures
            accumulator@ == self@.accumulators[k as int],
    {
        self.accumulators[k]
    }

    /// The instant of the latest sample taken, if any.
    pub fn latest_time(&self) -> (latest: Option<i64>)
        ensures
            latest is Some <==> self@.latest_time is Some,
            latest matches Some(t) ==> self@.latest_time == Some(t as int),
    {
        self.latest_time
    }

    /// The number of samples taken.
    pub fn ingested(&self) -> (count: u64)
        ensures
            count == self@.ingested,
    {
        self.ingested
    }
}

} // verus!
