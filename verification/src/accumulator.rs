use crate::error::IncreaseError;
use crate::increase::{Increase, IncreaseModel};
use crate::sample::Sample;
use vstd::prelude::*;

verus! {

/// What one window has seen so far, with unbounded integers.
pub struct AccumulatorModel {
    /// The earliest sample of the window.
    pub first_sample: Option<Sample>,
    /// The latest sample of the window.
    pub last_sample: Option<Sample>,
    /// The counter value that the next sample is compared with.
    pub prev_raw_value: Option<u64>,
    /// The growth seen so far, with every reset made up for.
    pub corrected_total: nat,
    /// How many samples the window has taken.
    pub sample_count: nat,
}

/// What a counter that went from `prev` to `value` has grown by. A counter
/// that fell has restarted from zero, so it has grown by `value`.
pub open spec fn growth(prev: u64, value: u64) -> nat {
    if value >= prev {
        (value - prev) as nat
    } else {
        value as nat
    }
}

impl AccumulatorModel {
    /// The accumulator of a window that has seen nothing.
    pub open spec fn empty() -> AccumulatorModel {
        AccumulatorModel {
            first_sample: None,
            last_sample: None,
            prev_raw_value: None,
            corrected_total: 0,
            sample_count: 0,
        }
    }

    /// The invariant of an accumulator: either it has seen nothing and
    /// holds nothing, or it holds a first and a last sample in time order,
    /// and compares the next value with that of the last sample.
    pub open spec fn valid(self) -> bool {
        if self.sample_count == 0 {
            &&& self.first_sample is None
            &&& self.last_sample is None
            &&& self.prev_raw_value is None
            &&& self.corrected_total == 0
        } else {
            &&& self.first_sample is Some
            &&& self.last_sample is Some
            &&& self.first_sample->0.timestamp <= self.last_sample->0.timestamp
            &&& self.prev_raw_value == Some(self.last_sample->0.value)
            &&& self.corrected_total <= (self.sample_count - 1) * u64::MAX
        }
    }

    /// Whether `sample` comes no earlier than everything seen so far.
    pub open spec fn accepts(self, sample: Sample) -> bool {
        self.last_sample matches Some(last) ==> last.timestamp <= sample.timestamp
    }

    /// What `sample` adds to the corrected total: nothing if it is the
    /// first sample, else the growth since the previous value.
    pub open spec fn contribution(self, sample: Sample) -> nat {
        match self.prev_raw_value {
            None => 0,
            Some(prev) => growth(prev, sample.value),
        }
    }

    /// The accumulator after it has taken `sample`.
    pub open spec fn added(self, sample: Sample) -> AccumulatorModel {
        AccumulatorModel {
            first_sample: if self.first_sample is None {
                Some(sample)
            } else {
                self.first_sample
            },
            last_sample: Some(sample),
            prev_raw_value: Some(sample.value),
            corrected_total: self.corrected_total + self.contribution(sample),
            sample_count: self.sample_count + 1,
        }
    }

    /// The accumulator after it has taken all of `samples`, in order.
    pub open spec fn ingest(self, samples: Seq<Sample>) -> AccumulatorModel
        decreases samples.len(),
    {
        if samples.len() == 0 {
            self
        } else {
            self.ingest(samples.drop_last()).added(samples.last())
        }
    }

    /// The time between the first and the last sample.
    pub open spec fn observed_duration(self) -> int {
        if self.first_sample is Some && self.last_sample is Some {
            self.last_sample->0.timestamp - self.first_sample->0.timestamp
        } else {
            0
        }
    }

    /// Two or more samples, all at one instant: no rate can be derived.
    pub open spec fn degenerate(self) -> bool {
        self.sample_count >= 2 && self.observed_duration() == 0
    }

    /// The increase over a window of width `range`: none for fewer than two
    /// samples or for a degenerate window, else the corrected total scaled
    /// from the observed duration to `range`.
    pub open spec fn increase(self, range: int) -> Option<IncreaseModel> {
        if self.sample_count < 2 || self.observed_duration() <= 0 || range <= 0 {
            None
        } else {
            Some(
                IncreaseModel {
                    total: self.corrected_total,
                    range: range as nat,
                    observed: self.observed_duration() as nat,
                },
            )
        }
    }

    /// Whether everything that `self` has seen lies strictly before
    /// everything that `other` has seen. False if either has seen nothing.
    pub open spec fn precedes(self, other: AccumulatorModel) -> bool {
        &&& self.last_sample is Some
        &&& other.first_sample is Some
        &&& self.last_sample->0.timestamp < other.first_sample->0.timestamp
    }

    /// Whether both have seen samples and neither lies wholly before the
    /// other.
    pub open spec fn overlaps(self, other: AccumulatorModel) -> bool {
        &&& self.sample_count > 0
        &&& other.sample_count > 0
        &&& !self.precedes(other)
        &&& !other.precedes(self)
    }

    /// `self` followed in time by `later`: the first sample of `self`, the
    /// last sample and the comparison value of `later`, and the sums of
    /// the totals and of the counts.
    pub open spec fn followed_by(self, later: AccumulatorModel) -> AccumulatorModel {
        AccumulatorModel {
            first_sample: self.first_sample,
            last_sample: later.last_sample,
            prev_raw_value: later.prev_raw_value,
            corrected_total: self.corrected_total + later.corrected_total,
            sample_count: self.sample_count + later.sample_count,
        }
    }

    /// The two partial accumulators of one window combined. Where one of
    /// them has seen nothing, the result is the other one.
    pub open spec fn merged(self, other: AccumulatorModel) -> AccumulatorModel {
        if self.sample_count == 0 {
            other
        } else if other.sample_count == 0 {
            self
        } else if other.precedes(self) {
            other.followed_by(self)
        } else {
            self.followed_by(other)
        }
    }

    /// Taking a sample in time order keeps the invariant, never lowers the
    /// corrected total, and adds at most the value of the sample to it.
    pub proof fn lemma_added(self, sample: Sample)
        requires
            self.valid(),
            self.accepts(sample),
        ensures
            self.added(sample).valid(),
            self.added(sample).corrected_total >= self.corrected_total,
            self.added(sample).corrected_total <= self.corrected_total + sample.value,
            self.sample_count == 0 ==> self.added(sample).corrected_total == 0,
    {
    }

    /// Combining two partial accumulators that do not overlap keeps the
    /// invariant.
    pub proof fn lemma_merged(self, other: AccumulatorModel)
        requires
            self.valid(),
            other.valid(),
            !self.overlaps(other),
        ensures
            self.merged(other).valid(),
            self.merged(other).corrected_total == self.corrected_total + other.corrected_total,
            self.merged(other).sample_count == self.sample_count + other.sample_count,
    {
        if self.sample_count > 0 && other.sample_count > 0 {
            let a = self.sample_count as int;
            let b = other.sample_count as int;
            assert((a - 1) * u64::MAX + (b - 1) * u64::MAX <= (a + b - 1) * u64::MAX)
                by (nonlinear_arith);
        }
    }
}

/// The running state of one window.
#[derive(Clone, Copy, Debug, PartialEq, Eq)]
pub struct Accumulator {
    first_sample: Option<Sample>,
    last_sample: Option<Sample>,
    prev_raw_value: Option<u64>,
    corrected_total: u128,
    sample_count: u64,
}

impl View for Accumulator {
    type V = AccumulatorModel;

    closed spec fn view(&self) -> AccumulatorModel {
        AccumulatorModel {
            first_sample: self.first_sample,
            last_sample: self.last_sample,
            prev_raw_value: self.prev_raw_value,
            corrected_total: self.corrected_total as nat,
            sample_count: self.sample_count as nat,
        }
    }
}

impl Accumulator {
    pub open spec fn wf(&self) -> bool {
        self@.valid()
    }

    /// An accumulator that has seen nothing.
    pub fn new() -> (accumulator: Accumulator)
        ensures
            accumulator.wf(),
            accumulator@ == AccumulatorModel::empty(),
    {
        Accumulator {
            first_sample: None,
            last_sample: None,
            prev_raw_value: None,
            corrected_total: 0,
            sample_count: 0,
        }
    }

    /// Whether [`Accumulator::add_data_point`] may be called with
    /// `sample`: it must come no earlier than the last sample, and there
    /// must be room to count it.
    pub fn admits(&self, sample: Sample) -> (ok: bool)
        ensures
            ok == (self@.accepts(sample) && self@.sample_count < u64::MAX),
    {
        let in_order: bool = match self.last_sample {
            None => true,
            Some(last) => last.timestamp <= sample.timestamp,
        };
        in_order && self.sample_count < u64::MAX
    }

    /// Takes one sample. Samples come in time order, and there is room to
    /// count one more.
    pub fn add_data_point(&mut self, sample: Sample)
        requires
            old(self).wf(),
            old(self)@.accepts(sample),
            old(self)@.sample_count < u64::MAX,
        ensures
            final(self).wf(),
            final(self)@ == old(self)@.added(sample),
            final(self)@.corrected_total >= old(self)@.corrected_total,
    {
        let grown: u64 = match self.prev_raw_value {
            None => 0,
            Some(prev) => if sample.value >= prev {
                sample.value - prev
            } else {
                sample.value
            },
        };
        assert(self.corrected_total + grown <= u128::MAX) by (nonlinear_arith)
            requires
                self.corrected_total <= self.sample_count * u64::MAX,
                self.sample_count < u64::MAX,
                grown <= u64::MAX,
        ;
        let first: Option<Sample> = match self.first_sample {
            None => Some(sample),
            Some(earlier) => Some(earlier),
        };
        *self = Accumulator {
            first_sample: first,
            last_sample: Some(sample),
            prev_raw_value: Some(sample.value),
            corrected_total: self.corrected_total + grown as u128,
            sample_count: self.sample_count + 1,
        };
    }

    /// Combines the partial accumulators that two scans have kept for one
    /// window. The scans must have seen disjoint stretches of time, one
    /// wholly before the other.
    pub fn merge(&self, other: &Accumulator) -> (result: Result<Accumulator, IncreaseError>)
        requires
            self.wf(),
            other.wf(),
            self@.sample_count + other@.sample_count <= u64::MAX,
        ensures
            result is Err <==> self@.overlaps(other@),
            result matches Err(e) ==> e == IncreaseError::UnmergeablePartials,
            result matches Ok(merged) ==> merged.wf() && merged@ == self@.merged(other@),
    {
        proof {
            if !self@.overlaps(other@) {
                self@.lemma_merged(other@);
            }
        }
        if self.sample_count == 0 {
            return Ok(*other);
        }
        if other.sample_count == 0 {
            return Ok(*self);
        }
        let self_first: Sample = self.first_sample.unwrap();
        let self_last: Sample = self.last_sample.unwrap();
        let other_first: Sample = other.first_sample.unwrap();
        let other_last: Sample = other.last_sample.unwrap();
        if other_last.timestamp < self_first.timestamp {
            Ok(
                Accumulator {
                    first_sample: other.first_sample,
                    last_sample: self.last_sample,
                    prev_raw_value: self.prev_raw_value,
                    corrected_total: other.corrected_total + self.corrected_total,
                    sample_count: other.sample_count + self.sample_count,
                },
            )
        } else if self_last.timestamp < other_first.timestamp {
            Ok(
                Accumulator {
                    first_sample: self.first_sample,
                    last_sample: other.last_sample,
                    prev_raw_value: other.prev_raw_value,
                    corrected_total: self.corrected_total + other.corrected_total,
                    sample_count: self.sample_count + other.sample_count,
                },
            )
        } else {
            Err(IncreaseError::UnmergeablePartials)
        }
    }

    /// The increase of the window, scaled to the width `range`.
    ///
    /// A window with fewer than two samples has no increase. A window
    /// whose samples all share one instant is degenerate.
    pub fn extrapolate(&self, range: i64) -> (result: Result<Option<Increase>, IncreaseError>)
        requires
            self.wf(),
        ensures
            result is Err <==> range <= 0 || self@.degenerate(),
            result matches Err(e) ==> e == if range <= 0 {
                IncreaseError::InvalidParameters
            } else {
                IncreaseError::DegenerateWindow
            },
            result matches Ok(None) ==> self@.sample_count < 2 && self@.increase(range as int)
                is None,
            result matches Ok(Some(increase)) ==> increase.wf() && self@.increase(range as int)
                == Some(increase@),
    {
        if range <= 0 {
            return Err(IncreaseError::InvalidParameters);
        }
        if self.sample_count < 2 {
            return Ok(None);
        }
        let first: Sample = self.first_sample.unwrap();
        let last: Sample = self.last_sample.unwrap();
        let observed: u64 = (last.timestamp as i128 - first.timestamp as i128) as u64;
        if observed == 0 {
            return Err(IncreaseError::DegenerateWindow);
        }
        Ok(Some(Increase::new(self.corrected_total, range as u64, observed)))
    }

    pub fn first_sample(&self) -> (sample: Option<Sample>)
        ensures
            sample == self@.first_sample,
    {
        self.first_sample
    }

    pub fn last_sample(&self) -> (sample: Option<Sample>)
        ensures
            sample == self@.last_sample,
    {
        self.last_sample
    }

    pub fn prev_raw_value(&self) -> (value: Option<u64>)
        ensures
            value == self@.prev_raw_value,
    {
        self.prev_raw_value
    }

    pub fn corrected_total(&self) -> (total: u128)
        ensures
            total == self@.corrected_total,
    {
        self.corrected_total
    }

    pub fn sample_count(&self) -> (count: u64)
        ensures
            count == self@.sample_count,
    {
        self.sample_count
    }
}

} // verus!
