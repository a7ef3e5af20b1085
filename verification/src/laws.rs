//! What holds of the engine for every sequence of samples.
//!
//! The laws of one window are stated over [`AccumulatorModel::ingest`], the
//! laws of a whole engine over [`TransitionModel::ingest`]; the two are
//! tied together by [`lemma_ingest_routes`].

use crate::accumulator::{growth, AccumulatorModel};
use crate::increase::IncreaseModel;
use crate::sample::Sample;
use crate::schedule::ScheduleModel;
use crate::transition::TransitionModel;
use vstd::prelude::*;

verus! {

/// No sample is earlier than the one before it.
pub open spec fn in_time_order(samples: Seq<Sample>) -> bool {
    forall|j: int|
        0 < j < samples.len() ==> samples[j - 1].timestamp <= (#[trigger] samples[j]).timestamp
}

/// No sample has a lower value than the one before it: the counter was
/// never reset.
pub open spec fn never_falls(samples: Seq<Sample>) -> bool {
    forall|j: int| 0 < j < samples.len() ==> samples[j - 1].value <= (#[trigger] samples[j]).value
}

/// The value falls from sample `i - 1` to sample `i`, and nowhere else.
pub open spec fn falls_only_at(samples: Seq<Sample>, i: int) -> bool {
    &&& 0 < i < samples.len()
    &&& forall|j: int|
        0 < j < samples.len() ==> ((#[trigger] samples[j]).value < samples[j - 1].value <==> j
            == i)
}

/// All but the last of the samples are in time order as well, start with
/// the same sample and end no later than the last.
proof fn lemma_prefix_in_order(samples: Seq<Sample>)
    requires
        in_time_order(samples),
        samples.len() > 0,
    ensures
        in_time_order(samples.drop_last()),
        samples.len() > 1 ==> {
            &&& samples.drop_last()[0] == samples[0]
            &&& samples.drop_last().last().timestamp <= samples.last().timestamp
        },
{
    let init = samples.drop_last();
    assert forall|j: int| 0 < j < init.len() implies init[j - 1].timestamp
        <= (#[trigger] init[j]).timestamp by {
        assert(init[j] == samples[j]);
    }
    if init.len() > 0 {
        assert(init.last() == samples[samples.len() - 2]);
        assert(samples[samples.len() - 2].timestamp <= samples[samples.len() - 1].timestamp);
    }
}

/// What an accumulator looks like after it has taken samples in time
/// order: it is in order, has counted every sample, holds the last of them
/// as its last sample and, if it was empty before, the first of them as
/// its first. Its corrected total has not gone down.
pub proof fn lemma_ingest_shape(start: AccumulatorModel, samples: Seq<Sample>)
    requires
        start.valid(),
        in_time_order(samples),
        samples.len() > 0 ==> start.accepts(samples[0]),
    ensures
        start.ingest(samples).valid(),
        start.ingest(samples).sample_count == start.sample_count + samples.len(),
        start.ingest(samples).corrected_total >= start.corrected_total,
        samples.len() > 0 ==> {
            &&& start.ingest(samples).last_sample == Some(samples.last())
            &&& start.ingest(samples).prev_raw_value == Some(samples.last().value)
            &&& start.ingest(samples).first_sample == if start.first_sample is Some {
                start.first_sample
            } else {
                Some(samples[0])
            }
        },
    decreases samples.len(),
{
    if samples.len() > 0 {
        lemma_prefix_in_order(samples);
        lemma_ingest_shape(start, samples.drop_last());
        start.ingest(samples.drop_last()).lemma_added(samples.last());
    }
}

/// Taking `front` and then `back` is taking the two in one go.
pub proof fn lemma_ingest_concat(start: AccumulatorModel, front: Seq<Sample>, back: Seq<Sample>)
    ensures
        start.ingest(front + back) == start.ingest(front).ingest(back),
    decreases back.len(),
{
    if back.len() == 0 {
        assert(front + back =~= front);
    } else {
        assert((front + back).drop_last() =~= front + back.drop_last());
        assert((front + back).last() == back.last());
        lemma_ingest_concat(start, front, back.drop_last());
    }
}

/// A window that has taken no sample, or exactly one, has no increase.
pub proof fn lemma_too_few_samples(samples: Seq<Sample>, range: int)
    requires
        samples.len() <= 1,
    ensures
        AccumulatorModel::empty().ingest(samples).increase(range) is None,
        AccumulatorModel::empty().ingest(samples).sample_count == samples.len(),
{
    if samples.len() == 1 {
        assert(samples.drop_last().len() == 0);
        assert(AccumulatorModel::empty().ingest(samples.drop_last()) == AccumulatorModel::empty());
    }
}

/// While the counter never falls, the corrected total is the last value
/// less the first.
pub proof fn lemma_total_without_reset(samples: Seq<Sample>)
    requires
        samples.len() > 0,
        never_falls(samples),
    ensures
        samples[0].value <= samples.last().value,
        AccumulatorModel::empty().ingest(samples).corrected_total == samples.last().value
            - samples[0].value,
        AccumulatorModel::empty().ingest(samples).prev_raw_value == Some(samples.last().value),
    decreases samples.len(),
{
    let init = samples.drop_last();
    if init.len() == 0 {
        assert(AccumulatorModel::empty().ingest(init) == AccumulatorModel::empty());
    } else {
        assert forall|j: int| 0 < j < init.len() implies init[j - 1].value
            <= (#[trigger] init[j]).value by {
            assert(init[j] == samples[j]);
        }
        lemma_total_without_reset(init);
        assert(init[0] == samples[0]);
        assert(init.last() == samples[samples.len() - 2]);
        assert(samples[samples.len() - 2].value <= samples[samples.len() - 1].value);
    }
}

/// For samples in time order whose values never fall and whose first and
/// last sample are exactly `range` apart, the increase is exactly the last
/// value less the first: nothing is extrapolated.
pub proof fn lemma_exact_span(samples: Seq<Sample>, range: int)
    requires
        samples.len() > 0,
        in_time_order(samples),
        never_falls(samples),
        range > 0,
        samples.last().timestamp - samples[0].timestamp == range,
    ensures
        samples[0].value <= samples.last().value,
        AccumulatorModel::empty().ingest(samples).increase(range) == Some(
            IncreaseModel {
                total: (samples.last().value - samples[0].value) as nat,
                range: range as nat,
                observed: range as nat,
            },
        ),
        AccumulatorModel::empty().ingest(samples).increase(range)->0.is_exactly(
            (samples.last().value - samples[0].value) as nat,
        ),
{
    lemma_ingest_shape(AccumulatorModel::empty(), samples);
    lemma_total_without_reset(samples);
}

/// The corrected total of the first `n` samples of a sequence whose value
/// falls only at index `i`: up to the fall it is the growth since the
/// first value, and after it the growth up to the fall plus the current
/// value, which is the value after the fall plus the growth since then.
proof fn lemma_total_around_reset(samples: Seq<Sample>, i: int, n: int)
    requires
        falls_only_at(samples, i),
        0 < n <= samples.len(),
    ensures
        AccumulatorModel::empty().ingest(samples.take(n)).prev_raw_value == Some(
            samples[n - 1].value,
        ),
        n <= i ==> samples[0].value <= samples[n - 1].value && AccumulatorModel::empty().ingest(
            samples.take(n),
        ).corrected_total == samples[n - 1].value - samples[0].value,
        n > i ==> samples[0].value <= samples[i - 1].value && samples[i].value <= samples[n
            - 1].value && AccumulatorModel::empty().ingest(samples.take(n)).corrected_total
            == (samples[i - 1].value - samples[0].value) + samples[i].value + (samples[n - 1].value
            - samples[i].value),
    decreases n,
{
    let prefix = samples.take(n);
    assert(prefix.drop_last() =~= samples.take(n - 1));
    assert(prefix.last() == samples[n - 1]);
    if n == 1 {
        assert(AccumulatorModel::empty().ingest(samples.take(0)) == AccumulatorModel::empty());
    } else {
        lemma_total_around_reset(samples, i, n - 1);
        let j = n - 1;
        assert((samples[j].value < samples[j - 1].value) <==> j == i);
    }
}

/// For samples whose value falls exactly once, from sample `i - 1` to
/// sample `i`, the corrected total is the growth before the fall, plus the
/// value right after the fall, plus the growth after the fall: the value
/// after the reset stands in for the negative step.
pub proof fn lemma_total_with_one_reset(samples: Seq<Sample>, i: int)
    requires
        falls_only_at(samples, i),
    ensures
        samples[0].value <= samples[i - 1].value,
        samples[i].value <= samples.last().value,
        AccumulatorModel::empty().ingest(samples).corrected_total == (samples[i - 1].value
            - samples[0].value) + samples[i].value + (samples.last().value - samples[i].value),
{
    lemma_total_around_reset(samples, i, samples.len() as int);
    assert(samples.take(samples.len() as int) =~= samples);
}

/// For samples in time order whose value falls exactly once, from sample
/// `i - 1` to sample `i`, and falls to zero there, the increase over the
/// time they span is the growth before the reset plus the growth after
/// it.
pub proof fn lemma_increase_with_one_reset_to_zero(samples: Seq<Sample>, i: int, range: int)
    requires
        falls_only_at(samples, i),
        in_time_order(samples),
        samples[i].value == 0,
        range > 0,
        samples[0].timestamp < samples.last().timestamp,
    ensures
        samples[0].value <= samples[i - 1].value,
        samples[i].value <= samples.last().value,
        AccumulatorModel::empty().ingest(samples).increase(range) == Some(
            IncreaseModel {
                total: ((samples[i - 1].value - samples[0].value) + (samples.last().value
                    - samples[i].value)) as nat,
                range: range as nat,
                observed: (samples.last().timestamp - samples[0].timestamp) as nat,
            },
        ),
        samples.last().timestamp - samples[0].timestamp == range
            ==> AccumulatorModel::empty().ingest(samples).increase(range)->0.is_exactly(
            ((samples[i - 1].value - samples[0].value) + (samples.last().value
                - samples[i].value)) as nat,
        ),
{
    lemma_total_with_one_reset(samples, i);
    lemma_ingest_shape(AccumulatorModel::empty(), samples);
}

/// An accumulator that goes on to take `later` ends up as itself followed
/// by what a fresh accumulator makes of `later`, but for the growth from
/// its last value to the first value of `later`, which only the one that
/// saw both can count.
pub proof fn lemma_ingest_continues(start: AccumulatorModel, later: Seq<Sample>)
    requires
        start.valid(),
        start.sample_count > 0,
        later.len() > 0,
    ensures
        start.ingest(later) == (AccumulatorModel {
            corrected_total: start.corrected_total + growth(
                start.prev_raw_value->0,
                later[0].value,
            ) + AccumulatorModel::empty().ingest(later).corrected_total,
            ..start.followed_by(AccumulatorModel::empty().ingest(later))
        }),
    decreases later.len(),
{
    let init = later.drop_last();
    if init.len() == 0 {
        assert(AccumulatorModel::empty().ingest(init) == AccumulatorModel::empty());
        assert(start.ingest(init) == start);
        assert(later.last() == later[0]);
    } else {
        lemma_ingest_continues(start, init);
        assert(init[0] == later[0]);
    }
}

/// Two scans that split the samples of a window between them, the first
/// taking `front` and the second `back`, combine to what one scan of all
/// samples comes to, provided that all of `front` lies before all of
/// `back` and that the counter did not grow between the last sample of
/// `front` and the first sample of `back`.
pub proof fn lemma_merge_of_split(front: Seq<Sample>, back: Seq<Sample>)
    requires
        in_time_order(front),
        in_time_order(back),
        front.len() > 0 && back.len() > 0 ==> {
            &&& front.last().timestamp < back[0].timestamp
            &&& growth(front.last().value, back[0].value) == 0
        },
    ensures
        !AccumulatorModel::empty().ingest(front).overlaps(AccumulatorModel::empty().ingest(back)),
        AccumulatorModel::empty().ingest(front).merged(AccumulatorModel::empty().ingest(back))
            == AccumulatorModel::empty().ingest(front + back),
{
    let empty = AccumulatorModel::empty();
    lemma_ingest_shape(empty, front);
    lemma_ingest_shape(empty, back);
    lemma_ingest_concat(empty, front, back);
    if front.len() == 0 {
        assert(empty.ingest(front) == empty);
    } else if back.len() == 0 {
        assert(empty.ingest(back) == empty);
    } else {
        lemma_ingest_continues(empty.ingest(front), back);
    }
}

/// What a merge leaves out: where the counter grew between the last
/// sample of `front` and the first sample of `back`, the combined total
/// falls short of the total of one scan by exactly that growth, and
/// nothing else differs.
pub proof fn lemma_merge_misses_boundary_growth(front: Seq<Sample>, back: Seq<Sample>)
    requires
        in_time_order(front),
        in_time_order(back),
        front.len() > 0,
        back.len() > 0,
        front.last().timestamp < back[0].timestamp,
    ensures
        AccumulatorModel::empty().ingest(front + back) == (AccumulatorModel {
            corrected_total: AccumulatorModel::empty().ingest(front).merged(
                AccumulatorModel::empty().ingest(back),
            ).corrected_total + growth(front.last().value, back[0].value),
            ..AccumulatorModel::empty().ingest(front).merged(AccumulatorModel::empty().ingest(back))
        }),
{
    let empty = AccumulatorModel::empty();
    lemma_ingest_shape(empty, front);
    lemma_ingest_shape(empty, back);
    lemma_ingest_concat(empty, front, back);
    lemma_ingest_continues(empty.ingest(front), back);
}

/// Extrapolation multiplies the corrected total by `range / observed`.
/// Where the samples span less than the window, the increase is therefore
/// no less than the corrected total, and more wherever the counter grew.
pub proof fn lemma_extrapolation_scales_up(accumulator: AccumulatorModel, range: int)
    requires
        accumulator.valid(),
        accumulator.sample_count >= 2,
        0 < accumulator.observed_duration() <= range,
    ensures
        accumulator.increase(range) matches Some(increase) && {
            &&& increase.valid()
            &&& increase.numerator() == accumulator.corrected_total * range
            &&& increase.denominator() == accumulator.observed_duration()
            &&& increase.numerator() >= accumulator.corrected_total * increase.denominator()
            &&& increase.whole_part() >= accumulator.corrected_total
            &&& (accumulator.observed_duration() < range && accumulator.corrected_total > 0
                ==> increase.numerator() > accumulator.corrected_total * increase.denominator())
            &&& (accumulator.observed_duration() == range ==> increase.is_exactly(
                accumulator.corrected_total,
            ))
        },
{
    let total = accumulator.corrected_total as int;
    let observed = accumulator.observed_duration();
    assert(total * range >= total * observed) by (nonlinear_arith)
        requires
            total >= 0,
            observed <= range,
    ;
    assert(observed < range && total > 0 ==> total * range > total * observed)
        by (nonlinear_arith);
    assert((total * range) / observed >= total) by (nonlinear_arith)
        requires
            total * range >= total * observed,
            observed > 0,
    ;
}

/// The samples that window `k` of `schedule` takes out of `samples`, in
/// the order in which they come.
pub open spec fn taken_by(schedule: ScheduleModel, k: int, samples: Seq<Sample>) -> Seq<Sample>
    decreases samples.len(),
{
    if samples.len() == 0 {
        Seq::empty()
    } else if schedule.covers(k, samples.last().timestamp as int) {
        taken_by(schedule, k, samples.drop_last()).push(samples.last())
    } else {
        taken_by(schedule, k, samples.drop_last())
    }
}

/// What a window takes out of two runs of samples is what it takes out of
/// the first, then what it takes out of the second.
pub proof fn lemma_taken_by_concat(
    schedule: ScheduleModel,
    k: int,
    front: Seq<Sample>,
    back: Seq<Sample>,
)
    ensures
        taken_by(schedule, k, front + back)
            == taken_by(schedule, k, front) + taken_by(schedule, k, back),
    decreases back.len(),
{
    if back.len() == 0 {
        assert(front + back =~= front);
        let taken = taken_by(schedule, k, front);
        assert(taken + taken_by(schedule, k, back) =~= taken);
    } else {
        assert((front + back).drop_last() =~= front + back.drop_last());
        assert((front + back).last() == back.last());
        lemma_taken_by_concat(schedule, k, front, back.drop_last());
        let taken = taken_by(schedule, k, front);
        let rest = taken_by(schedule, k, back.drop_last());
        assert((taken + rest).push(back.last()) =~= taken + rest.push(back.last()));
    }
}

/// In samples that are in time order, a later sample is no earlier than
/// any sample before it.
pub proof fn lemma_time_order_spans(samples: Seq<Sample>, i: int, j: int)
    requires
        in_time_order(samples),
        0 <= i <= j < samples.len(),
    ensures
        samples[i].timestamp <= samples[j].timestamp,
    decreases j - i,
{
    if i < j {
        lemma_time_order_spans(samples, i, j - 1);
        assert(samples[j - 1].timestamp <= samples[j].timestamp);
    }
}

/// What a window takes out of samples in time order is in time order
/// again, lies within the window, and ends no later than the samples do.
pub proof fn lemma_taken_by_order(schedule: ScheduleModel, k: int, samples: Seq<Sample>)
    requires
        in_time_order(samples),
    ensures
        in_time_order(taken_by(schedule, k, samples)),
        taken_by(schedule, k, samples).len() <= samples.len(),
        forall|j: int|
            0 <= j < taken_by(schedule, k, samples).len() ==> schedule.covers(
                k,
                (#[trigger] taken_by(schedule, k, samples)[j]).timestamp as int,
            ),
        taken_by(schedule, k, samples).len() > 0 ==> taken_by(schedule, k, samples).last().timestamp
            <= samples.last().timestamp,
    decreases samples.len(),
{
    if samples.len() > 0 {
        lemma_prefix_in_order(samples);
        lemma_taken_by_order(schedule, k, samples.drop_last());
    }
}

/// Every window of an engine ends up as if it had been fed, on its own,
/// just the samples that it takes. The schedule stays, and the engine
/// counts every sample.
pub proof fn lemma_ingest_routes(start: TransitionModel, samples: Seq<Sample>)
    ensures
        start.ingest(samples).schedule == start.schedule,
        start.ingest(samples).accumulators.len() == start.accumulators.len(),
        start.ingest(samples).ingested == start.ingested + samples.len(),
        start.ingest(samples).latest_time == if samples.len() > 0 {
            Some(samples.last().timestamp as int)
        } else {
            start.latest_time
        },
        forall|k: int|
            0 <= k < start.accumulators.len() ==> #[trigger] start.ingest(samples).accumulators[k]
                == start.accumulators[k].ingest(taken_by(start.schedule, k, samples)),
    decreases samples.len(),
{
    if samples.len() > 0 {
        let init = samples.drop_last();
        lemma_ingest_routes(start, init);
        let after = start.ingest(samples);
        assert forall|k: int| 0 <= k < start.accumulators.len() implies (
            #[trigger] after.accumulators[k]) == start.accumulators[k].ingest(
            taken_by(start.schedule, k, samples),
        ) by {
            let taken = taken_by(start.schedule, k, init);
            if start.schedule.covers(k, samples.last().timestamp as int) {
                assert(taken.push(samples.last()).drop_last() =~= taken);
            }
        }
    }
}

/// An engine that takes samples in time order stays in order.
pub proof fn lemma_ingest_valid(start: TransitionModel, samples: Seq<Sample>)
    requires
        start.valid(),
        in_time_order(samples),
        samples.len() > 0 ==> start.accepts(samples[0].timestamp as int),
    ensures
        start.ingest(samples).valid(),
    decreases samples.len(),
{
    if samples.len() > 0 {
        let init = samples.drop_last();
        lemma_prefix_in_order(samples);
        lemma_ingest_valid(start, init);
        lemma_ingest_routes(start, init);
        start.ingest(init).lemma_added_valid(samples.last());
    }
}

/// The result of window `k` of a fresh engine that has taken `samples` is
/// the increase of an accumulator that has taken the samples of that
/// window, scaled to the range of the schedule.
pub proof fn lemma_window_result(schedule: ScheduleModel, samples: Seq<Sample>, k: int)
    requires
        schedule.valid(),
        0 <= k < schedule.window_count(),
    ensures
        TransitionModel::fresh(schedule).ingest(samples).results().len()
            == schedule.window_count(),
        TransitionModel::fresh(schedule).ingest(samples).results()[k]
            == AccumulatorModel::empty().ingest(taken_by(schedule, k, samples)).increase(
            schedule.range,
        ),
{
    lemma_ingest_routes(TransitionModel::fresh(schedule), samples);
}

/// A window that takes no sample, or exactly one, yields no result.
pub proof fn lemma_window_with_too_few_samples(
    schedule: ScheduleModel,
    samples: Seq<Sample>,
    k: int,
)
    requires
        schedule.valid(),
        0 <= k < schedule.window_count(),
        taken_by(schedule, k, samples).len() <= 1,
    ensures
        TransitionModel::fresh(schedule).ingest(samples).results()[k] is None,
{
    lemma_window_result(schedule, samples, k);
    lemma_too_few_samples(taken_by(schedule, k, samples), schedule.range);
}

/// A window whose samples never fall, with the first of them at the start
/// of the window and the last at its end, yields exactly the last value
/// less the first.
pub proof fn lemma_window_exact_span(schedule: ScheduleModel, samples: Seq<Sample>, k: int)
    requires
        schedule.valid(),
        0 <= k < schedule.window_count(),
        in_time_order(samples),
        never_falls(taken_by(schedule, k, samples)),
        taken_by(schedule, k, samples).len() >= 2,
        taken_by(schedule, k, samples)[0].timestamp == schedule.window_start(k),
        taken_by(schedule, k, samples).last().timestamp == schedule.evaluation_point(k),
    ensures
        ({
            let taken = taken_by(schedule, k, samples);
            let result = TransitionModel::fresh(schedule).ingest(samples).results()[k];
            &&& taken[0].value <= taken.last().value
            &&& result == Some(
                IncreaseModel {
                    total: (taken.last().value - taken[0].value) as nat,
                    range: schedule.range as nat,
                    observed: schedule.range as nat,
                },
            )
            &&& result->0.is_exactly((taken.last().value - taken[0].value) as nat)
        }),
{
    lemma_window_result(schedule, samples, k);
    lemma_taken_by_order(schedule, k, samples);
    lemma_exact_span(taken_by(schedule, k, samples), schedule.range);
}

/// A window whose samples fall exactly once, from its sample `i - 1` to
/// its sample `i`, and fall to zero there, yields the growth before the
/// reset plus the growth after it, scaled from the time between its first
/// and its last sample to the range of the schedule.
pub proof fn lemma_window_with_one_reset_to_zero(
    schedule: ScheduleModel,
    samples: Seq<Sample>,
    k: int,
    i: int,
)
    requires
        schedule.valid(),
        0 <= k < schedule.window_count(),
        in_time_order(samples),
        falls_only_at(taken_by(schedule, k, samples), i),
        taken_by(schedule, k, samples)[i].value == 0,
        taken_by(schedule, k, samples)[0].timestamp
            < taken_by(schedule, k, samples).last().timestamp,
    ensures
        ({
            let taken = taken_by(schedule, k, samples);
            &&& taken[0].value <= taken[i - 1].value
            &&& taken[i].value <= taken.last().value
            &&& TransitionModel::fresh(schedule).ingest(samples).results()[k] == Some(
                IncreaseModel {
                    total: ((taken[i - 1].value - taken[0].value) + (taken.last().value
                        - taken[i].value)) as nat,
                    range: schedule.range as nat,
                    observed: (taken.last().timestamp - taken[0].timestamp) as nat,
                },
            )
        }),
{
    lemma_window_result(schedule, samples, k);
    lemma_taken_by_order(schedule, k, samples);
    lemma_increase_with_one_reset_to_zero(taken_by(schedule, k, samples), i, schedule.range);
}

/// Two fresh engines on one schedule, the first fed `front` and the second
/// `back`, combine to the engine that was fed all the samples, provided
/// that in every window all it takes of `front` lies before all it takes
/// of `back`, with no growth of the counter in between.
pub proof fn lemma_merge_of_split_engines(
    schedule: ScheduleModel,
    front: Seq<Sample>,
    back: Seq<Sample>,
)
    requires
        schedule.valid(),
        in_time_order(front + back),
        forall|k: int|
            0 <= k < schedule.window_count() && (#[trigger] taken_by(schedule, k, front)).len() > 0
                && taken_by(schedule, k, back).len() > 0 ==> {
                let before = taken_by(schedule, k, front).last();
                let after = taken_by(schedule, k, back)[0];
                &&& before.timestamp < after.timestamp
                &&& growth(before.value, after.value) == 0
            },
    ensures
        TransitionModel::fresh(schedule).ingest(front).mergeable(
            TransitionModel::fresh(schedule).ingest(back),
        ),
        TransitionModel::fresh(schedule).ingest(front).merged(
            TransitionModel::fresh(schedule).ingest(back),
        ) == TransitionModel::fresh(schedule).ingest(front + back),
{
    let fresh = TransitionModel::fresh(schedule);
    let all = front + back;
    schedule.lemma_window_count();
    assert forall|j: int| 0 < j < front.len() implies front[j - 1].timestamp
        <= (#[trigger] front[j]).timestamp by {
        assert(all[j] == front[j] && all[j - 1] == front[j - 1]);
    }
    assert forall|j: int| 0 < j < back.len() implies back[j - 1].timestamp
        <= (#[trigger] back[j]).timestamp by {
        assert(all[front.len() + j] == back[j] && all[front.len() + j - 1] == back[j - 1]);
    }
    lemma_ingest_routes(fresh, front);
    lemma_ingest_routes(fresh, back);
    lemma_ingest_routes(fresh, all);
    let one = fresh.ingest(front);
    let two = fresh.ingest(back);
    assert forall|k: int| 0 <= k < schedule.window_count() implies {
        &&& !(#[trigger] one.accumulators[k]).overlaps(two.accumulators[k])
        &&& one.accumulators[k].merged(two.accumulators[k]) == fresh.ingest(all).accumulators[k]
    } by {
        lemma_taken_by_order(schedule, k, front);
        lemma_taken_by_order(schedule, k, back);
        lemma_taken_by_concat(schedule, k, front, back);
        lemma_merge_of_split(taken_by(schedule, k, front), taken_by(schedule, k, back));
    }
    if front.len() > 0 && back.len() > 0 {
        assert(all[front.len() - 1] == front.last());
        assert(all.last() == back.last());
        lemma_time_order_spans(all, front.len() - 1, all.len() - 1);
    }
    if back.len() == 0 {
        assert(all =~= front);
    }
    assert(one.merged(two).accumulators =~= fresh.ingest(all).accumulators);
}

/// In every state of an engine, the samples of a window lie within the
/// window, so no more time passes between them than the window is wide: a
/// result is never scaled down, and it is the corrected total exactly
/// where the samples span the whole window.
pub proof fn lemma_window_never_scales_down(state: TransitionModel, k: int)
    requires
        state.valid(),
        0 <= k < state.accumulators.len(),
        state.results()[k] is Some,
    ensures
        ({
            let total = state.accumulators[k].corrected_total;
            let result = state.results()[k]->0;
            &&& result.valid()
            &&& result.total == total
            &&& result.range == state.schedule.range
            &&& result.observed == state.accumulators[k].observed_duration()
            &&& result.observed <= result.range
            &&& result.numerator() >= total * result.denominator()
            &&& result.whole_part() >= total
            &&& (result.observed == result.range ==> result.is_exactly(total))
        }),
{
    assert(state.window_valid(k));
    lemma_extrapolation_scales_up(state.accumulators[k], state.schedule.range);
}

} // verus!
