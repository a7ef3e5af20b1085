//! The transition step of the `prom_increase` aggregate.

use crate::error::IncreaseError;
use crate::sample::Sample;
use crate::schedule::{ScheduleModel, WindowSchedule};
use crate::transition::{TransitionModel, TransitionState};
use vstd::prelude::*;

verus! {

/// The state that a transition step starts from: the state handed in, or a
/// fresh one for `schedule` where none was handed in.
pub open spec fn starting_state(
    state: Option<TransitionState>,
    schedule: ScheduleModel,
) -> TransitionModel {
    match state {
        Some(state) => state@,
        None => TransitionModel::fresh(schedule),
    }
}

/// What a transition step asks of a row whose sample time lies within the
/// bounds of the call. Where there is a state, the sample comes no earlier
/// than the latest one and there is room to count it, unless the state
/// refuses it as out of its own bounds. Where there is none, the schedule
/// can be held in machine integers, unless its parameters are invalid.
pub open spec fn transition_admitted(
    state: Option<TransitionState>,
    lowest_time: i64,
    greatest_time: i64,
    step_size: i64,
    range: i64,
    sample_time: i64,
) -> bool {
    lowest_time <= sample_time <= greatest_time ==> match state {
        Some(state) => state@.in_bounds(sample_time as int) ==> state@.accepts(sample_time as int)
            && state@.ingested < u64::MAX,
        None => WindowSchedule::model_of(lowest_time, greatest_time, step_size, range).admissible(),
    }
}

/// Whether [`prom_increase_transition`] may be called with these
/// arguments.
pub fn transition_admits(
    state: &Option<TransitionState>,
    lowest_time: i64,
    greatest_time: i64,
    step_size: i64,
    range: i64,
    sample_time: i64,
) -> (ok: bool)
    ensures
        ok == transition_admitted(
            *state,
            lowest_time,
            greatest_time,
            step_size,
            range,
            sample_time,
        ),
{
    if sample_time < lowest_time || sample_time > greatest_time {
        return true;
    }
    match state {
        Some(state) => state.admits(sample_time),
        None => WindowSchedule::fits(lowest_time, greatest_time, step_size, range),
    }
}

/// One step of the aggregate: takes the state of the calls before, if any,
/// and one row, and gives the state for the next call.
///
/// The sample time is first held against the bounds of the call. On the
/// first row, where there is no state yet, the engine is then created from
/// the schedule parameters of the call. Then the engine takes the sample,
/// which holds it against its own bounds.
pub fn prom_increase_transition(
    state: Option<TransitionState>,
    lowest_time: i64,
    greatest_time: i64,
    step_size: i64,
    range: i64,
    sample_time: i64,
    sample_value: u64,
) -> (result: Result<TransitionState, IncreaseError>)
    requires
        state matches Some(s) ==> s.wf(),
        transition_admitted(state, lowest_time, greatest_time, step_size, range, sample_time),
    ensures
        result is Ok <==> {
            &&& lowest_time <= sample_time <= greatest_time
            &&& match state {
                Some(s) => s@.in_bounds(sample_time as int),
                None => step_size > 0 && range > 0,
            }
        },
        result matches Ok(next) ==> next.wf() && next@ == starting_state(
            state,
            WindowSchedule::model_of(lowest_time, greatest_time, step_size, range),
        ).added(Sample { timestamp: sample_time, value: sample_value }),
        result matches Err(e) ==> e == if state is None && lowest_time <= sample_time
            <= greatest_time {
            IncreaseError::InvalidParameters
        } else {
            IncreaseError::OutOfRangeSample
        },
{
    if sample_time < lowest_time || sample_time > greatest_time {
        return Err(IncreaseError::OutOfRangeSample);
    }
    let mut current: TransitionState = match state {
        Some(current) => current,
        None => match TransitionState::new(lowest_time, greatest_time, step_size, range) {
            Ok(fresh) => fresh,
            Err(e) => {
                return Err(e);
            },
        },
    };
    match current.add_data_point(sample_time, sample_value) {
        Ok(()) => Ok(current),
        Err(e) => Err(e),
    }
}

} // verus!
