use crate::error::IncreaseError;
use vstd::prelude::*;

verus! {

/// A closed interval of time, `start ..= end`, over which one increase is
/// computed. A sample taken exactly at `start` or at `end` belongs to it.
#[derive(Clone, Copy, Debug, PartialEq, Eq, Structural)]
pub struct Window {
    pub start: i64,
    pub end: i64,
}

impl Window {
    /// A window is never empty and never a single instant.
    pub open spec fn wf(self) -> bool {
        self.start < self.end
    }

    /// Whether the instant `t` lies in the window, both ends included.
    pub open spec fn covers(self, t: int) -> bool {
        self.start <= t <= self.end
    }

    /// The nominal width of the window.
    pub open spec fn width(self) -> int {
        self.end - self.start
    }

    pub fn contains(&self, timestamp: i64) -> (inside: bool)
        ensures
            inside == self.covers(timestamp as int),
    {
        self.start <= timestamp && timestamp <= self.end
    }
}

/// The four numbers a schedule is made of, as mathematical integers.
pub struct ScheduleModel {
    pub lowest_time: int,
    pub greatest_time: int,
    pub step_size: int,
    pub range: int,
}

impl ScheduleModel {
    /// The parameters describe at least one window: both durations are
    /// positive and the time bounds are in order.
    pub open spec fn valid(self) -> bool {
        &&& self.step_size > 0
        &&& self.range > 0
        &&& self.lowest_time <= self.greatest_time
    }

    /// The number of evaluation points `lowest_time + k * step_size` that
    /// do not pass `greatest_time`.
    pub open spec fn window_count(self) -> int {
        (self.greatest_time - self.lowest_time) / self.step_size + 1
    }

    /// The `k`-th evaluation point, which is where window `k` ends.
    pub open spec fn evaluation_point(self, k: int) -> int {
        self.lowest_time + k * self.step_size
    }

    /// Where window `k` starts: one `range` before its evaluation point.
    pub open spec fn window_start(self, k: int) -> int {
        self.evaluation_point(k) - self.range
    }

    /// Whether window `k` takes a sample at instant `t`.
    pub open spec fn covers(self, k: int, t: int) -> bool {
        self.window_start(k) <= t <= self.evaluation_point(k)
    }

    /// Whether every window can be written down with machine integers: the
    /// first window must not start before the earliest `i64` instant, and
    /// the windows must be countable in a `usize`.
    pub open spec fn representable(self) -> bool {
        &&& self.lowest_time - self.range >= i64::MIN
        &&& self.window_count() <= usize::MAX
    }

    /// Nothing stands in the way of building the schedule: either its
    /// parameters are invalid, which building it finds out, or its windows
    /// can be written down with machine integers.
    pub open spec fn admissible(self) -> bool {
        self.valid() ==> self.representable()
    }

    /// The first index of the run of windows that take a sample at `t`.
    pub open spec fn first_active(self, t: int) -> int {
        if t <= self.lowest_time {
            0
        } else {
            (t - self.lowest_time + self.step_size - 1) / self.step_size
        }
    }

    /// One past the last index of the run of windows that take a sample at
    /// `t`, before it is cut to the number of windows.
    pub open spec fn end_active(self, t: int) -> int {
        if t + self.range < self.lowest_time {
            0
        } else {
            (t + self.range - self.lowest_time) / self.step_size + 1
        }
    }

    /// The half-open run of indices `(first, end)` of the windows that take
    /// a sample at `t`. The run is empty where `first == end`.
    pub open spec fn active_windows(self, t: int) -> (int, int) {
        let end = if self.end_active(t) < self.window_count() {
            self.end_active(t)
        } else {
            self.window_count()
        };
        let first = if self.first_active(t) < end {
            self.first_active(t)
        } else {
            end
        };
        (first, end)
    }

    /// A valid schedule has at least one window, and every evaluation point
    /// of it lies within the time bounds.
    pub proof fn lemma_window_count(self)
        requires
            self.valid(),
        ensures
            self.window_count() >= 1,
            self.evaluation_point(self.window_count() - 1) <= self.greatest_time,
            self.evaluation_point(self.window_count()) > self.greatest_time,
            forall|k: int|
                0 <= k < self.window_count() ==> self.lowest_time
                    <= #[trigger] self.evaluation_point(k) <= self.greatest_time,
    {
        let d = self.greatest_time - self.lowest_time;
        let s = self.step_size;
        let q = d / s;
        assert(0 <= q && q * s <= d < (q + 1) * s) by (nonlinear_arith)
            requires
                d >= 0,
                s > 0,
                q == d / s,
        ;
        assert forall|k: int| 0 <= k < self.window_count() implies self.lowest_time
            <= #[trigger] self.evaluation_point(k) <= self.greatest_time by {
            assert(0 <= k * s <= q * s) by (nonlinear_arith)
                requires
                    0 <= k <= q,
                    s > 0,
            ;
        }
    }

    /// The run of [`ScheduleModel::active_windows`] is exactly the set of
    /// windows that cover `t`.
    pub proof fn lemma_active_windows(self, t: int)
        requires
            self.valid(),
        ensures
            0 <= self.active_windows(t).0 <= self.active_windows(t).1 <= self.window_count(),
            forall|k: int|
                0 <= k < self.window_count() ==> (#[trigger] self.covers(k, t)
                    <==> self.active_windows(t).0 <= k < self.active_windows(t).1),
    {
        self.lemma_window_count();
        let s = self.step_size;
        let lo = self.first_active(t);
        let hi = self.end_active(t);
        let a = t - self.lowest_time;
        let b = t + self.range - self.lowest_time;
        assert(lo >= 0 && hi >= 0) by (nonlinear_arith)
            requires
                s > 0,
                lo == if a <= 0 {
                    0
                } else {
                    (a + s - 1) / s
                },
                hi == if b < 0 {
                    0
                } else {
                    b / s + 1
                },
        ;
        assert forall|k: int| 0 <= k < self.window_count() implies (#[trigger] self.covers(k, t)
            <==> self.active_windows(t).0 <= k < self.active_windows(t).1) by {
            // window k ends at or after t  <==>  k >= lo
            assert(a <= k * s <==> lo <= k) by (nonlinear_arith)
                requires
                    s > 0,
                    k >= 0,
                    lo == if a <= 0 {
                        0
                    } else {
                        (a + s - 1) / s
                    },
            ;
            // window k starts at or before t  <==>  k < hi
            assert(k * s <= b <==> k < hi) by (nonlinear_arith)
                requires
                    s > 0,
                    k >= 0,
                    hi == if b < 0 {
                        0
                    } else {
                        b / s + 1
                    },
            ;
        }
    }
}

/// The evaluation windows of one query: an evaluation point every
/// `step_size` from `lowest_time` up to `greatest_time`, and before each
/// point a window of width `range` that ends there.
#[derive(Clone, Copy, Debug, PartialEq, Eq)]
pub struct WindowSchedule {
    lowest_time: i64,
    greatest_time: i64,
    step_size: i64,
    range: i64,
}

impl View for WindowSchedule {
    type V = ScheduleModel;

    closed spec fn view(&self) -> ScheduleModel {
        ScheduleModel {
            lowest_time: self.lowest_time as int,
            greatest_time: self.greatest_time as int,
            step_size: self.step_size as int,
            range: self.range as int,
        }
    }
}

impl WindowSchedule {
    /// The schedule is valid and all of its windows are representable.
    pub open spec fn wf(&self) -> bool {
        &&& self@.valid()
        &&& self@.representable()
    }

    /// The model of the schedule that has the given parameters.
    pub open spec fn model_of(
        lowest_time: i64,
        greatest_time: i64,
        step_size: i64,
        range: i64,
    ) -> ScheduleModel {
        ScheduleModel {
            lowest_time: lowest_time as int,
            greatest_time: greatest_time as int,
            step_size: step_size as int,
            range: range as int,
        }
    }

    /// Whether a schedule with these parameters can be held in machine
    /// integers. Invalid parameters fit trivially: they are refused before
    /// any window is computed.
    pub fn fits(lowest_time: i64, greatest_time: i64, step_size: i64, range: i64) -> (ok: bool)
        ensures
            ok == Self::model_of(lowest_time, greatest_time, step_size, range).admissible(),
    {
        if step_size <= 0 || range <= 0 || lowest_time > greatest_time {
            return true;
        }
        let span: u128 = (greatest_time as i128 - lowest_time as i128) as u128;
        let count: u128 = span / (step_size as u128) + 1;
        lowest_time as i128 - range as i128 >= i64::MIN as i128 && count <= usize::MAX as u128
    }

    /// Builds the schedule, or refuses the parameters.
    pub fn new(lowest_time: i64, greatest_time: i64, step_size: i64, range: i64) -> (result: Result<
        WindowSchedule,
        IncreaseError,
    >)
        requires
            Self::model_of(lowest_time, greatest_time, step_size, range).admissible(),
        ensures
            result is Ok <==> Self::model_of(lowest_time, greatest_time, step_size, range).valid(),
            result matches Ok(schedule) ==> schedule.wf() && schedule@ == Self::model_of(
                lowest_time,
                greatest_time,
                step_size,
                range,
            ),
            result matches Err(e) ==> e == IncreaseError::InvalidParameters,
    {
        if step_size <= 0 || range <= 0 || lowest_time > greatest_time {
            return Err(IncreaseError::InvalidParameters);
        }
        Ok(WindowSchedule { lowest_time, greatest_time, step_size, range })
    }

    pub fn lowest_time(&self) -> (t: i64)
        ensures
            t == self@.lowest_time,
    {
        self.lowest_time
    }

    pub fn greatest_time(&self) -> (t: i64)
        ensures
            t == self@.greatest_time,
    {
        self.greatest_time
    }

    pub fn step_size(&self) -> (d: i64)
        ensures
            d == self@.step_size,
    {
        self.step_size
    }

    pub fn range(&self) -> (d: i64)
        ensures
            d == self@.range,
    {
        self.range
    }

    /// Whether two schedules have the same parameters.
    pub fn same_as(&self, other: &WindowSchedule) -> (same: bool)
        ensures
            same == (self@ == other@),
    {
        self.lowest_time == other.lowest_time && self.greatest_time == other.greatest_time
            && self.step_size == other.step_size && self.range == other.range
    }

    /// Whether `timestamp` lies within the time bounds of the schedule.
    pub fn in_bounds(&self, timestamp: i64) -> (inside: bool)
        ensures
            inside == (self@.lowest_time <= timestamp <= self@.greatest_time),
    {
        self.lowest_time <= timestamp && timestamp <= self.greatest_time
    }

    /// The number of windows.
    pub fn window_count(&self) -> (count: usize)
        requires
            self.wf(),
        ensures
            count == self@.window_count(),
            count >= 1,
    {
        proof {
            self@.lemma_window_count();
        }
        let span: u128 = (self.greatest_time as i128 - self.lowest_time as i128) as u128;
        let count: u128 = span / (self.step_size as u128) + 1;
        count as usize
    }

    /// The `k`-th window.
    pub fn window(&self, k: usize) -> (window: Window)
        requires
            self.wf(),
            k < self@.window_count(),
        ensures
            window.start == self@.window_start(k as int),
            window.end == self@.evaluation_point(k as int),
            window.wf(),
            window.width() == self@.range,
    {
        proof {
            self@.lemma_window_count();
            assert(self@.lowest_time <= self@.evaluation_point(k as int) <= self@.greatest_time);
        }
        let offset: i128 = (k as i128) * (self.step_size as i128);
        let end: i128 = self.lowest_time as i128 + offset;
        let start: i128 = end - self.range as i128;
        Window { start: start as i64, end: end as i64 }
    }

    /// All windows, in order.
    pub fn windows(&self) -> (windows: Vec<Window>)
        requires
            self.wf(),
        ensures
            windows@.len() == self@.window_count(),
            forall|k: int|
                0 <= k < windows@.len() ==> {
                    &&& (#[trigger] windows@[k]).start == self@.window_start(k)
                    &&& windows@[k].end == self@.evaluation_point(k)
                },
    {
        let count: usize = self.window_count();
        let mut windows: Vec<Window> = Vec::new();
        let mut k: usize = 0;
        while k < count
            invariant
                self.wf(),
                count == self@.window_count(),
                k <= count,
                windows@.len() == k,
                forall|j: int|
                    0 <= j < k ==> {
                        &&& (#[trigger] windows@[j]).start == self@.window_start(j)
                        &&& windows@[j].end == self@.evaluation_point(j)
                    },
            decreases count - k,
        {
            let window: Window = self.window(k);
            windows.push(window);
            k = k + 1;
        }
        windows
    }

    /// The half-open run of indices of the windows that take a sample at
    /// `timestamp`.
    pub fn active_windows(&self, timestamp: i64) -> (run: (usize, usize))
        requires
            self.wf(),
        ensures
            run.0 == self@.active_windows(timestamp as int).0,
            run.1 == self@.active_windows(timestamp as int).1,
            run.0 <= run.1 <= self@.window_count(),
            forall|k: int|
                0 <= k < self@.window_count() ==> (#[trigger] self@.covers(k, timestamp as int)
                    <==> run.0 <= k < run.1),
    {
        proof {
            self@.lemma_active_windows(timestamp as int);
        }
        let count: u128 = self.window_count() as u128;
        let step: u128 = self.step_size as u128;
        let reach: i128 = timestamp as i128 + self.range as i128 - self.lowest_time as i128;
        let end_raw: u128 = if reach < 0 {
            0
        } else {
            (reach as u128) / step + 1
        };
        let end: u128 = if end_raw < count {
            end_raw
        } else {
            count
        };
        let first_raw: u128 = if timestamp <= self.lowest_time {
            0
        } else {
            ((timestamp as i128 - self.lowest_time as i128) as u128 + step - 1) / step
        };
        let first: u128 = if first_raw < end {
            first_raw
        } else {
            end
        };
        (first as usize, end as usize)
    }
}

} // verus!
