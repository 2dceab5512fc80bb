//! The step scheduler: it gates simulation steps to a minimum interval that
//! does not depend on the frame rate, allows one step in flight at a time,
//! and owns the roles of the two vertex buffers.
use vstd::prelude::*;

verus! {

/// The buffer roles of one simulation step: the step reads slot `read` and
/// writes slot `write`.
#[derive(Clone, Copy, Debug, PartialEq, Eq, Structural)]
pub struct Dispatch {
    pub read: usize,
    pub write: usize,
}

/// The abstract state of a scheduler. Times are clock readings in
/// nanoseconds.
pub struct SchedulerModel {
    pub min_interval: u64,
    pub last_step: u64,
    /// Whether the next step reads the second buffer slot.
    pub reads_second: bool,
    /// Whether a step has been dispatched and not yet reported complete.
    pub in_flight: bool,
}

/// The slot index named by a role flag.
pub open spec fn slot(second: bool) -> usize {
    if second {
        1
    } else {
        0
    }
}

/// Whether a call at `now` dispatches a step: none is in flight and at least
/// the minimum interval has passed since the last step.
pub open spec fn is_due(m: SchedulerModel, now: u64) -> bool {
    !m.in_flight && now - m.last_step >= m.min_interval
}

/// The state after a call at `now`, and the step it dispatches, if any.
pub open spec fn advance_spec(m: SchedulerModel, now: u64) -> (SchedulerModel, Option<Dispatch>) {
    if is_due(m, now) {
        (
            SchedulerModel { last_step: now, in_flight: true, ..m },
            Some(Dispatch { read: slot(m.reads_second), write: slot(!m.reads_second) }),
        )
    } else {
        (m, None)
    }
}

/// The state after the step in flight, if any, is reported finished. Only a
/// step that succeeded swaps the buffer roles.
pub open spec fn complete_spec(m: SchedulerModel, succeeded: bool) -> SchedulerModel {
    SchedulerModel {
        in_flight: false,
        reads_second: if m.in_flight && succeeded {
            !m.reads_second
        } else {
            m.reads_second
        },
        ..m
    }
}

/// One frame: a call at `now`, and the step it dispatched, if any,
/// completing successfully.
pub open spec fn tick_spec(m: SchedulerModel, now: u64) -> SchedulerModel {
    let (next, dispatched) = advance_spec(m, now);
    if dispatched is Some {
        complete_spec(next, true)
    } else {
        next
    }
}

/// The state after one frame at each of `times`, in order.
pub open spec fn run(m: SchedulerModel, times: Seq<u64>) -> SchedulerModel
    decreases times.len(),
{
    if times.len() == 0 {
        m
    } else {
        tick_spec(run(m, times.drop_last()), times.last())
    }
}

/// How many steps the frames at `times` dispatch.
pub open spec fn dispatch_count(m: SchedulerModel, times: Seq<u64>) -> nat
    decreases times.len(),
{
    if times.len() == 0 {
        0
    } else {
        dispatch_count(m, times.drop_last()) + if is_due(run(m, times.drop_last()), times.last()) {
            1nat
        } else {
            0nat
        }
    }
}

/// Clock readings that never go backwards.
pub open spec fn non_decreasing(times: Seq<u64>) -> bool {
    forall|i: int, j: int| 0 <= i <= j < times.len() ==> times[i] <= times[j]
}

pub struct StepScheduler {
    min_interval: u64,
    last_step: u64,
    reads_second: bool,
    in_flight: bool,
}

impl View for StepScheduler {
    type V = SchedulerModel;

    closed spec fn view(&self) -> SchedulerModel {
        SchedulerModel {
            min_interval: self.min_interval,
            last_step: self.last_step,
            reads_second: self.reads_second,
            in_flight: self.in_flight,
        }
    }
}

impl StepScheduler {
    /// A scheduler whose first step may come `min_interval` after `start`;
    /// the first step reads slot 0.
    pub fn new(min_interval: u64, start: u64) -> (r: Self)
        ensures
            r@ == (SchedulerModel {
                min_interval,
                last_step: start,
                reads_second: false,
                in_flight: false,
            }),
    {
        StepScheduler { min_interval, last_step: start, reads_second: false, in_flight: false }
    }

    /// Called once per frame with the clock reading `now`. When a step is
    /// due, records `now` as the last step time, marks the step in flight
    /// and returns its buffer roles; otherwise changes nothing.
    pub fn advance(&mut self, now: u64) -> (r: Option<Dispatch>)
        ensures
            (final(self)@, r) == advance_spec(old(self)@, now),
    {
        if !self.in_flight && now >= self.last_step && now - self.last_step >= self.min_interval {
            let d = Dispatch { read: self.read_slot(), write: self.write_slot() };
            self.last_step = now;
            self.in_flight = true;
            Some(d)
        } else {
            None
        }
    }

    /// Reports that the step in flight finished; the buffer roles swap only
    /// when it `succeeded`, so a failed step leaves the last completed
    /// buffer current.
    pub fn complete(&mut self, succeeded: bool)
        ensures
            final(self)@ == complete_spec(old(self)@, succeeded),
    {
        if self.in_flight && succeeded {
            self.reads_second = !self.reads_second;
        }
        self.in_flight = false;
    }

    /// The slot holding the state of the most recently completed step: the
    /// one to present, and the one the next step reads.
    pub fn read_slot(&self) -> (r: usize)
        ensures
            r == slot(self@.reads_second),
    {
        if self.reads_second {
            1
        } else {
            0
        }
    }

    /// The slot the next step writes.
    pub fn write_slot(&self) -> (r: usize)
        ensures
            r == slot(!self@.reads_second),
    {
        if self.reads_second {
            0
        } else {
            1
        }
    }

    pub fn in_flight(&self) -> (r: bool)
        ensures
            r == self@.in_flight,
    {
        self.in_flight
    }

    pub fn last_step(&self) -> (r: u64)
        ensures
            r == self@.last_step,
    {
        self.last_step
    }

    pub fn min_interval(&self) -> (r: u64)
        ensures
            r == self@.min_interval,
    {
        self.min_interval
    }
}

/// The number of workgroups of `group_size` workers that one step needs so
/// that every one of `vertex_count` vertices gets a worker: the ceiling of
/// their quotient.
pub fn workgroup_count(vertex_count: u32, group_size: u32) -> (r: u32)
    requires
        group_size > 0,
    ensures
        r as int * group_size as int >= vertex_count,
        (r as int - 1) * group_size < vertex_count,
{
    let q = vertex_count / group_size;
    let rem = vertex_count % group_size;
    proof {
        vstd::arithmetic::div_mod::lemma_fundamental_div_mod(
            vertex_count as int,
            group_size as int,
        );
        assert(vertex_count as int == group_size as int * q as int + rem as int);
        assert(0 <= rem < group_size);
    }
    if rem == 0 {
        proof {
            assert((q as int - 1) * group_size < vertex_count) by (nonlinear_arith)
                requires
                    vertex_count as int == group_size as int * q as int,
                    group_size >= 1,
            ;
            assert(q as int * group_size >= vertex_count) by (nonlinear_arith)
                requires
                    vertex_count as int == group_size as int * q as int,
            ;
        }
        q
    } else {
        proof {
            assert(q as int + 1 <= u32::MAX && (q as int + 1) * group_size >= vertex_count && q
                * group_size < vertex_count) by (nonlinear_arith)
                requires
                    vertex_count as int == group_size as int * q as int + rem as int,
                    vertex_count <= u32::MAX,
                    group_size >= 1,
                    1 <= rem < group_size,
                    q >= 0,
            ;
        }
        q + 1
    }
}

/// Frames whose clock readings all lie within less than one minimum
/// interval of each other dispatch at most one step, whatever the state
/// they start from (with no step in flight).
pub proof fn lemma_at_most_one_step_within_interval(m: SchedulerModel, times: Seq<u64>)
    requires
        !m.in_flight,
        non_decreasing(times),
        times.len() > 0 ==> times.last() - times[0] < m.min_interval,
    ensures
        dispatch_count(m, times) <= 1,
{
    lemma_within_interval(m, times);
}

proof fn lemma_within_interval(m: SchedulerModel, times: Seq<u64>)
    requires
        !m.in_flight,
        non_decreasing(times),
        times.len() > 0 ==> times.last() - times[0] < m.min_interval,
    ensures
        dispatch_count(m, times) <= 1,
        !run(m, times).in_flight,
        run(m, times).min_interval == m.min_interval,
        dispatch_count(m, times) == 0 ==> run(m, times) == m,
        dispatch_count(m, times) == 1 ==> times.len() > 0 && times[0] <= run(m, times).last_step,
    decreases times.len(),
{
    if times.len() > 0 {
        let prefix = times.drop_last();
        assert(non_decreasing(prefix));
        if prefix.len() > 0 {
            assert(prefix[0] == times[0]);
            assert(prefix.last() <= times.last());
        }
        lemma_within_interval(m, prefix);
    }
}

/// Frames spaced at least one minimum interval apart, the first at least one
/// interval after the last step, dispatch one step each; the last step time
/// is then the last frame's reading, so no lag builds up, and the buffer
/// roles have swapped once per frame.
pub proof fn lemma_one_step_per_interval(m: SchedulerModel, times: Seq<u64>)
    requires
        !m.in_flight,
        times.len() > 0 ==> times[0] - m.last_step >= m.min_interval,
        forall|i: int| 0 < i < times.len() ==> #[trigger] times[i] - times[i - 1] >= m.min_interval,
    ensures
        dispatch_count(m, times) == times.len(),
        !run(m, times).in_flight,
        run(m, times).min_interval == m.min_interval,
        run(m, times).reads_second == (m.reads_second != (times.len() % 2 == 1)),
        times.len() > 0 ==> run(m, times).last_step == times.last(),
    decreases times.len(),
{
    if times.len() > 0 {
        let prefix = times.drop_last();
        assert forall|i: int| 0 < i < prefix.len() implies #[trigger] prefix[i] - prefix[i - 1]
            >= m.min_interval by {
            assert(prefix[i] == times[i] && prefix[i - 1] == times[i - 1]);
        }
        lemma_one_step_per_interval(m, prefix);
        if prefix.len() > 0 {
            assert(times[times.len() - 1] - times[times.len() - 2] >= m.min_interval);
        }
    }
}

} // verus!
