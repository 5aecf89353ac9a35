//! Tasks and the per-server queue/service state machine.
//!
//! Simulated time is measured in integer milliseconds. A server owns a FIFO
//! queue of pending tasks and at most one in-service task; one `process_step`
//! call performs at most one completion and at most one service start.

use vstd::prelude::*;
use std::collections::VecDeque;

verus! {

/// One unit of simulated work, with its timing in simulated milliseconds.
#[derive(Clone, Copy, Debug)]
pub struct Task {
    /// Unique, monotonically increasing within a run.
    pub id: u64,
    /// Simulated time the task was created.
    pub arrival_time: u64,
    /// Required service duration; always strictly positive.
    pub processing_time: u64,
    /// Simulated time service began; 0 until the task enters service.
    pub start_time: u64,
    /// Simulated time service finished; 0 until the task completes.
    pub completion_time: u64,
}

/// A task waiting in a queue: positive duration, not yet started or finished.
pub open spec fn pending_task_wf(t: Task) -> bool {
    &&& t.processing_time > 0
    &&& t.start_time == 0
    &&& t.completion_time == 0
}

/// A task occupying a service slot: started no earlier than it arrived,
/// not yet finished.
pub open spec fn in_service_task_wf(t: Task) -> bool {
    &&& t.processing_time > 0
    &&& t.start_time >= t.arrival_time
    &&& t.completion_time == 0
}

/// A finished task: `completion_time >= start_time >= arrival_time`
/// and a strictly positive duration.
pub open spec fn completed_task_wf(t: Task) -> bool {
    &&& t.processing_time > 0
    &&& t.start_time >= t.arrival_time
    &&& t.completion_time >= t.start_time
}

/// An in-service task is finished once the clock has reached its start time
/// plus its required duration.
pub open spec fn service_finished(t: Task, current_time: u64) -> bool {
    current_time >= t.start_time + t.processing_time
}

/// A server owes a completion at `current_time`: its service slot holds a
/// task that has run for its full duration. Enqueuing more tasks never
/// changes this — only stepping the server does.
pub open spec fn due_to_complete(s: ServerState, current_time: u64) -> bool {
    s.current_task is Some && service_finished(s.current_task->Some_0, current_time)
}

/// Ghost image of a server: the mathematical state the contracts compute
/// with, free of the executable container types.
#[verifier::ext_equal]
pub struct ServerModel {
    /// Stable 0-based index.
    pub id: int,
    /// Pending tasks in dispatch order.
    pub queue: Seq<Task>,
    /// The task in service, if any.
    pub current_task: Option<Task>,
    /// True exactly when the slot is occupied.
    pub is_busy: bool,
    /// Lifetime completion count.
    pub total_processed: int,
}

/// `i` is the index the dispatcher must pick from `ms`: no server has a
/// shorter pending queue, and every earlier server has a strictly longer
/// one. At most one index satisfies this.
pub open spec fn least_loaded_ok(ms: Seq<ServerModel>, i: int) -> bool {
    &&& 0 <= i < ms.len()
    &&& forall|k: int| 0 <= k < ms.len() ==> ms[i].queue.len() <= (#[trigger] ms[k]).queue.len()
    &&& forall|k: int| 0 <= k < i ==> ms[i].queue.len() < (#[trigger] ms[k]).queue.len()
}

/// The index of the first server with the fewest pending tasks.
pub open spec fn least_loaded_of(ms: Seq<ServerModel>) -> int {
    choose|i: int| least_loaded_ok(ms, i)
}

/// Only one index can be the first minimum.
pub proof fn lemma_least_loaded_unique(ms: Seq<ServerModel>, a: int, b: int)
    requires
        least_loaded_ok(ms, a),
        least_loaded_ok(ms, b),
    ensures
        a == b,
{
    if a < b {
        assert(ms[b].queue.len() < ms[a].queue.len());
    }
    if b < a {
        assert(ms[a].queue.len() < ms[b].queue.len());
    }
}

/// What one `process_step` call does to a server, as a function on the
/// model: complete the in-service task if it has run its duration, then
/// start the queue front whenever the slot is free.
pub open spec fn step_one(m: ServerModel, current_time: u64) -> ServerModel {
    let after = if m.current_task is Some && service_finished(
        m.current_task->Some_0,
        current_time,
    ) {
        ServerModel {
            current_task: None::<Task>,
            is_busy: false,
            total_processed: m.total_processed + 1,
            ..m
        }
    } else {
        m
    };
    if after.current_task is None && after.queue.len() > 0 {
        ServerModel {
            current_task: Some((Task { start_time: current_time, ..after.queue[0] })),
            is_busy: true,
            queue: after.queue.drop_first(),
            ..after
        }
    } else {
        after
    }
}

/// One simulated server: a FIFO queue of pending tasks plus a single
/// service slot, with a lifetime completion counter.
#[derive(Debug)]
pub struct ServerState {
    /// Stable 0-based index of this server.
    pub id: usize,
    /// Pending tasks in dispatch order; the front is served next.
    pub queue: VecDeque<Task>,
    /// The task currently in service, if any.
    pub current_task: Option<Task>,
    /// Derived flag: true exactly when `current_task` is present.
    pub is_busy: bool,
    /// Lifetime count of completed tasks; never decreases.
    pub total_processed: u64,
}

impl ServerState {
    /// Well-formedness: the busy flag mirrors the service slot, the
    /// in-service task (if any) has started validly, and every queued
    /// task is still pending.
    pub open spec fn wf(self) -> bool {
        &&& self.is_busy == (self.current_task is Some)
        &&& (self.current_task is Some ==> in_service_task_wf(self.current_task->Some_0))
        &&& forall|i: int| 0 <= i < self.queue@.len() ==> pending_task_wf(#[trigger] self.queue@[i])
    }

    /// All tasks held by this server, oldest first: the in-service task
    /// (dispatched earliest), then the queue in dispatch order.
    pub open spec fn pending(self) -> Seq<Task> {
        if self.current_task is Some {
            seq![self.current_task->Some_0] + self.queue@
        } else {
            self.queue@
        }
    }

    /// The ids of all held tasks, oldest first.
    pub open spec fn pending_ids(self) -> Seq<u64> {
        self.pending().map_values(|t: Task| t.id)
    }

    /// The ghost image of this server.
    pub open spec fn model(self) -> ServerModel {
        ServerModel {
            id: self.id as int,
            queue: self.queue@,
            current_task: self.current_task,
            is_busy: self.is_busy,
            total_processed: self.total_processed as int,
        }
    }

    /// The simulated clock never runs behind any time this server has
    /// already recorded.
    pub open spec fn clock_ok(self, current_time: u64) -> bool {
        &&& (self.current_task is Some ==> current_time >= self.current_task->Some_0.start_time)
        &&& forall|i: int|
            0 <= i < self.queue@.len() ==> current_time >= (#[trigger] self.queue@[i]).arrival_time
    }

    /// A fresh, idle server with the given index.
    pub fn new(id: usize) -> (s: ServerState)
        ensures
            s.wf(),
            s.id == id,
            s.queue@ =~= Seq::<Task>::empty(),
            s.current_task is None,
            !s.is_busy,
            s.total_processed == 0,
    {
        ServerState {
            id,
            queue: VecDeque::new(),
            current_task: None,
            is_busy: false,
            total_processed: 0,
        }
    }

    /// Appends a newly dispatched task at the tail of the pending queue;
    /// nothing else changes. Unconditional: no capacity bound.
    pub fn add_task(&mut self, task: Task)
        requires
            old(self).wf(),
            pending_task_wf(task),
        ensures
            final(self).wf(),
            final(self).queue@ == old(self).queue@.push(task),
            final(self).pending_ids() == old(self).pending_ids().push(task.id),
            final(self).id == old(self).id,
            final(self).current_task == old(self).current_task,
            final(self).is_busy == old(self).is_busy,
            final(self).total_processed == old(self).total_processed,
    {
        self.queue.push_back(task);
        proof {
            assert(final(self).pending_ids() =~= old(self).pending_ids().push(task.id));
        }
    }

    /// Advances this server by one tick of the simulated clock.
    ///
    /// At most one completion and at most one service start happen per call:
    /// if the in-service task has run for its full duration it completes
    /// (stamped with `completion_time == current_time`, counted in
    /// `total_processed`) and is returned; whenever the slot is then free and
    /// the queue is non-empty, the front task enters service with
    /// `start_time == current_time`. A task that completes this tick never
    /// also runs a replacement to completion in the same tick.
    ///
    /// FIFO: only the oldest held task (the head of `pending`) ever leaves,
    /// so held tasks keep their relative order.
    pub fn process_step(&mut self, current_time: u64) -> (completed: Option<Task>)
        requires
            old(self).wf(),
            old(self).clock_ok(current_time),
            old(self).total_processed < u64::MAX,
        ensures
            final(self).wf(),
            final(self).id == old(self).id,
            final(self).is_busy == (final(self).current_task is Some),
            final(self).total_processed >= old(self).total_processed,
            // A completion happens exactly when the in-service task is done.
            (completed is Some) == (old(self).current_task is Some
                && service_finished(old(self).current_task->Some_0, current_time)),
            completed is Some ==> {
                let done = old(self).current_task->Some_0;
                &&& completed->Some_0 == (Task { completion_time: current_time, ..done })
                &&& completed_task_wf(completed->Some_0)
                &&& final(self).total_processed == old(self).total_processed + 1
                &&& (if old(self).queue@.len() > 0 {
                        &&& final(self).current_task == Some(
                            (Task { start_time: current_time, ..old(self).queue@[0] }),
                        )
                        &&& final(self).queue@ == old(self).queue@.drop_first()
                    } else {
                        &&& final(self).current_task is None
                        &&& final(self).queue@ == old(self).queue@
                    })
            },
            completed is None ==> final(self).total_processed == old(self).total_processed,
            // Busy but not yet finished: no state change.
            (old(self).current_task is Some
                && !service_finished(old(self).current_task->Some_0, current_time))
                ==> *final(self) == *old(self),
            // Idle with a non-empty queue: the front task enters service.
            (old(self).current_task is None && old(self).queue@.len() > 0) ==> {
                &&& final(self).current_task == Some(
                    (Task { start_time: current_time, ..old(self).queue@[0] }),
                )
                &&& final(self).queue@ == old(self).queue@.drop_first()
                &&& final(self).total_processed == old(self).total_processed
            },
            // Idle with an empty queue: no state change.
            (old(self).current_task is None && old(self).queue@.len() == 0)
                ==> *final(self) == *old(self),
            // FIFO: the completed task is the oldest held one, and the rest
            // keep their order.
            completed is Some ==> old(self).pending_ids().len() > 0
                && completed->Some_0.id == old(self).pending_ids()[0]
                && final(self).pending_ids() == old(self).pending_ids().drop_first(),
            completed is None ==> final(self).pending_ids() == old(self).pending_ids(),
            // The whole transition, as one function on the model.
            final(self).model() == step_one(old(self).model(), current_time),
    {
        let mut completed: Option<Task> = None;

        if self.is_busy {
            let task = *self.current_task.as_ref().unwrap();
            if current_time >= task.start_time
                && current_time - task.start_time >= task.processing_time {
                let mut done = task;
                done.completion_time = current_time;
                self.current_task = None;
                self.is_busy = false;
                self.total_processed = self.total_processed + 1;
                completed = Some(done);
            }
        }

        if !self.is_busy && self.queue.len() > 0 {
            let mut front = self.queue.pop_front().unwrap();
            front.start_time = current_time;
            self.current_task = Some(front);
            self.is_busy = true;
        }

        proof {
            if completed is Some {
                assert(final(self).pending_ids() =~= old(self).pending_ids().drop_first());
            } else {
                assert(final(self).pending_ids() =~= old(self).pending_ids());
            }
            if old(self).current_task is None && old(self).queue@.len() > 0 {
                assert(final(self).queue@ =~= old(self).queue@.drop_first());
            }
            assert(final(self).model() =~= step_one(old(self).model(), current_time));
        }
        completed
    }

    /// Number of pending (queued, not in-service) tasks.
    pub fn queue_length(&self) -> (n: usize)
        ensures
            n == self.queue@.len(),
    {
        self.queue.len()
    }
}

/// Shortest service duration a generated task may be assigned, in
/// simulated milliseconds.
pub const MIN_PROCESSING_TIME_MS: u64 = 100;

/// A rejected generator configuration.
#[derive(Clone, Copy, Debug, PartialEq, Eq, Structural)]
pub enum ConfigError {
    /// The mean arrival rate must be strictly positive.
    ZeroArrivalRate,
    /// The mean processing time must be strictly positive.
    ZeroProcessingTime,
}

/// Relies on rand::random_range over the non-empty integer range
/// `0..bound`: the sampled value lies within that range.
#[verifier::external_body]
fn random_below(bound: u64) -> (r: u64)
    requires
        bound > 0,
    ensures
        r < bound,
{
    rand::random_range(0..bound)
}

/// The duration drawn for a generated task: the configured mean shifted by
/// a uniform offset from `[-variance, variance)` (no offset when the
/// variance is zero), floored at `MIN_PROCESSING_TIME_MS`.
pub open spec fn jittered_duration_ok(p: u64, mean: u64, variance: u64) -> bool {
    if variance == 0 {
        p == vstd::math::max(mean as int, MIN_PROCESSING_TIME_MS as int)
    } else {
        &&& p >= MIN_PROCESSING_TIME_MS
        &&& p >= mean - variance
        &&& (p <= mean + variance - 1 || p == MIN_PROCESSING_TIME_MS)
    }
}

/// Produces the tasks that arrive in one tick: each gets the next unique id,
/// the current clock as its arrival time, and a randomized service duration.
///
/// Rates are fixed point: `arrival_rate` counts thousandths of a task per
/// simulated second; durations are in simulated milliseconds.
pub struct TaskGenerator {
    /// The id the next generated task will receive; starts at 1.
    pub next_id: u64,
    /// Mean arrival rate, milli-tasks per simulated second; positive.
    pub arrival_rate: u64,
    /// Mean service duration, ms; positive.
    pub processing_time: u64,
    /// Half-width of the uniform jitter on service durations, ms.
    pub processing_variance: u64,
}

impl TaskGenerator {
    /// Ids start at 1 and only grow; the configured rate and mean duration
    /// are strictly positive.
    pub open spec fn wf(self) -> bool {
        &&& self.next_id >= 1
        &&& self.arrival_rate > 0
        &&& self.processing_time > 0
    }

    /// Validates the configuration: a zero arrival rate or zero mean
    /// processing time is rejected here, so generation itself never fails.
    pub fn new(arrival_rate: u64, processing_time: u64, processing_variance: u64) -> (r: Result<
        TaskGenerator,
        ConfigError,
    >)
        ensures
            (r is Ok) == (arrival_rate > 0 && processing_time > 0),
            arrival_rate == 0 ==> r == Err::<TaskGenerator, ConfigError>(
                ConfigError::ZeroArrivalRate,
            ),
            arrival_rate > 0 && processing_time == 0 ==> r == Err::<TaskGenerator, ConfigError>(
                ConfigError::ZeroProcessingTime,
            ),
            r is Ok ==> r->Ok_0 == (TaskGenerator {
                next_id: 1,
                arrival_rate,
                processing_time,
                processing_variance,
            }) && r->Ok_0.wf(),
    {
        if arrival_rate == 0 {
            Err(ConfigError::ZeroArrivalRate)
        } else if processing_time == 0 {
            Err(ConfigError::ZeroProcessingTime)
        } else {
            Ok(TaskGenerator { next_id: 1, arrival_rate, processing_time, processing_variance })
        }
    }

    /// The mean number of arrivals expected over `delta_time` milliseconds,
    /// scaled by 10^6 (rate is milli-tasks/s, time is ms). Zero exactly when
    /// the elapsed time is zero (the rate is always positive).
    pub fn expected_arrivals(&self, delta_time: u64) -> (e: u128)
        ensures
            e == self.arrival_rate * delta_time,
            self.wf() ==> ((e == 0) == (delta_time == 0)),
    {
        proof {
            vstd::arithmetic::mul::lemma_mul_upper_bound(
                self.arrival_rate as int,
                u64::MAX as int,
                delta_time as int,
                u64::MAX as int,
            );
            vstd::arithmetic::mul::lemma_mul_nonzero(self.arrival_rate as int, delta_time as int);
        }
        (self.arrival_rate as u128) * (delta_time as u128)
    }

    /// Creates `num_tasks` fresh tasks arriving at `current_time`, with
    /// strictly increasing ids continuing from `next_id` and randomized
    /// service durations around the configured mean.
    pub fn generate_tasks(&mut self, num_tasks: usize, current_time: u64) -> (tasks: Vec<Task>)
        requires
            old(self).wf(),
            old(self).next_id + num_tasks <= u64::MAX,
            old(self).processing_time + 2 * old(self).processing_variance <= u64::MAX,
        ensures
            final(self).wf(),
            final(self).next_id == old(self).next_id + num_tasks,
            final(self).arrival_rate == old(self).arrival_rate,
            final(self).processing_time == old(self).processing_time,
            final(self).processing_variance == old(self).processing_variance,
            tasks@.len() == num_tasks,
            forall|i: int|
                0 <= i < num_tasks ==> {
                    let t = #[trigger] tasks@[i];
                    &&& t.id == old(self).next_id + i
                    &&& t.arrival_time == current_time
                    &&& pending_task_wf(t)
                    &&& jittered_duration_ok(
                        t.processing_time,
                        old(self).processing_time,
                        old(self).processing_variance,
                    )
                },
    {
        let mut tasks: Vec<Task> = Vec::new();
        let mut made: usize = 0;
        while made < num_tasks
            invariant
                made <= num_tasks,
                self.next_id == old(self).next_id + made,
                self.arrival_rate == old(self).arrival_rate,
                self.processing_time == old(self).processing_time,
                self.processing_variance == old(self).processing_variance,
                self.wf(),
                old(self).next_id + num_tasks <= u64::MAX,
                old(self).processing_time + 2 * old(self).processing_variance <= u64::MAX,
                tasks@.len() == made,
                forall|i: int|
                    0 <= i < made ==> {
                        let t = #[trigger] tasks@[i];
                        &&& t.id == old(self).next_id + i
                        &&& t.arrival_time == current_time
                        &&& pending_task_wf(t)
                        &&& jittered_duration_ok(
                            t.processing_time,
                            old(self).processing_time,
                            old(self).processing_variance,
                        )
                    },
            decreases num_tasks - made,
        {
            let mean = self.processing_time;
            let variance = self.processing_variance;
            let processing_time: u64 = if variance == 0 {
                if mean < MIN_PROCESSING_TIME_MS {
                    MIN_PROCESSING_TIME_MS
                } else {
                    mean
                }
            } else {
                let offset = random_below(2 * variance);
                let shifted = mean + offset;
                let raw = if shifted >= variance {
                    shifted - variance
                } else {
                    0
                };
                if raw < MIN_PROCESSING_TIME_MS {
                    MIN_PROCESSING_TIME_MS
                } else {
                    raw
                }
            };
            let task = Task {
                id: self.next_id,
                arrival_time: current_time,
                processing_time,
                start_time: 0,
                completion_time: 0,
            };
            self.next_id = self.next_id + 1;
            tasks.push(task);
            made = made + 1;
        }
        tasks
    }
}

/// The ghost images of a whole server collection, in order.
pub open spec fn models_of(servers: Seq<ServerState>) -> Seq<ServerModel> {
    servers.map_values(|s: ServerState| s.model())
}

/// FIFO law: one step takes tasks from a server only at the head of its
/// held-task order (`pending_ids`), as `process_step` ensures. So of two
/// tasks held by one server, the earlier-dispatched one (at position `i`)
/// completes first — a step either leaves both in place or removes the
/// head, shifting both down with their relative order intact; the later
/// one (at position `j`) never completes while the earlier one is held.
pub proof fn lemma_step_preserves_fifo_order(
    pre: ServerState,
    post: ServerState,
    completed: Option<Task>,
    i: int,
    j: int,
)
    requires
        completed is Some ==> pre.pending_ids().len() > 0 && completed->Some_0.id
            == pre.pending_ids()[0] && post.pending_ids() == pre.pending_ids().drop_first(),
        completed is None ==> post.pending_ids() == pre.pending_ids(),
        0 <= i < j < pre.pending_ids().len(),
    ensures
        completed is None ==> post.pending_ids()[i] == pre.pending_ids()[i]
            && post.pending_ids()[j] == pre.pending_ids()[j],
        completed is Some && i == 0 ==> completed->Some_0.id == pre.pending_ids()[i]
            && post.pending_ids()[j - 1] == pre.pending_ids()[j],
        completed is Some && i > 0 ==> post.pending_ids()[i - 1] == pre.pending_ids()[i]
            && post.pending_ids()[j - 1] == pre.pending_ids()[j],
{
}

/// Returns the index of the server with the fewest pending (queued, not
/// in-service) tasks; ties go to the lowest index. An empty collection
/// yields the sentinel 0, which is then not a usable index: callers must
/// pass a non-empty collection.
pub fn select_least_loaded_server(servers: &Vec<ServerState>) -> (idx: usize)
    ensures
        servers@.len() == 0 ==> idx == 0,
        servers@.len() > 0 ==> {
            &&& idx < servers@.len()
            &&& forall|k: int|
                0 <= k < servers@.len() ==> servers@[idx as int].queue@.len() <= (
                #[trigger] servers@[k]).queue@.len()
            &&& forall|k: int|
                0 <= k < idx ==> servers@[idx as int].queue@.len() < (
                #[trigger] servers@[k]).queue@.len()
            &&& idx == least_loaded_of(models_of(servers@))
        },
{
    if servers.len() == 0 {
        return 0;
    }
    let mut best: usize = 0;
    let mut best_len: usize = servers[0].queue_length();
    let mut i: usize = 1;
    while i < servers.len()
        invariant
            1 <= i <= servers@.len(),
            best < i,
            best_len == servers@[best as int].queue@.len(),
            forall|k: int|
                0 <= k < i ==> best_len <= (#[trigger] servers@[k]).queue@.len(),
            forall|k: int| 0 <= k < best ==> best_len < (#[trigger] servers@[k]).queue@.len(),
        decreases servers@.len() - i,
    {
        let len_i = servers[i].queue_length();
        if len_i < best_len {
            best = i;
            best_len = len_i;
        }
        i = i + 1;
    }
    proof {
        let ms = models_of(servers@);
        assert(least_loaded_ok(ms, best as int));
        assert(least_loaded_ok(ms, least_loaded_of(ms)));
        lemma_least_loaded_unique(ms, best as int, least_loaded_of(ms));
    }
    best
}

} // verus!
