//! The engine context and one simulated tick: generate, dispatch, step,
//! and the bounded completed-task history.
//!
//! The engine is an explicit, caller-owned context: the driving loop owns
//! one `Engine` plus the server collection and hands them into every call,
//! so no state is shared behind the caller's back.

use vstd::prelude::*;
use crate::queue::{
    completed_task_wf, due_to_complete, jittered_duration_ok, least_loaded_of, models_of,
    pending_task_wf, select_least_loaded_server, step_one, ConfigError, ServerModel, ServerState,
    Task, TaskGenerator,
};
use crate::statistics::{
    calculate_statistics, count_busy, sum_processed, sum_queue_lens, sum_wait,
    StatisticsSnapshot,
};

verus! {

/// Completed-task history is trimmed once it grows past this many entries...
pub const HISTORY_CAP: usize = 1000;

/// ...by dropping this many of its oldest entries.
pub const HISTORY_TRIM: usize = 500;

/// What one simulated tick produced.
#[derive(Clone, Copy, Debug, PartialEq, Eq, Structural)]
pub struct ProcessingResult {
    /// Tasks that finished service during this tick.
    pub completed_tasks_count: usize,
    /// Tasks that arrived and were dispatched during this tick.
    pub new_tasks_count: usize,
}

/// The caller-owned engine context: the task generator and the retained
/// window of recently completed tasks.
pub struct Engine {
    /// Source of new tasks; owns the id counter and the configuration.
    pub generator: TaskGenerator,
    /// Recently completed tasks, oldest first, bounded by `HISTORY_CAP`.
    pub completed_tasks: Vec<Task>,
}

impl Engine {
    /// The generator is valid and every retained task is a finished one.
    pub open spec fn wf(self) -> bool {
        &&& self.generator.wf()
        &&& forall|i: int|
            0 <= i < self.completed_tasks@.len() ==> completed_task_wf(
                #[trigger] self.completed_tasks@[i],
            )
    }

    /// Drops the oldest `HISTORY_TRIM` retained tasks once the history
    /// exceeds `HISTORY_CAP` entries, keeping the most recent suffix.
    pub fn trim_completed_history(&mut self)
        requires
            old(self).wf(),
        ensures
            final(self).wf(),
            final(self).generator == old(self).generator,
            old(self).completed_tasks@.len() > HISTORY_CAP ==> final(self).completed_tasks@
                == old(self).completed_tasks@.subrange(
                HISTORY_TRIM as int,
                old(self).completed_tasks@.len() as int,
            ),
            old(self).completed_tasks@.len() <= HISTORY_CAP ==> final(self).completed_tasks@
                == old(self).completed_tasks@,
            final(self).completed_tasks@.len() <= old(self).completed_tasks@.len(),
    {
        if self.completed_tasks.len() > HISTORY_CAP {
            let tail = self.completed_tasks.split_off(HISTORY_TRIM);
            self.completed_tasks = tail;
        }
    }

    /// Replaces the mean arrival rate, floored at `new_rate_milli`; the
    /// rate must stay positive for the generator to remain valid.
    pub fn update_arrival_rate(&mut self, new_rate_milli: u64)
        requires
            old(self).wf(),
            new_rate_milli > 0,
        ensures
            final(self).wf(),
            final(self).generator.arrival_rate == new_rate_milli,
            final(self).generator.next_id == old(self).generator.next_id,
            final(self).generator.processing_time == old(self).generator.processing_time,
            final(self).generator.processing_variance == old(
                self,
            ).generator.processing_variance,
            final(self).completed_tasks == old(self).completed_tasks,
    {
        self.generator.arrival_rate = new_rate_milli;
    }
}

/// Creates an engine from the configuration, with an empty history.
/// A zero arrival rate or zero mean processing time is rejected here.
pub fn init_engine(
    arrival_rate_milli: u64,
    processing_time_ms: u64,
    processing_variance_ms: u64,
) -> (r: Result<Engine, ConfigError>)
    ensures
        (r is Ok) == (arrival_rate_milli > 0 && processing_time_ms > 0),
        arrival_rate_milli == 0 ==> r == Err::<Engine, ConfigError>(ConfigError::ZeroArrivalRate),
        arrival_rate_milli > 0 && processing_time_ms == 0 ==> r == Err::<Engine, ConfigError>(
            ConfigError::ZeroProcessingTime,
        ),
        r is Ok ==> {
            &&& r->Ok_0.wf()
            &&& r->Ok_0.generator == (TaskGenerator {
                next_id: 1,
                arrival_rate: arrival_rate_milli,
                processing_time: processing_time_ms,
                processing_variance: processing_variance_ms,
            })
            &&& r->Ok_0.completed_tasks@ =~= Seq::<Task>::empty()
        },
{
    match TaskGenerator::new(arrival_rate_milli, processing_time_ms, processing_variance_ms) {
        Ok(generator) => Ok(Engine { generator, completed_tasks: Vec::new() }),
        Err(e) => Err(e),
    }
}

/// A fresh, idle server collection with ids `0..count`.
pub fn make_servers(count: usize) -> (servers: Vec<ServerState>)
    ensures
        servers@.len() == count,
        forall|i: int|
            0 <= i < count ==> {
                let s = #[trigger] servers@[i];
                &&& s.wf()
                &&& s.id == i
                &&& s.queue@.len() == 0
                &&& s.current_task is None
                &&& !s.is_busy
                &&& s.total_processed == 0
            },
{
    let mut servers: Vec<ServerState> = Vec::new();
    let mut i: usize = 0;
    while i < count
        invariant
            i <= count,
            servers@.len() == i,
            forall|k: int|
                0 <= k < i ==> {
                    let s = #[trigger] servers@[k];
                    &&& s.wf()
                    &&& s.id == k
                    &&& s.queue@.len() == 0
                    &&& s.current_task is None
                    &&& !s.is_busy
                    &&& s.total_processed == 0
                },
        decreases count - i,
    {
        servers.push(ServerState::new(i));
        i = i + 1;
    }
    servers
}

/// Number of servers that owe a completion at `current_time`.
pub open spec fn count_due(servers: Seq<ServerState>, current_time: u64) -> int
    decreases servers.len(),
{
    if servers.len() == 0 {
        0
    } else {
        (if due_to_complete(servers[0], current_time) {
            1int
        } else {
            0int
        }) + count_due(servers.drop_first(), current_time)
    }
}

/// Total number of tasks held by the servers: queued plus in-service.
pub open spec fn sum_pending(servers: Seq<ServerState>) -> int
    decreases servers.len(),
{
    if servers.len() == 0 {
        0
    } else {
        servers[0].pending().len() + sum_pending(servers.drop_first())
    }
}

/// Replacing one server changes the held-task total by exactly the
/// difference between the new and old element's held tasks.
proof fn lemma_sum_pending_update(servers: Seq<ServerState>, i: int, v: ServerState)
    requires
        0 <= i < servers.len(),
    ensures
        sum_pending(servers.update(i, v)) == sum_pending(servers) - servers[i].pending().len()
            + v.pending().len(),
    decreases servers.len(),
{
    if i == 0 {
        assert(servers.update(0, v).drop_first() =~= servers.drop_first());
    } else {
        lemma_sum_pending_update(servers.drop_first(), i - 1, v);
        assert(servers.update(i, v).drop_first() =~= servers.drop_first().update(i - 1, v));
    }
}

/// A due count over a sequence equals the count over all but the last
/// element, plus the last element's contribution.
proof fn lemma_count_due_last(servers: Seq<ServerState>, current_time: u64)
    requires
        servers.len() > 0,
    ensures
        count_due(servers, current_time) == count_due(servers.drop_last(), current_time) + (
        if due_to_complete(servers.last(), current_time) {
            1int
        } else {
            0int
        }),
    decreases servers.len(),
{
    if servers.len() == 1 {
        assert(servers.drop_last() =~= Seq::<ServerState>::empty());
        assert(servers.drop_first() =~= Seq::<ServerState>::empty());
    } else {
        lemma_count_due_last(servers.drop_first(), current_time);
        assert(servers.drop_first().drop_last() =~= servers.drop_last().drop_first());
        assert(servers.drop_first().last() == servers.last());
    }
}

/// One dispatch: the task joins the tail of the queue of the first
/// least-loaded server, exactly as `select_least_loaded_server` picks it.
pub open spec fn dispatch_one(ms: Seq<ServerModel>, t: Task) -> Seq<ServerModel> {
    let i = least_loaded_of(ms);
    ms.update(i, ServerModel { queue: ms[i].queue.push(t), ..ms[i] })
}

/// The whole dispatch pass: each arrival in turn goes to the server that
/// is least loaded at the moment of its own dispatch.
pub open spec fn dispatch_all(ms: Seq<ServerModel>, ts: Seq<Task>) -> Seq<ServerModel>
    decreases ts.len(),
{
    if ts.len() == 0 {
        ms
    } else {
        dispatch_all(dispatch_one(ms, ts[0]), ts.drop_first())
    }
}

/// The stepping pass: every server is stepped exactly once, after all
/// dispatches.
pub open spec fn step_all(ms: Seq<ServerModel>, current_time: u64) -> Seq<ServerModel> {
    ms.map_values(|m: ServerModel| step_one(m, current_time))
}

/// Dispatching one more task after a pass is the pass followed by one
/// dispatch.
proof fn lemma_dispatch_all_snoc(ms: Seq<ServerModel>, ts: Seq<Task>, t: Task)
    ensures
        dispatch_all(ms, ts.push(t)) == dispatch_one(dispatch_all(ms, ts), t),
    decreases ts.len(),
{
    if ts.len() == 0 {
        assert(ts.push(t)[0] == t);
        assert(ts.push(t).drop_first() =~= Seq::<Task>::empty());
        assert(dispatch_all(ms, ts.push(t)) == dispatch_all(
            dispatch_one(ms, t),
            ts.push(t).drop_first(),
        ));
        assert(dispatch_all(dispatch_one(ms, t), ts.push(t).drop_first()) == dispatch_one(ms, t));
    } else {
        assert(ts.push(t)[0] == ts[0]);
        assert(ts.push(t).drop_first() =~= ts.drop_first().push(t));
        lemma_dispatch_all_snoc(dispatch_one(ms, ts[0]), ts.drop_first(), t);
        assert(dispatch_all(ms, ts) == dispatch_all(dispatch_one(ms, ts[0]), ts.drop_first()));
        assert(dispatch_all(ms, ts.push(t)) == dispatch_all(
            dispatch_one(ms, ts[0]),
            ts.drop_first().push(t),
        ));
    }
}

/// A longer prefix never owes fewer completions.
proof fn lemma_count_due_prefix_mono(
    servers: Seq<ServerState>,
    current_time: u64,
    a: int,
    b: int,
)
    requires
        0 <= a <= b <= servers.len(),
    ensures
        count_due(servers.subrange(0, a), current_time) <= count_due(
            servers.subrange(0, b),
            current_time,
        ),
    decreases b - a,
{
    if a < b {
        lemma_count_due_prefix_mono(servers, current_time, a, b - 1);
        lemma_count_due_last(servers.subrange(0, b), current_time);
        assert(servers.subrange(0, b).drop_last() =~= servers.subrange(0, b - 1));
    }
}

/// One simulated tick over the whole facility: generate `num_new_tasks`
/// arrivals, dispatch each to the least-loaded server, then step every
/// server once, retaining completions in the engine's history.
///
/// The arrival count is sampled by the caller (it depends on a random
/// draw); whatever count comes in, this function dispatches exactly that
/// many fresh tasks. Per-server completion counters never decrease.
#[verifier::rlimit(60)]
pub fn process_simulation_step(
    engine: &mut Engine,
    servers: &mut Vec<ServerState>,
    num_new_tasks: usize,
    current_time: u64,
) -> (r: ProcessingResult)
    requires
        old(engine).wf(),
        num_new_tasks > 0 ==> old(servers)@.len() > 0,
        forall|i: int|
            0 <= i < old(servers)@.len() ==> {
                let s = #[trigger] old(servers)@[i];
                &&& s.wf()
                &&& s.clock_ok(current_time)
                &&& s.total_processed < u64::MAX
            },
        old(engine).generator.next_id + num_new_tasks <= u64::MAX,
        old(engine).generator.processing_time + 2 * old(engine).generator.processing_variance
            <= u64::MAX,
    ensures
        final(engine).wf(),
        r.new_tasks_count == num_new_tasks,
        r.completed_tasks_count <= old(servers)@.len(),
        // Conservation: tasks are neither duplicated nor lost — the held
        // total moves by exactly the arrivals minus the completions.
        sum_pending(final(servers)@) == sum_pending(old(servers)@) + num_new_tasks
            - r.completed_tasks_count,
        // Completions are owed: exactly the servers whose in-service task
        // has run out complete this tick, and only those counters move.
        r.completed_tasks_count == count_due(old(servers)@, current_time),
        forall|i: int|
            0 <= i < old(servers)@.len() ==> (#[trigger] final(servers)@[i]).total_processed
                == old(servers)@[i].total_processed + (if due_to_complete(
                old(servers)@[i],
                current_time,
            ) {
                1int
            } else {
                0int
            }),
        final(engine).generator.next_id == old(engine).generator.next_id + num_new_tasks,
        final(engine).generator.arrival_rate == old(engine).generator.arrival_rate,
        final(engine).generator.processing_time == old(engine).generator.processing_time,
        final(engine).generator.processing_variance == old(engine).generator.processing_variance,
        final(servers)@.len() == old(servers)@.len(),
        forall|i: int|
            0 <= i < old(servers)@.len() ==> {
                let s = #[trigger] final(servers)@[i];
                &&& s.wf()
                &&& s.id == old(servers)@[i].id
                &&& s.total_processed >= old(servers)@[i].total_processed
            },
        final(engine).completed_tasks@.len() == old(engine).completed_tasks@.len()
            + r.completed_tasks_count,
        final(engine).completed_tasks@.subrange(0, old(engine).completed_tasks@.len() as int)
            == old(engine).completed_tasks@,
        forall|k: int|
            old(engine).completed_tasks@.len() <= k < final(engine).completed_tasks@.len() ==> {
                let t = #[trigger] final(engine).completed_tasks@[k];
                &&& completed_task_wf(t)
                &&& t.completion_time == current_time
            },
        // The whole tick, as one function on the models: there is a batch
        // of generated tasks (fresh ids in order, arriving now, jittered
        // durations) such that every arrival is enqueued exactly once, on
        // the least-loaded server at the moment of its own dispatch, and
        // only then is every server stepped exactly once — so an arrival
        // can enter an idle server within this same tick.
        exists|ts: Seq<Task>|
            #![auto]
            {
                &&& ts.len() == num_new_tasks
                &&& forall|i: int|
                    0 <= i < ts.len() ==> (#[trigger] ts[i]).id == old(
                        engine,
                    ).generator.next_id + i && ts[i].arrival_time == current_time
                        && pending_task_wf(ts[i]) && jittered_duration_ok(
                        ts[i].processing_time,
                        old(engine).generator.processing_time,
                        old(engine).generator.processing_variance,
                    )
                &&& models_of(final(servers)@) == step_all(
                    dispatch_all(models_of(old(servers)@), ts),
                    current_time,
                )
            },
        // The retained completions are exactly the due servers' in-service
        // tasks, stamped with the clock, in server order.
        forall|i: int|
            0 <= i < old(servers)@.len() && due_to_complete(
                #[trigger] old(servers)@[i],
                current_time,
            ) ==> final(engine).completed_tasks@[old(engine).completed_tasks@.len() as int
                + count_due(old(servers)@.subrange(0, i), current_time)] == (Task {
                completion_time: current_time,
                ..old(servers)@[i].current_task->Some_0
            }),
{
    let n = servers.len();
    let new_tasks = engine.generator.generate_tasks(num_new_tasks, current_time);

    let mut k: usize = 0;
    proof {
        assert(new_tasks@.subrange(0, 0) =~= Seq::<Task>::empty());
    }
    while k < new_tasks.len()
        invariant
            new_tasks@.len() == num_new_tasks,
            num_new_tasks > 0 ==> n > 0,
            k <= new_tasks@.len(),
            models_of(servers@) == dispatch_all(
                models_of(old(servers)@),
                new_tasks@.subrange(0, k as int),
            ),
            forall|i: int|
                0 <= i < new_tasks@.len() ==> pending_task_wf(#[trigger] new_tasks@[i])
                    && new_tasks@[i].arrival_time == current_time,
            servers@.len() == n,
            sum_pending(servers@) == sum_pending(old(servers)@) + k,
            forall|i: int|
                0 <= i < n ==> {
                    let s = #[trigger] servers@[i];
                    &&& s.wf()
                    &&& s.clock_ok(current_time)
                    &&& s.id == old(servers)@[i].id
                    &&& s.current_task == old(servers)@[i].current_task
                    &&& s.total_processed == old(servers)@[i].total_processed
                    &&& s.total_processed < u64::MAX
                },
        decreases new_tasks@.len() - k,
    {
        let idx = select_least_loaded_server(servers);
        let task = new_tasks[k];
        let ghost pre = servers@;
        let target = &mut servers[idx];
        target.add_task(task);
        proof {
            lemma_sum_pending_update(pre, idx as int, servers@[idx as int]);
            assert(servers@ =~= pre.update(idx as int, servers@[idx as int]));
            assert(models_of(servers@) =~= models_of(pre).update(
                idx as int,
                servers@[idx as int].model(),
            ));
            assert(idx as int == least_loaded_of(models_of(pre)));
            assert(servers@[idx as int].model() =~= (ServerModel {
                queue: models_of(pre)[idx as int].queue.push(task),
                ..models_of(pre)[idx as int]
            }));
            assert(models_of(servers@) =~= dispatch_one(models_of(pre), task));
            lemma_dispatch_all_snoc(
                models_of(old(servers)@),
                new_tasks@.subrange(0, k as int),
                new_tasks@[k as int],
            );
            assert(new_tasks@.subrange(0, k as int).push(new_tasks@[k as int])
                =~= new_tasks@.subrange(0, k as int + 1));
        }
        k = k + 1;
    }

    let ghost mid = servers@;
    let ghost gen_after = engine.generator;
    let ghost history_before = engine.completed_tasks@;
    let mut completed_count: usize = 0;
    let mut j: usize = 0;
    while j < n
        invariant
            j <= n,
            servers@.len() == n,
            mid.len() == n,
            completed_count <= j,
            engine.generator == gen_after,
            forall|i: int|
                j <= i < n ==> #[trigger] servers@[i] == mid[i],
            old(servers)@.len() == n,
            completed_count == count_due(old(servers)@.subrange(0, j as int), current_time),
            sum_pending(servers@) == sum_pending(mid) - completed_count,
            forall|i: int|
                0 <= i < n ==> {
                    let s = #[trigger] mid[i];
                    &&& s.wf()
                    &&& s.clock_ok(current_time)
                    &&& s.total_processed < u64::MAX
                    &&& s.id == old(servers)@[i].id
                    &&& s.current_task == old(servers)@[i].current_task
                    &&& s.total_processed == old(servers)@[i].total_processed
                },
            forall|i: int|
                0 <= i < n ==> {
                    let s = #[trigger] servers@[i];
                    &&& s.wf()
                    &&& s.id == mid[i].id
                    &&& s.total_processed >= mid[i].total_processed
                },
            forall|i: int|
                0 <= i < j ==> (#[trigger] servers@[i]).total_processed
                    == old(servers)@[i].total_processed + (if due_to_complete(
                    old(servers)@[i],
                    current_time,
                ) {
                    1int
                } else {
                    0int
                }),
            forall|i: int|
                0 <= i < j ==> (#[trigger] servers@[i]).model() == step_one(
                    mid[i].model(),
                    current_time,
                ),
            engine.completed_tasks@.len() == history_before.len() + completed_count,
            engine.completed_tasks@.subrange(0, history_before.len() as int) == history_before,
            forall|q: int|
                history_before.len() <= q < engine.completed_tasks@.len() ==> {
                    let t = #[trigger] engine.completed_tasks@[q];
                    &&& completed_task_wf(t)
                    &&& t.completion_time == current_time
                },
            forall|i: int|
                0 <= i < j && due_to_complete(#[trigger] old(servers)@[i], current_time)
                    ==> engine.completed_tasks@[history_before.len() as int + count_due(
                    old(servers)@.subrange(0, i),
                    current_time,
                )] == (Task {
                    completion_time: current_time,
                    ..old(servers)@[i].current_task->Some_0
                }),
        decreases n - j,
    {
        let ghost pre = servers@;
        let server = &mut servers[j];
        let stepped = server.process_step(current_time);
        proof {
            lemma_sum_pending_update(pre, j as int, servers@[j as int]);
            assert(servers@ =~= pre.update(j as int, servers@[j as int]));
        }
        match stepped {
            Some(done) => {
                let ghost hist_pre_push = engine.completed_tasks@;
                engine.completed_tasks.push(done);
                completed_count = completed_count + 1;
                proof {
                    assert(engine.completed_tasks@.subrange(0, history_before.len() as int)
                        =~= history_before);
                    assert(hist_pre_push.len() == history_before.len() + count_due(
                        old(servers)@.subrange(0, j as int),
                        current_time,
                    ));
                    assert(engine.completed_tasks@[hist_pre_push.len() as int] == done);
                    assert(old(servers)@[j as int].current_task == pre[j as int].current_task);
                    assert(done == (Task {
                        completion_time: current_time,
                        ..old(servers)@[j as int].current_task->Some_0
                    }));
                    assert(forall|q: int|
                        0 <= q < hist_pre_push.len() ==> #[trigger] engine.completed_tasks@[q]
                            == hist_pre_push[q]);
                    assert forall|i: int|
                        0 <= i < j + 1 && due_to_complete(
                            #[trigger] old(servers)@[i],
                            current_time,
                        ) implies engine.completed_tasks@[history_before.len() as int
                        + count_due(old(servers)@.subrange(0, i), current_time)] == (Task {
                        completion_time: current_time,
                        ..old(servers)@[i].current_task->Some_0
                    }) by {
                        lemma_count_due_last(old(servers)@.subrange(0, i + 1), current_time);
                        assert(old(servers)@.subrange(0, i + 1).drop_last() =~= old(
                            servers,
                        )@.subrange(0, i));
                        assert(old(servers)@.subrange(0, i + 1).last() == old(servers)@[i]);
                        lemma_count_due_prefix_mono(old(servers)@, current_time, 0, i);
                        assert(old(servers)@.subrange(0, 0) =~= Seq::<ServerState>::empty());
                        assert(count_due(old(servers)@.subrange(0, i), current_time) >= 0);
                        if i < j {
                            lemma_count_due_prefix_mono(
                                old(servers)@,
                                current_time,
                                i + 1,
                                j as int,
                            );
                            assert(history_before.len() as int + count_due(
                                old(servers)@.subrange(0, i),
                                current_time,
                            ) < hist_pre_push.len() as int);
                            assert(hist_pre_push[history_before.len() as int + count_due(
                                old(servers)@.subrange(0, i),
                                current_time,
                            )] == (Task {
                                completion_time: current_time,
                                ..old(servers)@[i].current_task->Some_0
                            }));
                        } else {
                            assert(count_due(old(servers)@.subrange(0, i), current_time)
                                == count_due(old(servers)@.subrange(0, j as int), current_time));
                            assert(history_before.len() as int + count_due(
                                old(servers)@.subrange(0, i),
                                current_time,
                            ) == hist_pre_push.len() as int);
                            assert(engine.completed_tasks@[hist_pre_push.len() as int] == done);
                            assert(done == (Task {
                                completion_time: current_time,
                                ..old(servers)@[i].current_task->Some_0
                            }));
                        }
                    }
                }
            },
            None => {
                proof {
                    assert(pre[j as int] == mid[j as int]);
                    assert(!due_to_complete(old(servers)@[j as int], current_time));
                    assert forall|i: int|
                        0 <= i < j + 1 && due_to_complete(
                            #[trigger] old(servers)@[i],
                            current_time,
                        ) implies engine.completed_tasks@[history_before.len() as int
                        + count_due(old(servers)@.subrange(0, i), current_time)] == (Task {
                        completion_time: current_time,
                        ..old(servers)@[i].current_task->Some_0
                    }) by {
                        assert(i < j);
                        lemma_count_due_prefix_mono(old(servers)@, current_time, 0, i);
                        assert(old(servers)@.subrange(0, 0) =~= Seq::<ServerState>::empty());
                        lemma_count_due_prefix_mono(old(servers)@, current_time, i + 1, j as int);
                        lemma_count_due_last(old(servers)@.subrange(0, i + 1), current_time);
                        assert(old(servers)@.subrange(0, i + 1).drop_last() =~= old(
                            servers,
                        )@.subrange(0, i));
                        assert(old(servers)@.subrange(0, i + 1).last() == old(servers)@[i]);
                    }
                }
            },
        }
        proof {
            lemma_count_due_last(old(servers)@.subrange(0, j as int + 1), current_time);
            assert(old(servers)@.subrange(0, j as int + 1).drop_last() =~= old(
                servers,
            )@.subrange(0, j as int));
            assert(old(servers)@.subrange(0, j as int + 1).last() == old(servers)@[j as int]);
        }
        j = j + 1;
    }

    proof {
        assert(old(servers)@.subrange(0, n as int) =~= old(servers)@);
        assert(new_tasks@.subrange(0, num_new_tasks as int) =~= new_tasks@);
        assert(models_of(mid) == dispatch_all(models_of(old(servers)@), new_tasks@));
        assert(models_of(servers@) =~= step_all(models_of(mid), current_time));
        assert(models_of(servers@) == step_all(
            dispatch_all(models_of(old(servers)@), new_tasks@),
            current_time,
        ));
    }

    proof {
        assert forall|i: int|
            0 <= i < engine.completed_tasks@.len() implies completed_task_wf(
            #[trigger] engine.completed_tasks@[i],
        ) by {
            if i < history_before.len() {
                assert(engine.completed_tasks@[i] == engine.completed_tasks@.subrange(
                    0,
                    history_before.len() as int,
                )[i]);
            }
        }
    }

    ProcessingResult { completed_tasks_count: completed_count, new_tasks_count: num_new_tasks }
}

/// A statistics snapshot over the engine's retained completed-task window:
/// the boundary call, with the engine context passed explicitly.
pub fn get_statistics(engine: &Engine, servers: &Vec<ServerState>, time_window: u64) -> (stats:
    StatisticsSnapshot)
    requires
        engine.wf(),
        sum_queue_lens(servers@) <= usize::MAX,
        sum_processed(servers@) <= u64::MAX,
        time_window > 0 ==> engine.completed_tasks@.len() as int * 1_000_000 / time_window as int
            <= u64::MAX,
    ensures
        stats.total_queue_length == sum_queue_lens(servers@),
        stats.completed_tasks == sum_processed(servers@),
        servers@.len() == 0 ==> stats.server_utilization_percent == 0,
        servers@.len() > 0 ==> stats.server_utilization_percent == count_busy(servers@) * 100
            / servers@.len() as int,
        stats.server_utilization_percent <= 100,
        time_window == 0 ==> stats.current_throughput_milli == 0,
        time_window > 0 ==> stats.current_throughput_milli == engine.completed_tasks@.len() as int
            * 1_000_000 / time_window as int,
        engine.completed_tasks@.len() == 0 ==> stats.average_wait_time_ms == 0,
        engine.completed_tasks@.len() > 0 ==> stats.average_wait_time_ms == sum_wait(
            engine.completed_tasks@,
        ) / engine.completed_tasks@.len() as int,
{
    calculate_statistics(servers, &engine.completed_tasks, time_window)
}

/// Smallest value the interactive surface accepts for a rate or duration:
/// 0.1 simulated seconds (100 ms, or 100 milli-tasks/s for the rate).
pub const INTERACTIVE_FLOOR: u64 = 100;

/// A parsed interactive command. Malformed input never becomes a command:
/// the embedding layer drops it before this point.
#[derive(Clone, Copy, Debug, PartialEq, Eq, Structural)]
pub enum SimCommand {
    /// Discard and recreate the server collection with this many servers.
    SetServerCount(usize),
    /// Set the mean arrival rate, in milli-tasks per simulated second.
    SetArrivalRate(u64),
    /// Set the mean processing time, in simulated milliseconds.
    SetProcessingTime(u64),
    /// End the run.
    Quit,
}

/// Applies one interactive command to the engine and the server
/// collection; returns whether the run should end. Rates and durations
/// are floored at `INTERACTIVE_FLOOR`; changing the server count discards
/// all in-flight work.
pub fn apply_command(engine: &mut Engine, servers: &mut Vec<ServerState>, cmd: SimCommand) -> (quit:
    bool)
    requires
        old(engine).wf(),
    ensures
        final(engine).wf(),
        quit == (cmd is Quit),
        cmd is Quit ==> *final(engine) == *old(engine) && *final(servers) == *old(servers),
        cmd matches SimCommand::SetServerCount(c) ==> {
            &&& *final(engine) == *old(engine)
            &&& final(servers)@.len() == c
            &&& forall|i: int|
                0 <= i < c ==> {
                    let s = #[trigger] final(servers)@[i];
                    &&& s.wf()
                    &&& s.id == i
                    &&& s.queue@.len() == 0
                    &&& s.current_task is None
                    &&& s.total_processed == 0
                }
        },
        cmd matches SimCommand::SetArrivalRate(r) ==> {
            &&& *final(servers) == *old(servers)
            &&& final(engine).generator.arrival_rate == vstd::math::max(
                r as int,
                INTERACTIVE_FLOOR as int,
            )
            &&& final(engine).generator.next_id == old(engine).generator.next_id
            &&& final(engine).generator.processing_time == old(engine).generator.processing_time
            &&& final(engine).generator.processing_variance == old(
                engine,
            ).generator.processing_variance
            &&& final(engine).completed_tasks == old(engine).completed_tasks
        },
        cmd matches SimCommand::SetProcessingTime(p) ==> {
            &&& *final(servers) == *old(servers)
            &&& final(engine).generator.processing_time == vstd::math::max(
                p as int,
                INTERACTIVE_FLOOR as int,
            )
            &&& final(engine).generator.next_id == old(engine).generator.next_id
            &&& final(engine).generator.arrival_rate == old(engine).generator.arrival_rate
            &&& final(engine).generator.processing_variance == old(
                engine,
            ).generator.processing_variance
            &&& final(engine).completed_tasks == old(engine).completed_tasks
        },
{
    match cmd {
        SimCommand::SetServerCount(c) => {
            *servers = make_servers(c);
            false
        },
        SimCommand::SetArrivalRate(r) => {
            let floored = if r < INTERACTIVE_FLOOR {
                INTERACTIVE_FLOOR
            } else {
                r
            };
            engine.generator.arrival_rate = floored;
            false
        },
        SimCommand::SetProcessingTime(p) => {
            let floored = if p < INTERACTIVE_FLOOR {
                INTERACTIVE_FLOOR
            } else {
                p
            };
            engine.generator.processing_time = floored;
            false
        },
        SimCommand::Quit => true,
    }
}

} // verus!
