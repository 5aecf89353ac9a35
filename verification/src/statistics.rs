//! Point-in-time statistics over the server collection and a window of
//! recently completed tasks. Pure and recomputed from scratch each call.

use vstd::prelude::*;
use crate::queue::{completed_task_wf, ServerState, Task};

verus! {

/// Sum of the pending-queue sizes of all servers (service slots excluded).
pub open spec fn sum_queue_lens(servers: Seq<ServerState>) -> int
    decreases servers.len(),
{
    if servers.len() == 0 {
        0
    } else {
        servers[0].queue@.len() + sum_queue_lens(servers.drop_first())
    }
}

/// Number of servers whose service slot is occupied.
pub open spec fn count_busy(servers: Seq<ServerState>) -> int
    decreases servers.len(),
{
    if servers.len() == 0 {
        0
    } else {
        (if servers[0].is_busy {
            1int
        } else {
            0int
        }) + count_busy(servers.drop_first())
    }
}

/// Lifetime sum of completed-task counters across all servers.
pub open spec fn sum_processed(servers: Seq<ServerState>) -> int
    decreases servers.len(),
{
    if servers.len() == 0 {
        0
    } else {
        servers[0].total_processed + sum_processed(servers.drop_first())
    }
}

/// Sum of the waiting times (`start_time - arrival_time`) of the tasks.
pub open spec fn sum_wait(tasks: Seq<Task>) -> int
    decreases tasks.len(),
{
    if tasks.len() == 0 {
        0
    } else {
        (tasks[0].start_time - tasks[0].arrival_time) + sum_wait(tasks.drop_first())
    }
}

/// A point-in-time reading of the simulation, recomputed from scratch each
/// tick. Rates are fixed point: thousandths per simulated second.
#[derive(Clone, Copy, Debug, PartialEq, Eq, Structural)]
pub struct StatisticsSnapshot {
    /// Tasks completed per simulated second over the given window, in
    /// thousandths (milli-tasks/s).
    pub current_throughput_milli: u64,
    /// Mean waiting time over the completed-task window, in simulated
    /// milliseconds (floored).
    pub average_wait_time_ms: u64,
    /// Share of servers currently busy, as a whole percentage (floored);
    /// 0 when there are no servers.
    pub server_utilization_percent: u64,
    /// Sum of all servers' pending-queue sizes, in-service tasks excluded.
    pub total_queue_length: usize,
    /// Lifetime count of completed tasks across all servers.
    pub completed_tasks: u64,
}

impl Default for StatisticsSnapshot {
    /// The all-zero snapshot.
    fn default() -> (s: StatisticsSnapshot)
        ensures
            s.current_throughput_milli == 0,
            s.average_wait_time_ms == 0,
            s.server_utilization_percent == 0,
            s.total_queue_length == 0,
            s.completed_tasks == 0,
    {
        StatisticsSnapshot {
            current_throughput_milli: 0,
            average_wait_time_ms: 0,
            server_utilization_percent: 0,
            total_queue_length: 0,
            completed_tasks: 0,
        }
    }
}

proof fn lemma_sum_queue_lens_nonneg(servers: Seq<ServerState>)
    ensures
        sum_queue_lens(servers) >= 0,
    decreases servers.len(),
{
    if servers.len() > 0 {
        lemma_sum_queue_lens_nonneg(servers.drop_first());
    }
}

proof fn lemma_sum_processed_nonneg(servers: Seq<ServerState>)
    ensures
        sum_processed(servers) >= 0,
    decreases servers.len(),
{
    if servers.len() > 0 {
        lemma_sum_processed_nonneg(servers.drop_first());
    }
}

proof fn lemma_count_busy_bounds(servers: Seq<ServerState>)
    ensures
        0 <= count_busy(servers) <= servers.len(),
    decreases servers.len(),
{
    if servers.len() > 0 {
        lemma_count_busy_bounds(servers.drop_first());
    }
}

/// Splitting a sum at index `i`: the suffix starting at `i` contributes
/// its head plus the suffix starting at `i + 1`.
proof fn lemma_sum_queue_lens_step(servers: Seq<ServerState>, i: int)
    requires
        0 <= i < servers.len(),
    ensures
        sum_queue_lens(servers.subrange(i, servers.len() as int)) == servers[i].queue@.len()
            + sum_queue_lens(servers.subrange(i + 1, servers.len() as int)),
{
    let suffix = servers.subrange(i, servers.len() as int);
    assert(suffix.drop_first() =~= servers.subrange(i + 1, servers.len() as int));
}

proof fn lemma_count_busy_step(servers: Seq<ServerState>, i: int)
    requires
        0 <= i < servers.len(),
    ensures
        count_busy(servers.subrange(i, servers.len() as int)) == (if servers[i].is_busy {
            1int
        } else {
            0int
        }) + count_busy(servers.subrange(i + 1, servers.len() as int)),
{
    let suffix = servers.subrange(i, servers.len() as int);
    assert(suffix.drop_first() =~= servers.subrange(i + 1, servers.len() as int));
}

proof fn lemma_sum_processed_step(servers: Seq<ServerState>, i: int)
    requires
        0 <= i < servers.len(),
    ensures
        sum_processed(servers.subrange(i, servers.len() as int)) == servers[i].total_processed
            + sum_processed(servers.subrange(i + 1, servers.len() as int)),
{
    let suffix = servers.subrange(i, servers.len() as int);
    assert(suffix.drop_first() =~= servers.subrange(i + 1, servers.len() as int));
}

proof fn lemma_sum_wait_step(tasks: Seq<Task>, i: int)
    requires
        0 <= i < tasks.len(),
    ensures
        sum_wait(tasks.subrange(i, tasks.len() as int)) == (tasks[i].start_time
            - tasks[i].arrival_time) + sum_wait(tasks.subrange(i + 1, tasks.len() as int)),
{
    let suffix = tasks.subrange(i, tasks.len() as int);
    assert(suffix.drop_first() =~= tasks.subrange(i + 1, tasks.len() as int));
}

/// Computes a snapshot from the servers, a window of recently completed
/// tasks, and the window's duration in simulated milliseconds.
///
/// The throughput is meaningful only when the window argument holds the
/// completions of the last `time_window` milliseconds: callers pair the
/// two. Utilization is 0 for an empty server collection and never exceeds
/// 100 percent.
pub fn calculate_statistics(
    servers: &Vec<ServerState>,
    completed_tasks: &Vec<Task>,
    time_window: u64,
) -> (stats: StatisticsSnapshot)
    requires
        sum_queue_lens(servers@) <= usize::MAX,
        sum_processed(servers@) <= u64::MAX,
        forall|i: int|
            0 <= i < completed_tasks@.len() ==> completed_task_wf(#[trigger] completed_tasks@[i]),
        time_window > 0 ==> completed_tasks@.len() as int * 1_000_000 / time_window as int <= u64::MAX,
    ensures
        stats.total_queue_length == sum_queue_lens(servers@),
        stats.completed_tasks == sum_processed(servers@),
        servers@.len() == 0 ==> stats.server_utilization_percent == 0,
        servers@.len() > 0 ==> stats.server_utilization_percent == count_busy(servers@) * 100
            / servers@.len() as int,
        stats.server_utilization_percent <= 100,
        time_window == 0 ==> stats.current_throughput_milli == 0,
        time_window > 0 ==> stats.current_throughput_milli == completed_tasks@.len() as int
            * 1_000_000 / time_window as int,
        completed_tasks@.len() == 0 ==> stats.average_wait_time_ms == 0,
        completed_tasks@.len() > 0 ==> stats.average_wait_time_ms == sum_wait(completed_tasks@)
            / completed_tasks@.len() as int,
{
    let ghost all = servers@;
    let n = servers.len();

    let mut total_queue_length: usize = 0;
    let mut busy_servers: usize = 0;
    let mut processed: u64 = 0;
    let mut i: usize = 0;
    proof {
        assert(all.subrange(0, n as int) =~= all);
    }
    while i < n
        invariant
            0 <= i <= n,
            n == all.len(),
            servers@ == all,
            sum_queue_lens(all) <= usize::MAX,
            sum_processed(all) <= u64::MAX,
            total_queue_length + sum_queue_lens(all.subrange(i as int, n as int)) == sum_queue_lens(
                all,
            ),
            busy_servers == count_busy(all.subrange(0, i as int)),
            busy_servers <= i,
            processed + sum_processed(all.subrange(i as int, n as int)) == sum_processed(all),
        decreases n - i,
    {
        proof {
            lemma_sum_queue_lens_step(all, i as int);
            lemma_sum_queue_lens_nonneg(all.subrange(i as int + 1, n as int));
            lemma_sum_processed_step(all, i as int);
            lemma_sum_processed_nonneg(all.subrange(i as int + 1, n as int));
            lemma_count_busy_step(all, i as int);
            assert(all.subrange(0, i as int + 1).drop_last() =~= all.subrange(0, i as int));
            assert(all.subrange(0, i as int + 1).last() == all[i as int]);
            lemma_count_busy_last(all.subrange(0, i as int + 1));
        }
        total_queue_length = total_queue_length + servers[i].queue_length();
        if servers[i].is_busy {
            busy_servers = busy_servers + 1;
        }
        processed = processed + servers[i].total_processed;
        i = i + 1;
    }
    proof {
        assert(all.subrange(n as int, n as int) =~= Seq::<ServerState>::empty());
        assert(all.subrange(0, n as int) =~= all);
    }

    let server_utilization_percent: u64 = if n > 0 {
        proof {
            lemma_count_busy_bounds(all);
            vstd::arithmetic::mul::lemma_mul_inequality(count_busy(all), n as int, 100);
            vstd::arithmetic::div_mod::lemma_div_is_ordered(
                count_busy(all) * 100,
                n as int * 100,
                n as int,
            );
            vstd::arithmetic::div_mod::lemma_div_multiples_vanish(100, n as int);
            assert(n as int * 100 == 100 * n as int);
            assert((n as int * 100) / n as int == 100);
        }
        ((busy_servers as u128 * 100) / (n as u128)) as u64
    } else {
        0
    };

    let window_len = completed_tasks.len();
    let current_throughput_milli: u64 = if time_window > 0 {
        ((window_len as u128 * 1_000_000) / (time_window as u128)) as u64
    } else {
        0
    };

    let ghost win = completed_tasks@;
    let mut wait_sum: u128 = 0;
    let mut j: usize = 0;
    proof {
        assert(win.subrange(0, window_len as int) =~= win);
    }
    while j < window_len
        invariant
            0 <= j <= window_len,
            window_len == win.len(),
            completed_tasks@ == win,
            forall|k: int| 0 <= k < win.len() ==> completed_task_wf(#[trigger] win[k]),
            wait_sum + sum_wait(win.subrange(j as int, window_len as int)) == sum_wait(win),
            wait_sum <= j * (u64::MAX as int),
        decreases window_len - j,
    {
        proof {
            lemma_sum_wait_step(win, j as int);
            lemma_sum_wait_nonneg(win.subrange(j as int + 1, window_len as int));
        }
        let t = &completed_tasks[j];
        wait_sum = wait_sum + ((t.start_time - t.arrival_time) as u128);
        j = j + 1;
    }
    proof {
        assert(win.subrange(window_len as int, window_len as int) =~= Seq::<Task>::empty());
    }

    let average_wait_time_ms: u64 = if window_len > 0 {
        proof {
            vstd::arithmetic::div_mod::lemma_div_is_ordered(
                sum_wait(win),
                win.len() as int * (u64::MAX as int),
                win.len() as int,
            );
            vstd::arithmetic::div_mod::lemma_div_multiples_vanish(
                u64::MAX as int,
                win.len() as int,
            );
            assert(win.len() as int * (u64::MAX as int) == (win.len() as int) * (u64::MAX as int));
            assert(((win.len() as int) * (u64::MAX as int)) / win.len() as int == u64::MAX as int);
        }
        (wait_sum / (window_len as u128)) as u64
    } else {
        0
    };

    StatisticsSnapshot {
        current_throughput_milli,
        average_wait_time_ms,
        server_utilization_percent,
        total_queue_length,
        completed_tasks: processed,
    }
}

proof fn lemma_sum_wait_nonneg(tasks: Seq<Task>)
    requires
        forall|i: int| 0 <= i < tasks.len() ==> (#[trigger] tasks[i]).start_time
            >= tasks[i].arrival_time,
    ensures
        sum_wait(tasks) >= 0,
    decreases tasks.len(),
{
    if tasks.len() > 0 {
        assert(forall|i: int|
            0 <= i < tasks.drop_first().len() ==> (#[trigger] tasks.drop_first()[i]) == tasks[i
                + 1]);
        lemma_sum_wait_nonneg(tasks.drop_first());
    }
}

/// A busy count over a sequence equals the count over all but the last
/// element, plus the last element's contribution.
proof fn lemma_count_busy_last(servers: Seq<ServerState>)
    requires
        servers.len() > 0,
    ensures
        count_busy(servers) == count_busy(servers.drop_last()) + (if servers.last().is_busy {
            1int
        } else {
            0int
        }),
    decreases servers.len(),
{
    if servers.len() == 1 {
        assert(servers.drop_last() =~= Seq::<ServerState>::empty());
        assert(servers.drop_first() =~= Seq::<ServerState>::empty());
    } else {
        lemma_count_busy_last(servers.drop_first());
        assert(servers.drop_first().drop_last() =~= servers.drop_last().drop_first());
        assert(servers.drop_first().last() == servers.last());
    }
}

} // verus!
